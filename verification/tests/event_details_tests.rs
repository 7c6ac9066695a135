use kalendar::event_details::{
    clean_url, decode_html_entities, description, is_meeting_url, looks_like_html, meeting_url,
    plain_text, push_newline, strip_html, tidy_lines, unescape_ical_text, urls_in,
};
use kalendar::{local_at, DateRange, Day, Event, MockBackend};

fn event() -> Event {
    let date = Day::from_ymd(2026, 9, 4).unwrap();
    MockBackend::demo(date)
        .unwrap()
        .events(DateRange::new(
            local_at(date.add_days(-7).unwrap(), 0, 0).unwrap(),
            local_at(date.add_days(7).unwrap(), 0, 0).unwrap(),
        ))
        .into_iter()
        .next()
        .unwrap()
}

#[test]
fn parses_html_entities_breaks_and_ical_escapes() {
    let mut event = event();
    event.notes = Some(
        "<p>Agenda &amp; context</p><p>First item\\nSecond item</p><div>2 < 3 and 5 > 4 &copy; Done &#x2713;</div><ul><li>Next</li></ul>"
            .into(),
    );
    assert_eq!(
        description(&event).as_deref(),
        Some("Agenda & context\nFirst item\nSecond item\n2 < 3 and 5 > 4 &copy; Done ✓\n• Next")
    );
}

#[test]
fn finds_meeting_urls_in_descriptions_and_decodes_query_entities() {
    let mut event = event();
    event.url = None;
    event.notes = Some(
        r#"<a href="https://teams.microsoft.com/l/meetup-join/abc?x=1&amp;y=2">Join the meeting</a>"#
            .into(),
    );
    assert_eq!(
        meeting_url(&event).as_deref(),
        Some("https://teams.microsoft.com/l/meetup-join/abc?x=1&y=2")
    );
}

#[test]
fn prefers_a_recognized_description_meeting_over_a_generic_event_url() {
    let mut event = event();
    event.url = Some("https://example.com/agenda".into());
    event.notes = Some("Join at https://meet.google.com/abc-defg-hij".into());
    assert_eq!(meeting_url(&event).as_deref(), Some("https://meet.google.com/abc-defg-hij"));
}

#[test]
fn finds_meeting_urls_in_locations() {
    let mut event = event();
    event.url = None;
    event.location = Some("Zoom: https://us02web.zoom.us/j/123456789".into());
    assert_eq!(meeting_url(&event).as_deref(), Some("https://us02web.zoom.us/j/123456789"));
}

#[test]
fn generic_event_url_is_used_when_nothing_better_is_found() {
    let mut event = event();
    event.url = Some("https://example.com/agenda".into());
    event.notes = None;
    event.location = None;
    assert_eq!(meeting_url(&event).as_deref(), Some("https://example.com/agenda"));
}

#[test]
fn text_without_ampersands_is_left_alone_by_entity_decoding() {
    assert_eq!(decode_html_entities("plain < text > here"), "plain < text > here");
    assert_eq!(decode_html_entities("a &lt;b&gt; &#65;&#x42; &nbsp;c"), "a <b> AB  c");
    assert_eq!(decode_html_entities("&#xD800; &bogus;"), "&#xD800; &bogus;");
}

#[test]
fn ical_escapes_are_unescaped() {
    assert_eq!(unescape_ical_text("a\\nb\\,c\\;d\\\\e"), "a\nb,c;d\\e");
    assert_eq!(unescape_ical_text("line\\Nnext"), "line\nnext");
}

#[test]
fn html_is_recognised_and_stripped() {
    assert!(looks_like_html("<p>x</p>"));
    assert!(!looks_like_html("2 < 3"));
    assert_eq!(strip_html("<p>One</p><p>Two</p>"), "One\nTwo\n");
    assert_eq!(strip_html("a<br/>b"), "a\nb");
}

#[test]
fn tidy_lines_drops_blank_runs_and_edges() {
    assert_eq!(tidy_lines("\n\n  a  \n\n\n b\n\n"), "a\n\nb");
    assert_eq!(tidy_lines("   \n  "), "");
}

#[test]
fn push_newline_never_doubles_breaks() {
    let mut text = String::from("a");
    push_newline(&mut text);
    push_newline(&mut text);
    assert_eq!(text, "a\n");
    let mut empty = String::new();
    push_newline(&mut empty);
    assert_eq!(empty, "");
}

#[test]
fn plain_text_of_plain_notes_keeps_lines() {
    assert_eq!(plain_text("first\\nsecond"), "first\nsecond");
}

#[test]
fn urls_are_found_and_cleaned() {
    assert_eq!(
        urls_in("see https://a.example/x, and http://b.example/y)."),
        vec!["https://a.example/x".to_string(), "http://b.example/y".to_string()]
    );
    assert_eq!(clean_url(" https://a.example/x).").as_deref(), Some("https://a.example/x"));
    assert_eq!(clean_url("<https://a.example/x>"), None);
    assert_eq!(clean_url("ftp://nope"), None);
}

#[test]
fn meeting_hosts_are_recognised() {
    assert!(is_meeting_url("https://meet.google.com/abc"));
    assert!(is_meeting_url("https://us02web.zoom.us/j/1"));
    assert!(is_meeting_url("https://app.slack.com/huddle/T1/C2"));
    assert!(!is_meeting_url("https://example.com/zoom.us"));
    assert!(!is_meeting_url("https://app.slack.com/client/T1"));
}
