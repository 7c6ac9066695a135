use crate::app::{App, EditorField, EventEditor, Mode, View, MAX_DURATION_MINUTES};
use crate::event_details::{meeting_url, meeting_url_spec};
use crate::model::{opt_view, DeleteScope, RecurrenceScope};
use crate::reducer::{reduce, reduced, Action, Command};
use vstd::prelude::*;
use vstd::view::View as _;

verus! {

/// A key of the keyboard, as the interface tells keys apart.
#[derive(Clone, Copy, Debug, PartialEq, Eq, Structural)]
pub enum Key {
    Char(char),
    Enter,
    Esc,
    Tab,
    BackTab,
    Backspace,
    Left,
    Right,
    Up,
    Down,
    PageUp,
    PageDown,
    Other,
}

/// The modifier keys held with a key: Control, Shift, and whether any other was held.
#[derive(Clone, Copy, Debug, PartialEq, Eq, Structural)]
pub struct Modifiers {
    pub control: bool,
    pub shift: bool,
    pub other: bool,
}

impl Modifiers {
    /// Plain typing: no modifier, or Shift alone.
    pub open spec fn typing(self) -> bool {
        !self.control && !self.other
    }
}

/// What is left to do after a key, outside the state.
#[derive(Debug)]
pub enum KeyEffect {
    /// Nothing.
    Done,
    /// Run the command with the backend.
    Run(Command),
    /// Load again after an error: from the start when no calendar was loaded, else a forced
    /// refresh.
    Reload(bool),
    /// Open the link.
    OpenMeeting(String),
    /// Save the editor with the scope.
    Save(RecurrenceScope),
    /// Delete the selected event with the scope.
    Delete(DeleteScope),
    /// Run the search for the query.
    UpdateSearch,
    /// Go to the highlighted search result.
    AcceptSearch,
    /// Save the configuration with the new hidden calendars.
    SaveVisibility,
}

/// The action a key asks for in the normal mode: Control with `j`/`k` scrolls the hours; the
/// other keys navigate, switch views and open overlays.
pub open spec fn normal_action(view: View, key: Key, mods: Modifiers) -> Option<Action> {
    if mods.control {
        match key {
            Key::Char(c) => if c == 'j' {
                Some(Action::ScrollHours(1i16))
            } else if c == 'k' {
                Some(Action::ScrollHours(-1i16))
            } else {
                None
            },
            _ => None,
        }
    } else {
        match key {
            Key::Char(c) => if c == 'q' {
                Some(Action::Quit)
            } else if c == '1' || c == 'a' {
                Some(Action::SetView(View::Agenda))
            } else if c == '2' || c == 'w' {
                Some(Action::SetView(View::Week))
            } else if c == '3' || c == 'm' {
                Some(Action::SetView(View::Month))
            } else if c == 't' {
                Some(Action::Today)
            } else if c == 'H' {
                Some(Action::MoveDays(-7i64))
            } else if c == 'L' {
                Some(Action::MoveDays(7i64))
            } else if c == 'h' {
                Some(Action::MoveDays(-1i64))
            } else if c == 'l' {
                Some(Action::MoveDays(1i64))
            } else if c == 'j' {
                Some(down_action(view))
            } else if c == 'k' {
                Some(up_action(view))
            } else if c == 'n' {
                Some(Action::NewEvent)
            } else if c == 'e' {
                Some(Action::EditSelected)
            } else if c == 'd' {
                Some(Action::DeleteSelected)
            } else if c == 'c' {
                Some(Action::OpenCalendars)
            } else if c == '/' {
                Some(Action::OpenSearch)
            } else if c == '?' {
                Some(Action::OpenHelp)
            } else if c == 'r' {
                Some(Action::Refresh)
            } else {
                None
            },
            Key::PageUp => Some(Action::MoveMonth(-1i32)),
            Key::PageDown => Some(Action::MoveMonth(1i32)),
            Key::Left => Some(Action::MoveDays(-1i64)),
            Key::Right => Some(Action::MoveDays(1i64)),
            Key::Down => Some(down_action(view)),
            Key::Up => Some(up_action(view)),
            Key::Tab => Some(Action::CycleEvent(1i32)),
            Key::BackTab => Some(Action::CycleEvent(-1i32)),
            Key::Enter => Some(Action::OpenSelected),
            Key::Esc => Some(Action::ClearSelection),
            _ => None,
        }
    }
}

/// Down: half an hour later in the week view, a week later in the month view, the next
/// event in the agenda.
pub open spec fn down_action(view: View) -> Action {
    match view {
        View::Week => Action::MoveTime(30i16),
        View::Month => Action::MoveDays(7i64),
        View::Agenda => Action::CycleEvent(1i32),
    }
}

/// Up: the opposite of `down_action`.
pub open spec fn up_action(view: View) -> Action {
    match view {
        View::Week => Action::MoveTime(-30i16),
        View::Month => Action::MoveDays(-7i64),
        View::Agenda => Action::CycleEvent(-1i32),
    }
}

/// The day keys of the normal mode, in every view and with any modifiers but Control: `h`
/// and `l` (and the arrows Left and Right) move the cursor one day back and forth, and their
/// capitals `H` and `L` move it by a week, seven times as far, in the same directions; `H`
/// undoes `L`.
pub proof fn law_day_and_week_keys(view: View, mods: Modifiers)
    requires
        !mods.control,
    ensures
        normal_action(view, Key::Char('h'), mods) == Some(Action::MoveDays(-1i64)),
        normal_action(view, Key::Char('l'), mods) == Some(Action::MoveDays(1i64)),
        normal_action(view, Key::Left, mods) == normal_action(view, Key::Char('h'), mods),
        normal_action(view, Key::Right, mods) == normal_action(view, Key::Char('l'), mods),
        normal_action(view, Key::Char('H'), mods) matches Some(Action::MoveDays(back))
            && normal_action(view, Key::Char('h'), mods) matches Some(Action::MoveDays(one))
            && back == 7 * one,
        normal_action(view, Key::Char('L'), mods) matches Some(Action::MoveDays(forth))
            && normal_action(view, Key::Char('l'), mods) matches Some(Action::MoveDays(one))
            && forth == 7 * one,
        normal_action(view, Key::Char('H'), mods) matches Some(Action::MoveDays(back))
            && normal_action(view, Key::Char('L'), mods) matches Some(Action::MoveDays(forth))
            && back + forth == 0 && forth > 0,
{
}

/// `j` and `k` (and Down and Up) act in opposite directions in every view: time, week rows
/// or the selected event.
pub proof fn law_up_down_keys(view: View, mods: Modifiers)
    requires
        !mods.control,
    ensures
        normal_action(view, Key::Char('j'), mods) == normal_action(view, Key::Down, mods),
        normal_action(view, Key::Char('k'), mods) == normal_action(view, Key::Up, mods),
        match (normal_action(view, Key::Down, mods), normal_action(view, Key::Up, mods)) {
            (Some(Action::MoveTime(a)), Some(Action::MoveTime(b))) => a + b == 0 && a > 0,
            (Some(Action::MoveDays(a)), Some(Action::MoveDays(b))) => a + b == 0 && a == 7,
            (Some(Action::CycleEvent(a)), Some(Action::CycleEvent(b))) => a + b == 0 && a == 1,
            _ => false,
        },
{
}

/// The view keys `1`/`a`, `2`/`w` and `3`/`m` switch to the agenda, the week and the month in
/// every view; Page Up and Page Down move a month back and forth; Tab and Shift-Tab cycle the
/// selection forth and back; `q` quits; Control with `j` or `k` scrolls the hours by one in
/// opposite directions.
pub proof fn law_view_month_and_cycle_keys(view: View, mods: Modifiers)
    requires
        !mods.control,
    ensures
        normal_action(view, Key::Char('1'), mods) == Some(Action::SetView(View::Agenda)),
        normal_action(view, Key::Char('a'), mods) == Some(Action::SetView(View::Agenda)),
        normal_action(view, Key::Char('2'), mods) == Some(Action::SetView(View::Week)),
        normal_action(view, Key::Char('w'), mods) == Some(Action::SetView(View::Week)),
        normal_action(view, Key::Char('3'), mods) == Some(Action::SetView(View::Month)),
        normal_action(view, Key::Char('m'), mods) == Some(Action::SetView(View::Month)),
        normal_action(view, Key::Char('q'), mods) == Some(Action::Quit),
        normal_action(view, Key::PageUp, mods) matches Some(Action::MoveMonth(back))
            && normal_action(view, Key::PageDown, mods) matches Some(Action::MoveMonth(forth))
            && back + forth == 0 && forth == 1,
        normal_action(view, Key::BackTab, mods) matches Some(Action::CycleEvent(back))
            && normal_action(view, Key::Tab, mods) matches Some(Action::CycleEvent(forth))
            && back + forth == 0 && forth == 1,
        normal_action(view, Key::Char('j'), Modifiers { control: true, ..mods }) matches Some(
            Action::ScrollHours(down),
        ) && normal_action(view, Key::Char('k'), Modifiers { control: true, ..mods }) matches Some(
            Action::ScrollHours(up),
        ) && down + up == 0 && down == 1,
{
}

/// The action of a key in the normal mode (see `normal_action`).
pub fn action_for_key(view: View, key: Key, mods: Modifiers) -> (r: Option<Action>)
    ensures
        r == normal_action(view, key, mods),
{
    let down = match view {
        View::Week => Action::MoveTime(30),
        View::Month => Action::MoveDays(7),
        View::Agenda => Action::CycleEvent(1),
    };
    let up = match view {
        View::Week => Action::MoveTime(-30),
        View::Month => Action::MoveDays(-7),
        View::Agenda => Action::CycleEvent(-1),
    };
    if mods.control {
        return match key {
            Key::Char('j') => Some(Action::ScrollHours(1)),
            Key::Char('k') => Some(Action::ScrollHours(-1)),
            _ => None,
        };
    }
    match key {
        Key::Char('q') => Some(Action::Quit),
        Key::Char('1') | Key::Char('a') => Some(Action::SetView(View::Agenda)),
        Key::Char('2') | Key::Char('w') => Some(Action::SetView(View::Week)),
        Key::Char('3') | Key::Char('m') => Some(Action::SetView(View::Month)),
        Key::Char('t') => Some(Action::Today),
        Key::Char('H') => Some(Action::MoveDays(-7)),
        Key::Char('L') => Some(Action::MoveDays(7)),
        Key::PageUp => Some(Action::MoveMonth(-1)),
        Key::PageDown => Some(Action::MoveMonth(1)),
        Key::Char('h') | Key::Left => Some(Action::MoveDays(-1)),
        Key::Char('l') | Key::Right => Some(Action::MoveDays(1)),
        Key::Char('j') | Key::Down => Some(down),
        Key::Char('k') | Key::Up => Some(up),
        Key::Tab => Some(Action::CycleEvent(1)),
        Key::BackTab => Some(Action::CycleEvent(-1)),
        Key::Enter => Some(Action::OpenSelected),
        Key::Char('n') => Some(Action::NewEvent),
        Key::Char('e') => Some(Action::EditSelected),
        Key::Char('d') => Some(Action::DeleteSelected),
        Key::Char('c') => Some(Action::OpenCalendars),
        Key::Char('/') => Some(Action::OpenSearch),
        Key::Char('?') => Some(Action::OpenHelp),
        Key::Char('r') => Some(Action::Refresh),
        Key::Esc => Some(Action::ClearSelection),
        _ => None,
    }
}

impl App {
    /// The meeting link of the selected event, if it is loaded and has one.
    pub open spec fn selected_meeting(&self) -> Option<Seq<char>> {
        if self.selected_index() >= 0 {
            meeting_url_spec(self.ev()[self.selected_index()])
        } else {
            None
        }
    }

    /// The meeting link of the selected event (see `selected_meeting`).
    pub fn selected_meeting_url(&self) -> (r: Option<String>)
        ensures
            opt_view(r) == self.selected_meeting(),
    {
        match self.selected() {
            Some(event) => meeting_url(event),
            None => None,
        }
    }
}

/// The effect of asking to open the selected event's meeting link.
pub open spec fn meeting_effect(app: App, r: KeyEffect) -> bool {
    match app.selected_meeting() {
        Some(url) => r matches KeyEffect::OpenMeeting(u) && u@ == url,
        None => r is Done,
    }
}

/// What a key does in the normal mode: `o` asks to open the meeting link, other keys run
/// their action (see `normal_action` and `reduce`).
pub open spec fn normal_key_handled(before: App, after: App, key: Key, mods: Modifiers, r: KeyEffect) -> bool {
    if !mods.control && key == Key::Char('o') {
        after == before && meeting_effect(before, r)
    } else {
        match normal_action(before.view, key, mods) {
            None => after == before && r is Done,
            Some(a) => r matches KeyEffect::Run(c) && reduced(before, after, a, c),
        }
    }
}

/// What a key does in the event details: Esc or Enter closes them, `o` asks to open the
/// meeting link, `e` edits and `d` asks to delete.
pub open spec fn detail_key_handled(before: App, after: App, key: Key, r: KeyEffect) -> bool {
    if key == Key::Esc || key == Key::Enter {
        after == (App { mode: Mode::Normal, ..before }) && r is Done
    } else if key == Key::Char('o') {
        after == before && meeting_effect(before, r)
    } else if key == Key::Char('e') {
        App::edit_started(before, after) && r is Done
    } else if key == Key::Char('d') {
        App::delete_confirmation_started(before, after) && r is Done
    } else {
        after == before && r is Done
    }
}

/// The editor's form after `f`, leaving the rest of the state as it is.
pub open spec fn with_editor(app: App, after: App, f: spec_fn(EventEditor, EventEditor) -> bool) -> bool {
    &&& after == (App { editor: after.editor, ..app })
    &&& match app.editor {
        Some(ed) => after.editor matches Some(ne) && f(ed, ne),
        None => after.editor is None,
    }
}

/// What a key does in the editor: Control-S saves (asking for the scope first for a repeating
/// event), Esc discards the form, Tab and Back-Tab move between fields, Backspace deletes,
/// Left and Right change the calendar or the all-day flag, Space also flips the flag, and
/// plain typing goes into the focused field.
pub open spec fn editor_key_handled(before: App, after: App, key: Key, mods: Modifiers, r: KeyEffect) -> bool {
    let field = match before.editor {
        Some(ed) => Some(ed.field),
        None => None,
    };
    if mods.control && key == Key::Char('s') {
        if before.editing_recurring() {
            after == (App { mode: Mode::ConfirmUpdate, ..before }) && r is Done
        } else {
            after == before && r == KeyEffect::Save(RecurrenceScope::ThisEvent)
        }
    } else {
        &&& r is Done
        &&& if key == Key::Esc {
            after == (App { editor: None, mode: Mode::Normal, ..before })
        } else if key == Key::Tab {
            with_editor(before, after, |ed: EventEditor, ne: EventEditor| ne == (EventEditor { field: ne.field, ..ed }) && ne.field.index() == (ed.field.index() + 1) % 8)
        } else if key == Key::BackTab {
            with_editor(before, after, |ed: EventEditor, ne: EventEditor| ne == (EventEditor { field: ne.field, ..ed }) && ne.field.index() == (ed.field.index() + 7) % 8)
        } else if key == Key::Backspace {
            with_editor(before, after, |ed: EventEditor, ne: EventEditor| EventEditor::backspaced(&ed, &ne))
        } else if (key == Key::Left || key == Key::Right) && field == Some(EditorField::Calendar) {
            App::editor_calendar_cycled(before, after, if key == Key::Left { -1i32 } else { 1i32 })
        } else if ((key == Key::Left || key == Key::Right) || key == Key::Char(' ')) && field == Some(EditorField::AllDay) {
            with_editor(before, after, |ed: EventEditor, ne: EventEditor| ne == (EventEditor { all_day: !ed.all_day, ..ed }))
        } else if key is Char && mods.typing() {
            with_editor(before, after, |ed: EventEditor, ne: EventEditor| EventEditor::inserted(&ed, &ne, key->Char_0))
        } else {
            after == before
        }
    }
}

/// What a key does in the calendar picker: Esc cancels, Up/`k` and Down/`j` move the
/// highlight within the list, Space toggles the highlighted calendar and Enter stores the
/// hidden calendars, to be saved.
pub open spec fn picker_key_handled(before: App, after: App, key: Key, r: KeyEffect) -> bool {
    if key == Key::Esc {
        App::picker_cancelled(before, after) && r is Done
    } else if key == Key::Up || key == Key::Char('k') {
        after == (App {
            calendar_picker_index: if before.calendar_picker_index > 0 {
                (before.calendar_picker_index - 1) as usize
            } else {
                0
            },
            ..before
        }) && r is Done
    } else if key == Key::Down || key == Key::Char('j') {
        let last = if before.calendars@.len() > 0 {
            before.calendars@.len() - 1
        } else {
            0
        };
        after == (App {
            calendar_picker_index: if before.calendar_picker_index + 1 < last {
                (before.calendar_picker_index + 1) as usize
            } else {
                last as usize
            },
            ..before
        }) && r is Done
    } else if key == Key::Char(' ') {
        App::calendar_toggled(before, after) && r is Done
    } else if key == Key::Enter {
        App::visibility_applied(before, after) && r is SaveVisibility
    } else {
        after == before && r is Done
    }
}

/// What a key does in the search overlay: Esc closes it, Enter goes to the highlighted
/// result, Up and Down move the highlight, Backspace and plain typing edit the query, which is
/// then searched again.
pub open spec fn search_key_handled(before: App, after: App, key: Key, mods: Modifiers, r: KeyEffect) -> bool {
    let n = before.search.results@.len();
    if key == Key::Esc {
        after == (App { mode: Mode::Normal, ..before }) && r is Done
    } else if key == Key::Enter {
        after == before && r is AcceptSearch
    } else if key == Key::Up {
        after == (App {
            search: crate::app::SearchState {
                selected: if before.search.selected > 0 {
                    (before.search.selected - 1) as usize
                } else {
                    0
                },
                ..before.search
            },
            ..before
        }) && r is Done
    } else if key == Key::Down {
        let last = if n > 0 {
            n - 1
        } else {
            0
        };
        after == (App {
            search: crate::app::SearchState {
                selected: if before.search.selected + 1 < last {
                    (before.search.selected + 1) as usize
                } else {
                    last as usize
                },
                ..before.search
            },
            ..before
        }) && r is Done
    } else if key == Key::Backspace {
        after == (App {
            search: crate::app::SearchState { query: after.search.query, ..before.search },
            ..before
        }) && after.search.query@ == (if before.search.query@.len() == 0 {
            before.search.query@
        } else {
            before.search.query@.drop_last()
        }) && r is UpdateSearch
    } else if key is Char && mods.typing() {
        after == (App {
            search: crate::app::SearchState { query: after.search.query, ..before.search },
            ..before
        }) && after.search.query@ == before.search.query@.push(key->Char_0) && r is UpdateSearch
    } else {
        after == before && r is Done
    }
}

/// The selected event is loaded and repeats.
pub open spec fn selected_recurring(app: App) -> bool {
    app.selected_index() >= 0 && app.ev()[app.selected_index()].recurrence is Some
}

/// What a key does while confirming a deletion: Esc or `n` cancels, `y` or `1` deletes this
/// occurrence, and `2` this and the following ones of a repeating event.
pub open spec fn delete_key_handled(before: App, after: App, key: Key, r: KeyEffect) -> bool {
    if key == Key::Esc || key == Key::Char('n') {
        after == (App { mode: before.confirm_return_mode, ..before }) && r is Done
    } else if key == Key::Char('y') || key == Key::Char('1') {
        after == before && r == KeyEffect::Delete(DeleteScope::ThisEvent)
    } else if key == Key::Char('2') && selected_recurring(before) {
        after == before && r == KeyEffect::Delete(DeleteScope::ThisAndFuture)
    } else {
        after == before && r is Done
    }
}

/// What a key does while choosing the scope of an update: Esc goes back to the editor, `1` or
/// `y` saves this occurrence, `2` this and the following ones.
pub open spec fn scope_key_handled(before: App, after: App, key: Key, r: KeyEffect) -> bool {
    if key == Key::Esc {
        after == (App { mode: Mode::EventEditor, ..before }) && r is Done
    } else if key == Key::Char('1') || key == Key::Char('y') {
        after == before && r == KeyEffect::Save(RecurrenceScope::ThisEvent)
    } else if key == Key::Char('2') {
        after == before && r == KeyEffect::Save(RecurrenceScope::ThisAndFuture)
    } else {
        after == before && r is Done
    }
}

/// What a key does: Control-C quits from anywhere; while an error shows, Esc dismisses it and
/// `r` dismisses it and loads again; otherwise the status clears and the key goes to the
/// current mode (Esc or `?` leaves the help).
pub open spec fn key_handled(before: App, after: App, key: Key, mods: Modifiers, r: KeyEffect) -> bool {
    if mods.control && key == Key::Char('c') {
        after == (App { should_quit: true, ..before }) && r is Done
    } else if before.error is Some {
        if key == Key::Esc {
            after == (App { error: None, ..before }) && r is Done
        } else if key == Key::Char('r') {
            after == (App { error: None, ..before }) && r == KeyEffect::Reload(
                before.calendars@.len() == 0,
            )
        } else {
            after == before && r is Done
        }
    } else {
        let mid = App { status: None, ..before };
        match before.mode {
            Mode::Normal => normal_key_handled(mid, after, key, mods, r),
            Mode::EventDetail => detail_key_handled(mid, after, key, r),
            Mode::EventEditor => editor_key_handled(mid, after, key, mods, r),
            Mode::CalendarPicker => picker_key_handled(mid, after, key, r),
            Mode::Search => search_key_handled(mid, after, key, mods, r),
            Mode::ConfirmDelete => delete_key_handled(mid, after, key, r),
            Mode::ConfirmUpdate => scope_key_handled(mid, after, key, r),
            Mode::Help => if key == Key::Esc || key == Key::Char('?') {
                after == (App { mode: Mode::Normal, ..mid }) && r is Done
            } else {
                after == mid && r is Done
            },
        }
    }
}

/// The meeting link effect for the selected event.
fn meeting_effect_of(app: &App) -> (r: KeyEffect)
    ensures
        meeting_effect(*app, r),
{
    match app.selected_meeting_url() {
        Some(url) => KeyEffect::OpenMeeting(url),
        None => KeyEffect::Done,
    }
}

/// Handles a key in the normal mode (see `normal_key_handled`).
fn handle_normal(app: &mut App, key: Key, mods: Modifiers) -> (r: KeyEffect)
    requires
        old(app).wf(),
        old(app).config.default_event_duration_minutes <= MAX_DURATION_MINUTES,
    ensures
        final(app).wf(),
        normal_key_handled(*old(app), *final(app), key, mods, r),
{
    if !mods.control && key == Key::Char('o') {
        return meeting_effect_of(app);
    }
    match action_for_key(app.view, key, mods) {
        None => KeyEffect::Done,
        Some(action) => KeyEffect::Run(reduce(app, action)),
    }
}

/// Handles a key in the event details (see `detail_key_handled`).
fn handle_detail(app: &mut App, key: Key) -> (r: KeyEffect)
    requires
        old(app).wf(),
    ensures
        final(app).wf(),
        detail_key_handled(*old(app), *final(app), key, r),
{
    match key {
        Key::Esc | Key::Enter => {
            app.mode = Mode::Normal;
            KeyEffect::Done
        },
        Key::Char('o') => meeting_effect_of(app),
        Key::Char('e') => {
            app.start_edit_event();
            KeyEffect::Done
        },
        Key::Char('d') => {
            app.start_delete_confirmation();
            KeyEffect::Done
        },
        _ => KeyEffect::Done,
    }
}

/// Handles a key in the editor (see `editor_key_handled`).
fn handle_editor(app: &mut App, key: Key, mods: Modifiers) -> (r: KeyEffect)
    requires
        old(app).wf(),
    ensures
        final(app).wf(),
        editor_key_handled(*old(app), *final(app), key, mods, r),
{
    if mods.control && key == Key::Char('s') {
        if app.editor_is_recurring() {
            app.mode = Mode::ConfirmUpdate;
            return KeyEffect::Done;
        }
        return KeyEffect::Save(RecurrenceScope::ThisEvent);
    }
    let field = match &app.editor {
        Some(ed) => Some(ed.field),
        None => None,
    };
    match key {
        Key::Esc => {
            app.editor = None;
            app.mode = Mode::Normal;
        },
        Key::Tab => {
            if let Some(mut ed) = app.editor.take() {
                ed.field = ed.field.next();
                app.editor = Some(ed);
            }
        },
        Key::BackTab => {
            if let Some(mut ed) = app.editor.take() {
                ed.field = ed.field.previous();
                app.editor = Some(ed);
            }
        },
        Key::Backspace => {
            if let Some(mut ed) = app.editor.take() {
                ed.backspace();
                app.editor = Some(ed);
            }
        },
        Key::Left | Key::Right => {
            if field == Some(EditorField::Calendar) {
                app.cycle_editor_calendar(
                    if key == Key::Left {
                        -1
                    } else {
                        1
                    },
                );
            } else if field == Some(EditorField::AllDay) {
                if let Some(mut ed) = app.editor.take() {
                    ed.all_day = !ed.all_day;
                    app.editor = Some(ed);
                }
            }
        },
        Key::Char(c) => {
            if c == ' ' && field == Some(EditorField::AllDay) {
                if let Some(mut ed) = app.editor.take() {
                    ed.all_day = !ed.all_day;
                    app.editor = Some(ed);
                }
            } else if !mods.control && !mods.other {
                if let Some(mut ed) = app.editor.take() {
                    ed.insert(c);
                    app.editor = Some(ed);
                }
            }
        },
        _ => {},
    }
    KeyEffect::Done
}

/// Handles a key in the calendar picker (see `picker_key_handled`).
fn handle_picker(app: &mut App, key: Key) -> (r: KeyEffect)
    requires
        old(app).wf(),
    ensures
        final(app).wf(),
        picker_key_handled(*old(app), *final(app), key, r),
{
    match key {
        Key::Esc => {
            app.cancel_calendar_picker();
            KeyEffect::Done
        },
        Key::Up | Key::Char('k') => {
            if app.calendar_picker_index > 0 {
                app.calendar_picker_index = app.calendar_picker_index - 1;
            }
            KeyEffect::Done
        },
        Key::Down | Key::Char('j') => {
            let last = if app.calendars.len() > 0 {
                app.calendars.len() - 1
            } else {
                0
            };
            app.calendar_picker_index = if app.calendar_picker_index < last {
                app.calendar_picker_index + 1
            } else {
                last
            };
            KeyEffect::Done
        },
        Key::Char(' ') => {
            app.toggle_calendar();
            KeyEffect::Done
        },
        Key::Enter => {
            app.apply_calendar_visibility();
            KeyEffect::SaveVisibility
        },
        _ => KeyEffect::Done,
    }
}

/// Handles a key in the search overlay (see `search_key_handled`).
fn handle_search(app: &mut App, key: Key, mods: Modifiers) -> (r: KeyEffect)
    requires
        old(app).wf(),
    ensures
        final(app).wf(),
        search_key_handled(*old(app), *final(app), key, mods, r),
{
    match key {
        Key::Esc => {
            app.mode = Mode::Normal;
            KeyEffect::Done
        },
        Key::Enter => KeyEffect::AcceptSearch,
        Key::Up => {
            if app.search.selected > 0 {
                app.search.selected = app.search.selected - 1;
            }
            KeyEffect::Done
        },
        Key::Down => {
            let n = app.search.results.len();
            let last = if n > 0 {
                n - 1
            } else {
                0
            };
            app.search.selected = if app.search.selected < last {
                app.search.selected + 1
            } else {
                last
            };
            KeyEffect::Done
        },
        Key::Backspace => {
            app.search.query.pop();
            KeyEffect::UpdateSearch
        },
        Key::Char(c) => {
            if !mods.control && !mods.other {
                app.search.query.push(c);
                KeyEffect::UpdateSearch
            } else {
                KeyEffect::Done
            }
        },
        _ => KeyEffect::Done,
    }
}

/// Handles a key while confirming a deletion (see `delete_key_handled`).
fn handle_delete(app: &mut App, key: Key) -> (r: KeyEffect)
    ensures
        delete_key_handled(*old(app), *final(app), key, r),
{
    let recurring = match app.selected() {
        Some(event) => event.recurrence.is_some(),
        None => false,
    };
    match key {
        Key::Esc | Key::Char('n') => {
            app.cancel_delete_confirmation();
            KeyEffect::Done
        },
        Key::Char('y') | Key::Char('1') => KeyEffect::Delete(DeleteScope::ThisEvent),
        Key::Char('2') => if recurring {
            KeyEffect::Delete(DeleteScope::ThisAndFuture)
        } else {
            KeyEffect::Done
        },
        _ => KeyEffect::Done,
    }
}

/// Handles a key while choosing an update's scope (see `scope_key_handled`).
fn handle_scope(app: &mut App, key: Key) -> (r: KeyEffect)
    ensures
        scope_key_handled(*old(app), *final(app), key, r),
{
    match key {
        Key::Esc => {
            app.mode = Mode::EventEditor;
            KeyEffect::Done
        },
        Key::Char('1') | Key::Char('y') => KeyEffect::Save(RecurrenceScope::ThisEvent),
        Key::Char('2') => KeyEffect::Save(RecurrenceScope::ThisAndFuture),
        _ => KeyEffect::Done,
    }
}

/// Handles a key press (see `key_handled`); what needs the backend or the system is returned.
pub fn handle_key(app: &mut App, key: Key, mods: Modifiers) -> (r: KeyEffect)
    requires
        old(app).wf(),
        old(app).config.default_event_duration_minutes <= MAX_DURATION_MINUTES,
    ensures
        final(app).wf(),
        key_handled(*old(app), *final(app), key, mods, r),
{
    if mods.control && key == Key::Char('c') {
        app.should_quit = true;
        return KeyEffect::Done;
    }
    if app.error.is_some() {
        return match key {
            Key::Esc => {
                app.error = None;
                KeyEffect::Done
            },
            Key::Char('r') => {
                app.error = None;
                KeyEffect::Reload(app.calendars.len() == 0)
            },
            _ => KeyEffect::Done,
        };
    }
    app.status = None;
    match app.mode {
        Mode::Normal => handle_normal(app, key, mods),
        Mode::EventDetail => handle_detail(app, key),
        Mode::EventEditor => handle_editor(app, key, mods),
        Mode::CalendarPicker => handle_picker(app, key),
        Mode::Search => handle_search(app, key, mods),
        Mode::ConfirmDelete => handle_delete(app, key),
        Mode::ConfirmUpdate => handle_scope(app, key),
        Mode::Help => {
            if key == Key::Esc || key == Key::Char('?') {
                app.mode = Mode::Normal;
            }
            KeyEffect::Done
        },
    }
}

} // verus!
