use crate::text::{
    ends_with, ends_with_exec, first_occurrence, first_occurrence_exec, is_whitespace, is_ws,
    last_index_of, last_index_of_exec, occurs_at, occurs_at_exec, contains, contains_exec, is_alphabetic, is_alphabetic_char, is_ascii_ws, lower, lower_vec,
    trim, trim_bounds, byte_len, bytes_within, chars_of, extend, find_char, index_of, lemma_index_of, seq_eq, slice,
    starts_with, starts_with_exec, to_string,
};
use crate::format::{decimal, digit};
use crate::model::{opt_view, Event, EventView};
use vstd::prelude::*;

verus! {

/// `\r\n` and lone `\r` line endings turned into `\n`.
pub open spec fn normalize_newlines(s: Seq<char>) -> Seq<char>
    decreases s.len(),
{
    if s.len() == 0 {
        s
    } else if s[0] == '\r' && s.len() > 1 && s[1] == '\n' {
        seq!['\n'] + normalize_newlines(s.skip(2))
    } else if s[0] == '\r' {
        seq!['\n'] + normalize_newlines(s.drop_first())
    } else {
        seq![s[0]] + normalize_newlines(s.drop_first())
    }
}

/// iCalendar text escapes resolved: `\n`/`\N` become a line break and `\,` `\;` `\\` the
/// escaped character; any other backslash stays.
pub open spec fn unescape_ical(s: Seq<char>) -> Seq<char>
    decreases s.len(),
{
    if s.len() == 0 {
        s
    } else if s[0] != '\\' || s.len() == 1 {
        seq![s[0]] + unescape_ical(s.drop_first())
    } else if s[1] == 'n' || s[1] == 'N' {
        seq!['\n'] + unescape_ical(s.skip(2))
    } else if s[1] == ',' || s[1] == ';' || s[1] == '\\' {
        seq![s[1]] + unescape_ical(s.skip(2))
    } else {
        seq![s[0]] + unescape_ical(s.drop_first())
    }
}

/// Value of a digit in base 10 or 16, or -1 for a character that is no digit.
pub open spec fn digit_value(c: char, radix: int) -> int {
    if '0' <= c && c <= '9' {
        (c as u32 - '0' as u32) as int
    } else if radix == 16 && 'a' <= c && c <= 'f' {
        (c as u32 - 'a' as u32 + 10) as int
    } else if radix == 16 && 'A' <= c && c <= 'F' {
        (c as u32 - 'A' as u32 + 10) as int
    } else {
        -1
    }
}

/// Every character is a digit.
pub open spec fn all_digits(s: Seq<char>, radix: int) -> bool {
    forall|i: int| 0 <= i < s.len() ==> digit_value(#[trigger] s[i], radix) >= 0
}

/// The number that a run of digits denotes.
pub open spec fn digits_value(s: Seq<char>, radix: int) -> int
    decreases s.len(),
{
    if s.len() == 0 {
        0
    } else {
        digits_value(s.drop_last(), radix) * radix + digit_value(s.last(), radix)
    }
}

/// What `u32::from_str_radix` accepts: an optional `+`, then at least one digit, with a value
/// that fits in 32 bits.
pub open spec fn parse_unsigned(s: Seq<char>, radix: int) -> Option<u32> {
    let d = if s.len() > 0 && s[0] == '+' {
        s.drop_first()
    } else {
        s
    };
    if d.len() == 0 || !all_digits(d, radix) || digits_value(d, radix) > u32::MAX {
        None
    } else {
        Some(digits_value(d, radix) as u32)
    }
}

/// The character with code point `v`, if there is one.
pub open spec fn code_point_char(v: u32) -> Option<char> {
    if v < 0xD800 || (0xE000 <= v && v <= 0x10FFFF) {
        Some(v as char)
    } else {
        None
    }
}

/// The number of a numeric character reference body (`#x41`, `#X41` or `#65`).
pub open spec fn numeric_reference(e: Seq<char>) -> Option<u32> {
    let hex = if starts_with(e, "#x"@) || starts_with(e, "#X"@) {
        parse_unsigned(e.skip(2), 16)
    } else {
        None
    };
    if hex is Some {
        hex
    } else if e.len() > 0 && e[0] == '#' {
        parse_unsigned(e.drop_first(), 10)
    } else {
        None
    }
}

/// The character that an HTML entity body (the text between `&` and `;`) stands for.
pub open spec fn entity_char(e: Seq<char>) -> Option<char> {
    if e == "amp"@ {
        Some('&')
    } else if e == "apos"@ {
        Some('\'')
    } else if e == "gt"@ {
        Some('>')
    } else if e == "lt"@ {
        Some('<')
    } else if e == "nbsp"@ {
        Some(' ')
    } else if e == "quot"@ {
        Some('"')
    } else {
        match numeric_reference(e) {
            Some(v) => code_point_char(v),
            None => None,
        }
    }
}

/// HTML entities decoded. An `&` starts an entity when a `;` follows within 12 bytes; a known
/// entity becomes its character, an unknown one stays as written, and an `&` without such a
/// `;` stays as a plain character.
pub open spec fn decode_entities(s: Seq<char>) -> Seq<char>
    decreases s.len(),
{
    if s.len() == 0 {
        s
    } else if s[0] != '&' {
        seq![s[0]] + decode_entities(s.drop_first())
    } else {
        let after = s.drop_first();
        let e = index_of(after, ';');
        if e < 0 || byte_len(after.take(e)) > 12 {
            seq!['&'] + decode_entities(after)
        } else {
            let entity = after.take(e);
            proof {
                lemma_index_of(after, ';');
            }
            let tail = after.skip(e + 1);
            match entity_char(entity) {
                Some(c) => seq![c] + decode_entities(tail),
                None => seq!['&'] + entity + seq![';'] + decode_entities(tail),
            }
        }
    }
}

/// A text of ASCII characters takes one byte per character.
proof fn lemma_ascii_byte_len(s: Seq<char>)
    requires
        forall|i: int| 0 <= i < s.len() ==> (#[trigger] s[i] as u32) < 0x80,
    ensures
        byte_len(s) == s.len(),
    decreases s.len(),
{
    if s.len() > 0 {
        lemma_ascii_byte_len(s.drop_first());
    }
}

/// An entity written `&name;` in front of `t` decodes to its character (or stays as written
/// when it names none) followed by `t` decoded.
proof fn lemma_decode_entity(name: Seq<char>, t: Seq<char>)
    requires
        forall|i: int| 0 <= i < name.len() ==> name[i] != ';',
        byte_len(name) <= 12,
    ensures
        decode_entities(seq!['&'] + name + seq![';'] + t) == match entity_char(name) {
            Some(c) => seq![c] + decode_entities(t),
            None => seq!['&'] + name + seq![';'] + decode_entities(t),
        },
{
    let s = seq!['&'] + name + seq![';'] + t;
    let after = s.drop_first();
    assert(after =~= name + seq![';'] + t);
    lemma_index_of(after, ';');
    assert(after[name.len() as int] == ';');
    let e = index_of(after, ';');
    assert(e == name.len()) by {
        if e == -1 {
            assert(after[name.len() as int] != ';');
        } else if e < name.len() {
            assert(after[e] == name[e]);
        }
    }
    assert(after.take(e) =~= name);
    assert(after.skip(e + 1) =~= t);
}

/// The named entities decode to their characters whatever follows them: `&quot;` to a double
/// quote, `&apos;` to an apostrophe, `&amp;` to an ampersand, `&lt;` and `&gt;` to the angle
/// brackets and `&nbsp;` to a space.
pub proof fn law_named_entities(t: Seq<char>)
    ensures
        decode_entities("&quot;"@ + t) == seq!['"'] + decode_entities(t),
        decode_entities("&apos;"@ + t) == seq!['\''] + decode_entities(t),
        decode_entities("&amp;"@ + t) == seq!['&'] + decode_entities(t),
        decode_entities("&lt;"@ + t) == seq!['<'] + decode_entities(t),
        decode_entities("&gt;"@ + t) == seq!['>'] + decode_entities(t),
        decode_entities("&nbsp;"@ + t) == seq![' '] + decode_entities(t),
{
    reveal_strlit("amp");
    reveal_strlit("apos");
    reveal_strlit("gt");
    reveal_strlit("lt");
    reveal_strlit("nbsp");
    reveal_strlit("quot");
    reveal_strlit("&quot;");
    reveal_strlit("&apos;");
    reveal_strlit("&amp;");
    reveal_strlit("&lt;");
    reveal_strlit("&gt;");
    reveal_strlit("&nbsp;");
    reveal_strlit("#x");
    reveal_strlit("#X");
    let names = seq!["quot"@, "apos"@, "amp"@, "lt"@, "gt"@, "nbsp"@];
    let texts = seq!["&quot;"@, "&apos;"@, "&amp;"@, "&lt;"@, "&gt;"@, "&nbsp;"@];
    assert forall|k: int| 0 <= k < 6 implies decode_entities(#[trigger] texts[k] + t) == match entity_char(names[k]) {
        Some(c) => seq![c] + decode_entities(t),
        None => seq!['&'] + names[k] + seq![';'] + decode_entities(t),
    } by {
        let name = names[k];
        assert(texts[k] + t =~= seq!['&'] + name + seq![';'] + t);
        lemma_ascii_byte_len(name);
        lemma_decode_entity(name, t);
    }
    assert(decode_entities(texts[0] + t) == seq!['"'] + decode_entities(t));
    assert(decode_entities(texts[1] + t) == seq!['\''] + decode_entities(t));
    assert(decode_entities(texts[2] + t) == seq!['&'] + decode_entities(t));
    assert(decode_entities(texts[3] + t) == seq!['<'] + decode_entities(t));
    assert(decode_entities(texts[4] + t) == seq!['>'] + decode_entities(t));
    assert(decode_entities(texts[5] + t) == seq![' '] + decode_entities(t));
}

/// An entity name made of lower-case letters that is none of the known ones stays as written,
/// whatever follows it.
pub proof fn law_unknown_entity_kept(name: Seq<char>, t: Seq<char>)
    requires
        1 <= name.len() <= 12,
        forall|i: int| 0 <= i < name.len() ==> 'a' <= #[trigger] name[i] <= 'z',
        name != "amp"@ && name != "apos"@ && name != "gt"@ && name != "lt"@ && name != "nbsp"@
            && name != "quot"@,
    ensures
        decode_entities(seq!['&'] + name + seq![';'] + t) == seq!['&'] + name + seq![';']
            + decode_entities(t),
{
    reveal_strlit("#x");
    reveal_strlit("#X");
    assert forall|i: int| 0 <= i < name.len() implies (#[trigger] name[i] as u32) < 0x80 by {
        assert('a' <= name[i] <= 'z');
    }
    lemma_ascii_byte_len(name);
    assert forall|i: int| 0 <= i < name.len() implies name[i] != ';' by {
        assert('a' <= name[i] <= 'z');
    }
    assert(!starts_with(name, "#x"@)) by {
        if starts_with(name, "#x"@) {
            assert(name.subrange(0, 2)[0] == name[0]);
        }
    }
    assert(!starts_with(name, "#X"@)) by {
        if starts_with(name, "#X"@) {
            assert(name.subrange(0, 2)[0] == name[0]);
        }
    }
    assert(entity_char(name) is None);
    lemma_decode_entity(name, t);
}

/// Ten to the power `k`.
pub open spec fn ten_pow(k: nat) -> nat
    decreases k,
{
    if k == 0 {
        1
    } else {
        10 * ten_pow((k - 1) as nat)
    }
}

/// The decimal text of `n` is a run of digits that reads back as `n`, with no more digits than
/// `k` when `n` is below ten to the `k`.
proof fn lemma_decimal_reads(n: nat, k: nat)
    requires
        k >= 1,
        n < ten_pow(k),
    ensures
        1 <= decimal(n).len() <= k,
        forall|i: int| 0 <= i < decimal(n).len() ==> '0' <= #[trigger] decimal(n)[i] <= '9',
        digits_value(decimal(n), 10) == n,
    decreases n,
{
    if n >= 10 {
        assert(ten_pow(k) == 10 * ten_pow((k - 1) as nat));
        if k == 1 {
            assert(ten_pow(0) == 1);
        }
        lemma_decimal_reads(n / 10, (k - 1) as nat);
        let p = decimal(n / 10);
        assert(decimal(n) == p + seq![digit(n % 10)]);
        assert(decimal(n).drop_last() =~= p);
        assert forall|i: int| 0 <= i < decimal(n).len() implies '0' <= #[trigger] decimal(n)[i] <= '9' by {
            if i < p.len() {
                assert(decimal(n)[i] == p[i]);
            }
        }
        assert(digit_value(digit(n % 10), 10) == n % 10);
        assert(decimal(n).last() == digit(n % 10));
        assert(digits_value(decimal(n), 10) == digits_value(p, 10) * 10 + digit_value(digit(n % 10), 10));
    } else {
        assert(digit_value(digit(n), 10) == n);
        assert(decimal(n).drop_last() =~= Seq::<char>::empty());
        assert(digits_value(decimal(n), 10) == digits_value(Seq::<char>::empty(), 10) * 10 + digit_value(digit(n), 10));
    }
}

/// A decimal character reference `&#N;` decodes to the character with code point `N` (for
/// every code point that is a character), whatever follows it.
pub proof fn law_numeric_reference(v: u32, t: Seq<char>)
    requires
        v < 0xD800 || (0xE000 <= v && v <= 0x10FFFF),
    ensures
        decode_entities(seq!['&', '#'] + decimal(v as nat) + seq![';'] + t) == seq![v as char]
            + decode_entities(t),
{
    reveal_strlit("amp");
    reveal_strlit("apos");
    reveal_strlit("gt");
    reveal_strlit("lt");
    reveal_strlit("nbsp");
    reveal_strlit("quot");
    reveal_strlit("#x");
    reveal_strlit("#X");
    assert(ten_pow(10) == 10000000000) by {
        reveal_with_fuel(ten_pow, 11);
    }
    lemma_decimal_reads(v as nat, 10);
    let d = decimal(v as nat);
    let name = seq!['#'] + d;
    assert(name.drop_first() =~= d);
    assert(seq!['&', '#'] + d + seq![';'] + t =~= seq!['&'] + name + seq![';'] + t);
    assert forall|i: int| 0 <= i < name.len() implies (#[trigger] name[i] as u32) < 0x80 by {
        if i > 0 {
            assert(name[i] == d[i - 1]);
        }
    }
    lemma_ascii_byte_len(name);
    assert forall|i: int| 0 <= i < name.len() implies name[i] != ';' by {
        if i > 0 {
            assert(name[i] == d[i - 1]);
        }
    }
    assert(!starts_with(name, "#x"@)) by {
        if starts_with(name, "#x"@) {
            assert(name.subrange(0, 2)[1] == name[1]);
            assert(name[1] == d[0]);
        }
    }
    assert(!starts_with(name, "#X"@)) by {
        if starts_with(name, "#X"@) {
            assert(name.subrange(0, 2)[1] == name[1]);
            assert(name[1] == d[0]);
        }
    }
    assert(all_digits(d, 10));
    assert(parse_unsigned(d, 10) == Some(v));
    assert(numeric_reference(name) == Some(v));
    assert(name != "amp"@ && name != "apos"@ && name != "gt"@ && name != "lt"@ && name != "nbsp"@
        && name != "quot"@) by {
        assert(name[1] == d[0]);
    }
    lemma_decode_entity(name, t);
}

/// Digits of `s` keep their value as a prefix grows: the value of a prefix never exceeds the
/// value of a longer run of digits.
proof fn lemma_digits_prefix(s: Seq<char>, radix: int, k: int)
    requires
        radix == 10 || radix == 16,
        all_digits(s, radix),
        0 <= k <= s.len(),
    ensures
        digits_value(s.take(k), radix) <= digits_value(s, radix),
        digits_value(s, radix) >= 0,
    decreases s.len(),
{
    if s.len() > 0 {
        let t = s.drop_last();
        assert(all_digits(t, radix)) by {
            assert forall|i: int| 0 <= i < t.len() implies digit_value(#[trigger] t[i], radix)
                >= 0 by {
                assert(t[i] == s[i]);
            }
        }
        assert(digit_value(s[s.len() - 1], radix) >= 0);
        if k < s.len() {
            lemma_digits_prefix(t, radix, k);
            assert(t.take(k) =~= s.take(k));
        } else {
            lemma_digits_prefix(t, radix, 0);
            assert(s.take(k) =~= s);
        }
        let a = digits_value(t, radix);
        let d = digit_value(s.last(), radix);
        assert(a * radix + d >= a) by (nonlinear_arith)
            requires
                a >= 0,
                d >= 0,
                radix >= 1,
        ;
    }
}

/// `u32::from_str_radix` on `v[lo..]`.
pub(crate) fn parse_unsigned_exec(v: &Vec<char>, lo: usize, radix: u32) -> (r: Option<u32>)
    requires
        lo <= v.len(),
        radix == 10 || radix == 16,
    ensures
        r == parse_unsigned(v@.skip(lo as int), radix as int),
{
    let ghost s = v@.skip(lo as int);
    let start = if lo < v.len() && v[lo] == '+' {
        lo + 1
    } else {
        lo
    };
    let ghost d = v@.skip(start as int);
    assert(d == (if s.len() > 0 && s[0] == '+' {
        s.drop_first()
    } else {
        s
    })) by {
        if s.len() > 0 {
            assert(s.drop_first() =~= v@.skip(lo + 1));
        }
    }
    if start == v.len() {
        return None;
    }
    let mut value: u64 = 0;
    let mut overflow = false;
    let mut i = start;
    while i < v.len()
        invariant
            start <= i <= v.len(),
            d == v@.skip(start as int),
            s == v@.skip(lo as int),
            d == (if s.len() > 0 && s[0] == '+' {
                s.drop_first()
            } else {
                s
            }),
            radix == 10 || radix == 16,
            all_digits(d.take(i - start), radix as int),
            !overflow ==> value == digits_value(d.take(i - start), radix as int) && value
                <= u32::MAX,
            overflow ==> digits_value(d.take(i - start), radix as int) > u32::MAX,
        decreases v.len() - i,
    {
        let c = v[i];
        let dv: u32 = if '0' <= c && c <= '9' {
            c as u32 - '0' as u32
        } else if radix == 16 && 'a' <= c && c <= 'f' {
            c as u32 - 'a' as u32 + 10
        } else if radix == 16 && 'A' <= c && c <= 'F' {
            c as u32 - 'A' as u32 + 10
        } else {
            assert(d[i - start] == c);
            assert(digit_value(d[i - start], radix as int) < 0);
            assert(!all_digits(d, radix as int));
            return None;
        };
        let ghost pre = d.take(i - start);
        let ghost post = d.take(i - start + 1);
        proof {
            assert(d[i - start] == c);
            assert(post.drop_last() =~= pre);
            assert(post.last() == c);
            assert(all_digits(post, radix as int)) by {
                assert forall|k: int| 0 <= k < post.len() implies digit_value(
                    #[trigger] post[k],
                    radix as int,
                ) >= 0 by {
                    if k < pre.len() {
                        assert(post[k] == pre[k]);
                    }
                }
            }
            if overflow {
                let a = digits_value(pre, radix as int);
                let dd = digit_value(c, radix as int);
                assert(a * radix + dd > u32::MAX) by (nonlinear_arith)
                    requires
                        a > u32::MAX,
                        dd >= 0,
                        radix >= 1,
                ;
            }
        }
        if !overflow {
            assert(value * radix as u64 + dv as u64 <= 0xFFFF_FFFF * 16 + 15) by (nonlinear_arith)
                requires
                    value <= 0xFFFF_FFFF,
                    radix <= 16,
                    dv <= 15,
            ;
            value = value * radix as u64 + dv as u64;
            if value > 0xFFFF_FFFF {
                overflow = true;
            }
        }
        i = i + 1;
    }
    assert(d.take(i - start) =~= d);
    if overflow {
        None
    } else {
        Some(value as u32)
    }
}

/// `char::from_u32`.
fn code_point_char_exec(v: u32) -> (r: Option<char>)
    ensures
        r == code_point_char(v),
{
    core::char::from_u32(v)
}

/// The number of a numeric character reference body.
fn numeric_reference_exec(e: &Vec<char>) -> (r: Option<u32>)
    ensures
        r == numeric_reference(e@),
{
    let hx = chars_of("#x");
    let hxu = chars_of("#X");
    let hex = if starts_with_exec(e, &hx) || starts_with_exec(e, &hxu) {
        proof {
            reveal_strlit("#x");
            reveal_strlit("#X");
        }
        parse_unsigned_exec(e, 2, 16)
    } else {
        None
    };
    if hex.is_some() {
        hex
    } else if e.len() > 0 && e[0] == '#' {
        assert(e@.drop_first() =~= e@.skip(1));
        parse_unsigned_exec(e, 1, 10)
    } else {
        None
    }
}

/// The character that an HTML entity body stands for.
fn entity_char_exec(e: &Vec<char>) -> (r: Option<char>)
    ensures
        r == entity_char(e@),
{
    if seq_eq(e, &chars_of("amp")) {
        Some('&')
    } else if seq_eq(e, &chars_of("apos")) {
        Some('\'')
    } else if seq_eq(e, &chars_of("gt")) {
        Some('>')
    } else if seq_eq(e, &chars_of("lt")) {
        Some('<')
    } else if seq_eq(e, &chars_of("nbsp")) {
        Some(' ')
    } else if seq_eq(e, &chars_of("quot")) {
        Some('"')
    } else {
        match numeric_reference_exec(e) {
            Some(v) => code_point_char_exec(v),
            None => None,
        }
    }
}

/// HTML entities of `v` decoded.
pub(crate) fn decode_entities_chars(v: &Vec<char>) -> (r: Vec<char>)
    ensures
        r@ == decode_entities(v@),
{
    let mut out: Vec<char> = Vec::new();
    let mut i: usize = 0;
    assert(v@.skip(0) =~= v@);
    while i < v.len()
        invariant
            i <= v.len(),
            decode_entities(v@) == out@ + decode_entities(v@.skip(i as int)),
        decreases v.len() - i,
    {
        let ghost s = v@.skip(i as int);
        assert(s[0] == v@[i as int]);
        assert(s.drop_first() =~= v@.skip(i + 1));
        if v[i] != '&' {
            out.push(v[i]);
            i = i + 1;
            assert(decode_entities(v@) == out@ + decode_entities(v@.skip(i as int)));
        } else {
            let ghost after = s.drop_first();
            assert(after =~= v@.subrange(i + 1, v.len() as int));
            match find_char(v, i + 1, v.len(), ';') {
                None => {
                    out.push('&');
                    i = i + 1;
                    assert(decode_entities(v@) == out@ + decode_entities(v@.skip(i as int)));
                },
                Some(j) => {
                    assert(after.take(j - i - 1) =~= v@.subrange(i + 1, j as int));
                    if !bytes_within(v, i + 1, j, 12) {
                        out.push('&');
                        i = i + 1;
                        assert(decode_entities(v@) == out@ + decode_entities(
                            v@.skip(i as int),
                        ));
                    } else {
                        let entity = slice(v, i + 1, j);
                        assert(after.skip(j - i) =~= v@.skip(j + 1));
                        match entity_char_exec(&entity) {
                            Some(c) => {
                                out.push(c);
                            },
                            None => {
                                out.push('&');
                                extend(&mut out, v, i + 1, j);
                                out.push(';');
                            },
                        }
                        i = j + 1;
                        assert(decode_entities(v@) == out@ + decode_entities(
                            v@.skip(i as int),
                        ));
                    }
                },
            }
        }
    }
    assert(out@ + decode_entities(v@.skip(i as int)) =~= out@);
    out
}

/// Decodes HTML entities: `&amp;`, `&apos;`, `&gt;`, `&lt;`, `&nbsp;`, `&quot;` and numeric
/// references; unknown entities and stray `&` stay as written.
pub fn decode_html_entities(value: &str) -> (r: String)
    ensures
        r@ == decode_entities(value@),
{
    let v = chars_of(value);
    to_string(&decode_entities_chars(&v))
}


/// Line endings of `v` normalised to `\n`.
pub(crate) fn normalize_newlines_chars(v: &Vec<char>) -> (r: Vec<char>)
    ensures
        r@ == normalize_newlines(v@),
{
    let mut out: Vec<char> = Vec::new();
    let mut i: usize = 0;
    assert(v@.skip(0) =~= v@);
    while i < v.len()
        invariant
            i <= v.len(),
            normalize_newlines(v@) == out@ + normalize_newlines(v@.skip(i as int)),
        decreases v.len() - i,
    {
        let ghost s = v@.skip(i as int);
        assert(s[0] == v@[i as int]);
        assert(s.drop_first() =~= v@.skip(i + 1));
        if v[i] == '\r' && i + 1 < v.len() && v[i + 1] == '\n' {
            assert(s[1] == v@[i + 1]);
            assert(s.skip(2) =~= v@.skip(i + 2));
            out.push('\n');
            i = i + 2;
        } else if v[i] == '\r' {
            if i + 1 < v.len() {
                assert(s[1] == v@[i + 1]);
            }
            out.push('\n');
            i = i + 1;
        } else {
            out.push(v[i]);
            i = i + 1;
        }
        assert(normalize_newlines(v@) == out@ + normalize_newlines(v@.skip(i as int)));
    }
    assert(out@ + normalize_newlines(v@.skip(i as int)) =~= out@);
    out
}

/// iCalendar escapes of `v` resolved.
pub(crate) fn unescape_ical_chars(v: &Vec<char>) -> (r: Vec<char>)
    ensures
        r@ == unescape_ical(v@),
{
    let mut out: Vec<char> = Vec::new();
    let mut i: usize = 0;
    assert(v@.skip(0) =~= v@);
    while i < v.len()
        invariant
            i <= v.len(),
            unescape_ical(v@) == out@ + unescape_ical(v@.skip(i as int)),
        decreases v.len() - i,
    {
        let ghost s = v@.skip(i as int);
        assert(s[0] == v@[i as int]);
        assert(s.drop_first() =~= v@.skip(i + 1));
        if v[i] != '\\' || i + 1 == v.len() {
            out.push(v[i]);
            i = i + 1;
        } else {
            let next = v[i + 1];
            assert(s[1] == next);
            assert(s.skip(2) =~= v@.skip(i + 2));
            if next == 'n' || next == 'N' {
                out.push('\n');
                i = i + 2;
            } else if next == ',' || next == ';' || next == '\\' {
                out.push(next);
                i = i + 2;
            } else {
                out.push('\\');
                i = i + 1;
            }
        }
        assert(unescape_ical(v@) == out@ + unescape_ical(v@.skip(i as int)));
    }
    assert(out@ + unescape_ical(v@.skip(i as int)) =~= out@);
    out
}

/// Resolves the escapes of iCalendar text: `\n` and `\N` become line breaks, `\,`, `\;` and
/// `\\` become the escaped character.
pub fn unescape_ical_text(value: &str) -> (r: String)
    ensures
        r@ == unescape_ical(value@),
{
    let v = chars_of(value);
    to_string(&unescape_ical_chars(&v))
}


/// Tags whose presence marks a text as HTML.
pub open spec fn html_markers() -> Seq<Seq<char>> {
    seq![
        "<a "@,
        "<body"@,
        "<br"@,
        "<div"@,
        "<html"@,
        "<li"@,
        "<ol"@,
        "<p"@,
        "<span"@,
        "<table"@,
        "<ul"@,
    ]
}

/// The text contains, ignoring ASCII case, the start of a common HTML tag.
pub open spec fn looks_like_html_spec(s: Seq<char>) -> bool {
    exists|k: int| 0 <= k < html_markers().len() && contains(lower(s), #[trigger] html_markers()[k])
}

/// `\n` appended unless the text is empty or already ends with one.
pub open spec fn push_newline_spec(s: Seq<char>) -> Seq<char> {
    if s.len() > 0 && s.last() != '\n' {
        s.push('\n')
    } else {
        s
    }
}

/// Leading `/` characters removed.
pub open spec fn trim_slashes(s: Seq<char>) -> Seq<char>
    decreases s.len(),
{
    if s.len() > 0 && s[0] == '/' {
        trim_slashes(s.drop_first())
    } else {
        s
    }
}

/// The text up to the first ASCII whitespace or `/`.
pub open spec fn name_prefix(s: Seq<char>) -> Seq<char>
    decreases s.len(),
{
    if s.len() == 0 || is_ascii_ws(s[0]) || s[0] == '/' {
        Seq::empty()
    } else {
        seq![s[0]] + name_prefix(s.drop_first())
    }
}

/// Tags that end a line of text.
pub open spec fn block_tags() -> Seq<Seq<char>> {
    seq!["br"@, "div"@, "h1"@, "h2"@, "h3"@, "h4"@, "h5"@, "h6"@, "li"@, "p"@, "tr"@]
}

/// A tag name that starts with `!`, `?` or a letter.
pub open spec fn is_tag_name(name: Seq<char>) -> bool {
    name.len() > 0 && (name[0] == '!' || name[0] == '?' || is_alphabetic_char(name[0]))
}

/// Markup of `rest` removed and appended to `acc`: a block tag ends the line, an opening list
/// item starts with a bullet, and a `<` that does not open a tag stays.
pub open spec fn strip_tags(acc: Seq<char>, rest: Seq<char>) -> Seq<char>
    decreases rest.len(),
{
    let i = index_of(rest, '<');
    if i < 0 {
        acc + rest
    } else {
        proof {
            lemma_index_of(rest, '<');
        }
        let acc1 = acc + rest.take(i);
        let after = rest.skip(i + 1);
        let e = index_of(after, '>');
        if e < 0 {
            acc1 + rest.skip(i)
        } else {
            proof {
                lemma_index_of(after, '>');
            }
            let raw = lower(trim(after.take(e)));
            let name = name_prefix(trim_slashes(raw));
            if !is_tag_name(name) {
                strip_tags(acc1.push('<'), after)
            } else {
                let acc2 = if block_tags().contains(name) {
                    push_newline_spec(acc1)
                } else {
                    acc1
                };
                let acc3 = if name == "li"@ && !(raw.len() > 0 && raw[0] == '/') {
                    acc2 + "• "@
                } else {
                    acc2
                };
                strip_tags(acc3, after.skip(e + 1))
            }
        }
    }
}

/// HTML reduced to text: tags removed as `strip_tags` says, then entities decoded.
pub open spec fn strip_html_spec(s: Seq<char>) -> Seq<char> {
    decode_entities(strip_tags(Seq::empty(), s))
}

/// Whether `v` looks like HTML.
pub(crate) fn looks_like_html_chars(v: &Vec<char>) -> (r: bool)
    ensures
        r == looks_like_html_spec(v@),
{
    let lowered = lower_vec(v);
    let markers = vec![
        chars_of("<a "),
        chars_of("<body"),
        chars_of("<br"),
        chars_of("<div"),
        chars_of("<html"),
        chars_of("<li"),
        chars_of("<ol"),
        chars_of("<p"),
        chars_of("<span"),
        chars_of("<table"),
        chars_of("<ul"),
    ];
    assert(markers@.map_values(|m: Vec<char>| m@) =~= html_markers());
    let mut k: usize = 0;
    while k < markers.len()
        invariant
            k <= markers.len(),
            markers.len() == html_markers().len(),
            forall|j: int| 0 <= j < markers.len() ==> (#[trigger] markers@[j])@ == html_markers()[j],
            lowered@ == lower(v@),
            forall|j: int| 0 <= j < k ==> !contains(lower(v@), #[trigger] html_markers()[j]),
        decreases markers.len() - k,
    {
        if contains_exec(&lowered, &markers[k]) {
            assert(contains(lower(v@), html_markers()[k as int]));
            return true;
        }
        k = k + 1;
    }
    false
}

/// Whether a text looks like HTML: it holds, in any ASCII case, the start of a common tag.
pub fn looks_like_html(value: &str) -> (r: bool)
    ensures
        r == looks_like_html_spec(value@),
{
    looks_like_html_chars(&chars_of(value))
}

/// Ends the current line of the characters (see `push_newline`).
fn push_newline_chars(value: &mut Vec<char>)
    ensures
        final(value)@ == push_newline_spec(old(value)@),
{
    if value.len() > 0 && value[value.len() - 1] != '\n' {
        value.push('\n');
    }
}

/// Ends the current line: appends `\n` unless the text is empty or already ends with one.
pub fn push_newline(value: &mut String)
    ensures
        final(value)@ == push_newline_spec(old(value)@),
{
    let n = value.as_str().unicode_len();
    if n > 0 && value.as_str().get_char(n - 1) != '\n' {
        value.push('\n');
    }
}


/// `trim_slashes` of `s` drops exactly the leading run of `/` that ends at `k`.
proof fn lemma_trim_slashes(s: Seq<char>, k: int)
    requires
        0 <= k <= s.len(),
        forall|j: int| 0 <= j < k ==> s[j] == '/',
        k < s.len() ==> s[k] != '/',
    ensures
        trim_slashes(s) == s.skip(k),
    decreases k,
{
    if k > 0 {
        let t = s.drop_first();
        assert forall|j: int| 0 <= j < k - 1 implies t[j] == '/' by {
            assert(t[j] == s[j + 1]);
        }
        lemma_trim_slashes(t, k - 1);
        assert(t.skip(k - 1) =~= s.skip(k));
    } else {
        assert(s.skip(0) =~= s);
    }
}

/// `name_prefix` of `s` is what precedes the first ASCII whitespace or `/`, at `m`.
proof fn lemma_name_prefix(s: Seq<char>, m: int)
    requires
        0 <= m <= s.len(),
        forall|j: int| 0 <= j < m ==> !is_ascii_ws(s[j]) && s[j] != '/',
        m < s.len() ==> is_ascii_ws(s[m]) || s[m] == '/',
    ensures
        name_prefix(s) == s.take(m),
    decreases m,
{
    if m > 0 {
        let t = s.drop_first();
        assert forall|j: int| 0 <= j < m - 1 implies !is_ascii_ws(t[j]) && t[j] != '/' by {
            assert(t[j] == s[j + 1]);
        }
        lemma_name_prefix(t, m - 1);
        assert(seq![s[0]] + t.take(m - 1) =~= s.take(m));
    } else {
        assert(s.take(0) =~= Seq::<char>::empty());
    }
}

/// The tag name in a lower-cased tag body: leading `/` dropped, then up to the first ASCII
/// whitespace or `/`.
fn tag_name(raw: &Vec<char>) -> (r: Vec<char>)
    ensures
        r@ == name_prefix(trim_slashes(raw@)),
{
    let mut k: usize = 0;
    while k < raw.len() && raw[k] == '/'
        invariant
            k <= raw.len(),
            forall|j: int| 0 <= j < k ==> raw@[j] == '/',
        decreases raw.len() - k,
    {
        k = k + 1;
    }
    proof {
        lemma_trim_slashes(raw@, k as int);
    }
    let mut m = k;
    while m < raw.len() && !(raw[m] == ' ' || raw[m] == '\t' || raw[m] == '\n' || raw[m] == '\x0C'
        || raw[m] == '\r' || raw[m] == '/')
        invariant
            k <= m <= raw.len(),
            forall|j: int| k <= j < m ==> !is_ascii_ws(raw@[j]) && raw@[j] != '/',
        decreases raw.len() - m,
    {
        m = m + 1;
    }
    proof {
        let t = raw@.skip(k as int);
        assert forall|j: int| 0 <= j < m - k implies !is_ascii_ws(t[j]) && t[j] != '/' by {
            assert(t[j] == raw@[j + k]);
        }
        if m < raw.len() {
            assert(t[m - k] == raw@[m as int]);
        }
        lemma_name_prefix(t, m - k);
        assert(t.take(m - k) =~= raw@.subrange(k as int, m as int));
    }
    slice(raw, k, m)
}

/// Whether the name is one of the tags that end a line.
fn is_block_tag(name: &Vec<char>) -> (r: bool)
    ensures
        r == block_tags().contains(name@),
{
    let tags = vec![
        chars_of("br"),
        chars_of("div"),
        chars_of("h1"),
        chars_of("h2"),
        chars_of("h3"),
        chars_of("h4"),
        chars_of("h5"),
        chars_of("h6"),
        chars_of("li"),
        chars_of("p"),
        chars_of("tr"),
    ];
    let mut k: usize = 0;
    while k < tags.len()
        invariant
            k <= tags.len(),
            tags.len() == block_tags().len(),
            forall|j: int| 0 <= j < tags.len() ==> (#[trigger] tags@[j])@ == block_tags()[j],
            forall|j: int| 0 <= j < k ==> block_tags()[j] != name@,
        decreases tags.len() - k,
    {
        if seq_eq(name, &tags[k]) {
            assert(block_tags()[k as int] == name@);
            return true;
        }
        k = k + 1;
    }
    false
}

/// Markup of `v` removed as `strip_tags` says.
#[verifier::spinoff_prover]
#[verifier::rlimit(50)]
fn strip_tags_chars(v: &Vec<char>) -> (r: Vec<char>)
    ensures
        r@ == strip_tags(Seq::empty(), v@),
{
    let mut out: Vec<char> = Vec::new();
    let mut pos: usize = 0;
    assert(v@.skip(0) =~= v@);
    loop
        invariant
            pos <= v.len(),
            strip_tags(Seq::empty(), v@) == strip_tags(out@, v@.skip(pos as int)),
        decreases v.len() - pos,
    {
        let ghost rest = v@.skip(pos as int);
        assert(rest =~= v@.subrange(pos as int, v.len() as int));
        match find_char(v, pos, v.len(), '<') {
            None => {
                extend(&mut out, v, pos, v.len());
                return out;
            },
            Some(i) => {
                let ghost after = rest.skip(i - pos + 1);
                assert(after =~= v@.subrange(i + 1, v.len() as int));
                assert(rest.take(i - pos) =~= v@.subrange(pos as int, i as int));
                match find_char(v, i + 1, v.len(), '>') {
                    None => {
                        assert(rest.skip(i - pos) =~= v@.subrange(i as int, v.len() as int));
                        extend(&mut out, v, pos, v.len());
                        assert(out@ =~= strip_tags(Seq::empty(), v@));
                        return out;
                    },
                    Some(j) => {
                        extend(&mut out, v, pos, i);
                        let (a, b) = trim_bounds(v, i + 1, j);
                        assert(after.take(j - i - 1) =~= v@.subrange(i + 1, j as int));
                        let trimmed = slice(v, a, b);
                        let raw = lower_vec(&trimmed);
                        let name = tag_name(&raw);
                        let opens = name.len() > 0 && (name[0] == '!' || name[0] == '?'
                            || is_alphabetic(name[0]));
                        if !opens {
                            out.push('<');
                            pos = i + 1;
                            assert(after =~= v@.skip(pos as int));
                        } else {
                            if is_block_tag(&name) {
                                push_newline_chars(&mut out);
                            }
                            let li = chars_of("li");
                            if seq_eq(&name, &li) && !(raw.len() > 0 && raw[0] == '/') {
                                proof {
                                    reveal_strlit("• ");
                                }
                                let ghost before = out@;
                                out.push('•');
                                out.push(' ');
                                assert(out@ =~= before + "• "@);
                            }
                            pos = j + 1;
                            assert(after.skip(j - i) =~= v@.skip(pos as int));
                        }
                    },
                }
            },
        }
    }
}

/// HTML of `v` reduced to text.
pub(crate) fn strip_html_chars(v: &Vec<char>) -> (r: Vec<char>)
    ensures
        r@ == strip_html_spec(v@),
{
    let stripped = strip_tags_chars(v);
    decode_entities_chars(&stripped)
}

/// Reduces HTML to text: tags are removed, block tags end lines, list items get a bullet, and
/// entities are decoded.
pub fn strip_html(value: &str) -> (r: String)
    ensures
        r@ == strip_html_spec(value@),
{
    to_string(&strip_html_chars(&chars_of(value)))
}


/// The lines of a text as `str::lines` yields them: split at `\n`, with no empty last line
/// after a final `\n`.
pub open spec fn lines(s: Seq<char>) -> Seq<Seq<char>>
    decreases s.len(),
{
    if s.len() == 0 {
        Seq::empty()
    } else {
        let i = index_of(s, '\n');
        if i < 0 {
            seq![s]
        } else {
            proof {
                lemma_index_of(s, '\n');
            }
            seq![s.take(i)] + lines(s.skip(i + 1))
        }
    }
}

/// Trimmed lines kept, except empty lines at the start and empty lines that follow an empty
/// line.
pub open spec fn keep_lines(ls: Seq<Seq<char>>, previous_empty: bool) -> Seq<Seq<char>>
    decreases ls.len(),
{
    if ls.len() == 0 {
        Seq::empty()
    } else {
        let l = trim(ls[0]);
        let rest = keep_lines(ls.drop_first(), l.len() == 0);
        if l.len() != 0 || !previous_empty {
            seq![l] + rest
        } else {
            rest
        }
    }
}

/// Empty lines at the end removed.
pub open spec fn drop_trailing_empty(ls: Seq<Seq<char>>) -> Seq<Seq<char>>
    decreases ls.len(),
{
    if ls.len() > 0 && ls.last().len() == 0 {
        drop_trailing_empty(ls.drop_last())
    } else {
        ls
    }
}

/// Lines joined with `\n`.
pub open spec fn join_lines(ls: Seq<Seq<char>>) -> Seq<char>
    decreases ls.len(),
{
    if ls.len() == 0 {
        Seq::empty()
    } else if ls.len() == 1 {
        ls[0]
    } else {
        join_lines(ls.drop_last()) + seq!['\n'] + ls.last()
    }
}

/// Lines trimmed, runs of empty lines collapsed to one, and empty lines at both ends removed.
pub open spec fn tidy(s: Seq<char>) -> Seq<char> {
    join_lines(drop_trailing_empty(keep_lines(lines(s), true)))
}

/// Tidies the lines of `v`.
pub(crate) fn tidy_lines_chars(v: &Vec<char>) -> (r: Vec<char>)
    ensures
        r@ == tidy(v@),
{
    let mut kept: Vec<Vec<char>> = Vec::new();
    let mut previous_empty = true;
    let mut pos: usize = 0;
    assert(v@.skip(0) =~= v@);
    while pos < v.len()
        invariant
            pos <= v.len(),
            keep_lines(lines(v@), true) == kept@.map_values(|l: Vec<char>| l@) + keep_lines(
                lines(v@.skip(pos as int)),
                previous_empty,
            ),
        decreases v.len() - pos,
    {
        let ghost s = v@.skip(pos as int);
        assert(s =~= v@.subrange(pos as int, v.len() as int));
        let end = match find_char(v, pos, v.len(), '\n') {
            Some(j) => j,
            None => v.len(),
        };
        let ghost line = v@.subrange(pos as int, end as int);
        let (a, b) = trim_bounds(v, pos, end);
        let is_empty = a == b;
        let ghost ls = lines(s);
        proof {
            if end < v.len() {
                assert(s.take(end - pos) =~= line);
                assert(s.skip(end - pos + 1) =~= v@.skip(end + 1));
                assert(ls == seq![line] + lines(v@.skip(end + 1)));
                assert(ls.drop_first() =~= lines(v@.skip(end + 1)));
            } else {
                assert(line =~= s);
                assert(ls == seq![line]);
                assert(ls.drop_first() =~= Seq::<Seq<char>>::empty());
                assert(v@.skip(v.len() as int) =~= Seq::<char>::empty());
            }
            assert(ls[0] == line);
        }
        let ghost old_kept = kept@.map_values(|l: Vec<char>| l@);
        if !is_empty || !previous_empty {
            let piece = slice(v, a, b);
            kept.push(piece);
            assert(kept@.map_values(|l: Vec<char>| l@) =~= old_kept.push(trim(line)));
        }
        previous_empty = is_empty;
        pos = if end < v.len() {
            end + 1
        } else {
            v.len()
        };
        assert(keep_lines(lines(v@), true) == kept@.map_values(|l: Vec<char>| l@) + keep_lines(
            lines(v@.skip(pos as int)),
            previous_empty,
        ));
    }
    assert(v@.skip(pos as int) =~= Seq::<char>::empty());
    assert(kept@.map_values(|l: Vec<char>| l@) + keep_lines(lines(v@.skip(pos as int)), previous_empty)
        =~= kept@.map_values(|l: Vec<char>| l@));
    while kept.len() > 0 && kept[kept.len() - 1].len() == 0
        invariant
            drop_trailing_empty(keep_lines(lines(v@), true)) == drop_trailing_empty(
                kept@.map_values(|l: Vec<char>| l@),
            ),
        decreases kept.len(),
    {
        let ghost before = kept@.map_values(|l: Vec<char>| l@);
        kept.pop();
        assert(kept@.map_values(|l: Vec<char>| l@) =~= before.drop_last());
    }
    let ghost ls = kept@.map_values(|l: Vec<char>| l@);
    assert(drop_trailing_empty(ls) == ls);
    let mut out: Vec<char> = Vec::new();
    let mut k: usize = 0;
    while k < kept.len()
        invariant
            k <= kept.len(),
            ls == kept@.map_values(|l: Vec<char>| l@),
            out@ == join_lines(ls.take(k as int)),
        decreases kept.len() - k,
    {
        if k > 0 {
            out.push('\n');
        }
        let n = kept[k].len();
        extend(&mut out, &kept[k], 0, n);
        proof {
            let t = ls.take(k + 1);
            assert(t.drop_last() =~= ls.take(k as int));
            assert(t.last() == kept@[k as int]@);
            assert(kept@[k as int]@.subrange(0, n as int) =~= kept@[k as int]@);
            if k == 0 {
                assert(ls.take(0) =~= Seq::<Seq<char>>::empty());
            }
        }
        k = k + 1;
    }
    assert(ls.take(kept.len() as int) =~= ls);
    out
}

/// Trims every line, collapses runs of empty lines, and removes empty lines at both ends.
pub fn tidy_lines(value: &str) -> (r: String)
    ensures
        r@ == tidy(value@),
{
    to_string(&tidy_lines_chars(&chars_of(value)))
}

/// Event notes as readable text: line endings normalised, iCalendar escapes resolved, HTML
/// stripped (or, for plain text, entities decoded), and lines tidied.
pub open spec fn plain_text_spec(s: Seq<char>) -> Seq<char> {
    let unescaped = unescape_ical(normalize_newlines(s));
    let text = if looks_like_html_spec(unescaped) {
        strip_html_spec(unescaped)
    } else {
        decode_entities(unescaped)
    };
    tidy(text)
}

/// Readable text of event notes.
pub(crate) fn plain_text_chars(v: &Vec<char>) -> (r: Vec<char>)
    ensures
        r@ == plain_text_spec(v@),
{
    let normalized = normalize_newlines_chars(v);
    let unescaped = unescape_ical_chars(&normalized);
    let text = if looks_like_html_chars(&unescaped) {
        strip_html_chars(&unescaped)
    } else {
        decode_entities_chars(&unescaped)
    };
    tidy_lines_chars(&text)
}

/// Turns event notes, which may be HTML or iCalendar text, into readable plain text.
pub fn plain_text(value: &str) -> (r: String)
    ensures
        r@ == plain_text_spec(value@),
{
    to_string(&plain_text_chars(&chars_of(value)))
}


/// URL schemes that the details view recognises.
pub open spec fn url_schemes() -> Seq<Seq<char>> {
    seq!["https://"@, "http://"@, "zoommtg://"@, "msteams://"@]
}

/// The recognised URL schemes, as texts.
fn url_schemes_exec() -> (r: Vec<Vec<char>>)
    ensures
        r@.map_values(|x: Vec<char>| x@) == url_schemes(),
        r.len() == 4,
{
    let r = vec![chars_of("https://"), chars_of("http://"), chars_of("zoommtg://"), chars_of("msteams://")];
    assert(r@.map_values(|x: Vec<char>| x@) =~= url_schemes());
    r
}

/// Punctuation that ends a sentence rather than a URL.
pub open spec fn is_url_trailer(c: char) -> bool {
    c == '.' || c == ',' || c == ';' || c == ':' || c == '!' || c == '?' || c == ')' || c == ']'
        || c == '}' || c == '"' || c == '\''
}

/// Whether the character is punctuation that ends a sentence rather than a URL.
fn is_url_trailer_exec(c: char) -> (r: bool)
    ensures
        r == is_url_trailer(c),
{
    c == '.' || c == ',' || c == ';' || c == ':' || c == '!' || c == '?' || c == ')' || c == ']'
        || c == '}' || c == '"' || c == '\''
}

/// Trailing punctuation removed.
pub open spec fn trim_trailers(s: Seq<char>) -> Seq<char>
    decreases s.len(),
{
    if s.len() > 0 && is_url_trailer(s.last()) {
        trim_trailers(s.drop_last())
    } else {
        s
    }
}

/// The text begins, in any ASCII case, with a recognised scheme.
pub open spec fn has_scheme(s: Seq<char>) -> bool {
    exists|k: int| 0 <= k < url_schemes().len() && starts_with(lower(s), #[trigger] url_schemes()[k])
}

/// A URL candidate trimmed, decoded and stripped of trailing punctuation, kept when it begins
/// with a recognised scheme.
pub open spec fn clean_url_spec(s: Seq<char>) -> Option<Seq<char>> {
    let cleaned = trim_trailers(decode_entities(trim(s)));
    if has_scheme(cleaned) {
        Some(cleaned)
    } else {
        None
    }
}

/// Whether some recognised scheme starts at `i` of `lowered`.
fn scheme_at(lowered: &Vec<char>, schemes: &Vec<Vec<char>>, i: usize) -> (r: bool)
    requires
        schemes@.map_values(|x: Vec<char>| x@) == url_schemes(),
        schemes.len() == 4,
    ensures
        r == exists|k: int| 0 <= k < 4 && occurs_at(lowered@, #[trigger] url_schemes()[k], i as int),
{
    let mut k: usize = 0;
    while k < 4
        invariant
            k <= 4,
            schemes.len() == 4,
            schemes@.map_values(|x: Vec<char>| x@) == url_schemes(),
            forall|j: int| 0 <= j < k ==> !occurs_at(lowered@, #[trigger] url_schemes()[j], i as int),
        decreases 4 - k,
    {
        assert(schemes@[k as int]@ == url_schemes()[k as int]);
        if occurs_at_exec(lowered, &schemes[k], i) {
            return true;
        }
        k = k + 1;
    }
    false
}

/// Cleans a URL candidate; `None` when it does not begin with a recognised scheme.
pub(crate) fn clean_url_chars(v: &Vec<char>) -> (r: Option<Vec<char>>)
    ensures
        r is Some <==> clean_url_spec(v@) is Some,
        r matches Some(u) ==> clean_url_spec(v@) == Some(u@),
{
    let (a, b) = trim_bounds(v, 0, v.len());
    assert(v@.subrange(0, v.len() as int) =~= v@);
    let trimmed = slice(v, a, b);
    let decoded = decode_entities_chars(&trimmed);
    let mut end = decoded.len();
    assert(decoded@.take(end as int) =~= decoded@);
    while end > 0 && is_url_trailer_exec(decoded[end - 1])
        invariant
            end <= decoded.len(),
            trim_trailers(decoded@) == trim_trailers(decoded@.take(end as int)),
        decreases end,
    {
        assert(decoded@.take(end as int).drop_last() =~= decoded@.take(end - 1));
        end = end - 1;
    }
    let cleaned = slice(&decoded, 0, end);
    assert(cleaned@ == trim_trailers(decoded@)) by {
        assert(cleaned@ =~= decoded@.take(end as int));
    }
    assert(trimmed@ == trim(v@));
    let lowered = lower_vec(&cleaned);
    let schemes = url_schemes_exec();
    let mut k: usize = 0;
    while k < 4
        invariant
            k <= 4,
            schemes.len() == 4,
            schemes@.map_values(|x: Vec<char>| x@) == url_schemes(),
            lowered@ == lower(cleaned@),
            cleaned@ == trim_trailers(decode_entities(trim(v@))),
            forall|j: int| 0 <= j < k ==> !starts_with(lower(cleaned@), #[trigger] url_schemes()[j]),
        decreases 4 - k,
    {
        assert(schemes@[k as int]@ == url_schemes()[k as int]);
        if starts_with_exec(&lowered, &schemes[k]) {
            assert(starts_with(lower(cleaned@), url_schemes()[k as int]));
            assert(has_scheme(cleaned@));
            return Some(cleaned);
        }
        k = k + 1;
    }
    None
}

/// Cleans a URL candidate: surrounding whitespace and trailing punctuation removed, entities
/// decoded; `None` unless it begins with `https://`, `http://`, `zoommtg://` or `msteams://`.
pub fn clean_url(value: &str) -> (r: Option<String>)
    ensures
        r is Some <==> clean_url_spec(value@) is Some,
        r matches Some(u) ==> clean_url_spec(value@) == Some(u@),
{
    match clean_url_chars(&chars_of(value)) {
        Some(u) => Some(to_string(&u)),
        None => None,
    }
}

/// Characters that end a URL inside running text.
pub open spec fn is_url_end(c: char) -> bool {
    is_ws(c) || c == '"' || c == '\'' || c == '<' || c == '>'
}

/// A recognised scheme starts at `i` of `lower(s)`.
pub open spec fn scheme_starts_at(s: Seq<char>, i: int) -> bool {
    exists|k: int| 0 <= k < 4 && occurs_at(lower(s), #[trigger] url_schemes()[k], i)
}

/// First position at or after `from` where a recognised scheme starts, or -1.
pub open spec fn next_scheme(s: Seq<char>, from: int) -> int
    decreases s.len() - from,
{
    if from < 0 || from >= s.len() {
        -1
    } else if scheme_starts_at(s, from) {
        from
    } else {
        next_scheme(s, from + 1)
    }
}

/// First position at or after `from` of a character that ends a URL, or the length.
pub open spec fn url_end(s: Seq<char>, from: int) -> int
    decreases s.len() - from,
{
    if from < 0 || from >= s.len() {
        s.len() as int
    } else if is_url_end(s[from]) {
        from
    } else {
        url_end(s, from + 1)
    }
}

/// The next link scheme is found at or after `from` and inside the text, or not at all.
pub proof fn lemma_next_scheme_bounds(s: Seq<char>, from: int)
    ensures
        next_scheme(s, from) == -1 || (from <= next_scheme(s, from) < s.len()),
    decreases s.len() - from,
{
    if 0 <= from < s.len() && !scheme_starts_at(s, from) {
        lemma_next_scheme_bounds(s, from + 1);
    }
}

/// A link that starts at `from` ends between `from` and the end of the text.
pub proof fn lemma_url_end_bounds(s: Seq<char>, from: int)
    requires
        0 <= from,
    ensures
        from <= url_end(s, from) <= s.len() || (from > s.len() && url_end(s, from) == s.len()),
    decreases s.len() - from,
{
    if from < s.len() && !is_url_end(s[from]) {
        lemma_url_end_bounds(s, from + 1);
    }
}

/// The cleaned URLs found in `s` from position `offset` on, in order.
pub open spec fn urls_from(s: Seq<char>, offset: int) -> Seq<Seq<char>>
    decreases s.len() - offset,
{
    if offset < 0 || offset >= s.len() {
        Seq::empty()
    } else {
        let start = next_scheme(s, offset);
        if start < 0 {
            Seq::empty()
        } else {
            proof {
                lemma_next_scheme_bounds(s, offset);
                lemma_url_end_bounds(s, start);
            }
            let end = url_end(s, start);
            let next = if end > start + 1 {
                end
            } else {
                start + 1
            };
            let rest = urls_from(s, next);
            match clean_url_spec(s.subrange(start, end)) {
                Some(u) => seq![u] + rest,
                None => rest,
            }
        }
    }
}

/// The URLs that a text mentions.
pub open spec fn urls_in_spec(s: Seq<char>) -> Seq<Seq<char>> {
    urls_from(s, 0)
}

/// The cleaned URLs mentioned in `v`, in order.
pub(crate) fn urls_in_chars(v: &Vec<char>) -> (r: Vec<Vec<char>>)
    ensures
        r@.map_values(|u: Vec<char>| u@) == urls_in_spec(v@),
{
    let lowered = lower_vec(v);
    let schemes = url_schemes_exec();
    let mut result: Vec<Vec<char>> = Vec::new();
    let mut offset: usize = 0;
    while offset < v.len()
        invariant
            offset <= v.len(),
            lowered@ == lower(v@),
            lowered.len() == v.len(),
            schemes.len() == 4,
            schemes@.map_values(|x: Vec<char>| x@) == url_schemes(),
            urls_in_spec(v@) == result@.map_values(|u: Vec<char>| u@) + urls_from(
                v@,
                offset as int,
            ),
        decreases v.len() - offset,
    {
        let mut start = offset;
        while start < v.len() && !scheme_at(&lowered, &schemes, start)
            invariant
                offset <= start <= v.len(),
                lowered@ == lower(v@),
                schemes.len() == 4,
                schemes@.map_values(|x: Vec<char>| x@) == url_schemes(),
                next_scheme(v@, offset as int) == next_scheme(v@, start as int),
            decreases v.len() - start,
        {
            start = start + 1;
        }
        if start == v.len() {
            assert(urls_from(v@, offset as int) =~= Seq::<Seq<char>>::empty());
            assert(result@.map_values(|u: Vec<char>| u@) + Seq::<Seq<char>>::empty()
                =~= result@.map_values(|u: Vec<char>| u@));
            return result;
        }
        assert(next_scheme(v@, start as int) == start);
        let mut end = start;
        while end < v.len() && !(is_whitespace(v[end]) || v[end] == '"' || v[end] == '\''
            || v[end] == '<' || v[end] == '>')
            invariant
                start <= end <= v.len(),
                url_end(v@, start as int) == url_end(v@, end as int),
            decreases v.len() - end,
        {
            end = end + 1;
        }
        let candidate = slice(v, start, end);
        let ghost old_result = result@.map_values(|u: Vec<char>| u@);
        match clean_url_chars(&candidate) {
            Some(u) => {
                result.push(u);
                assert(result@.map_values(|u: Vec<char>| u@) =~= old_result.push(
                    clean_url_spec(v@.subrange(start as int, end as int))->0,
                ));
            },
            None => {},
        }
        offset = if end > start + 1 {
            end
        } else {
            start + 1
        };
        assert(urls_in_spec(v@) == result@.map_values(|u: Vec<char>| u@) + urls_from(
            v@,
            offset as int,
        ));
    }
    assert(urls_from(v@, offset as int) =~= Seq::<Seq<char>>::empty());
    assert(result@.map_values(|u: Vec<char>| u@) + Seq::<Seq<char>>::empty()
        =~= result@.map_values(|u: Vec<char>| u@));
    result
}

/// Finds the URLs that a text mentions: each starts with a recognised scheme and runs to the
/// next whitespace, quote or angle bracket, then is cleaned as `clean_url` does.
pub fn urls_in(value: &str) -> (r: Vec<String>)
    ensures
        r@.map_values(|u: String| u@) == urls_in_spec(value@),
{
    let found = urls_in_chars(&chars_of(value));
    let mut r: Vec<String> = Vec::new();
    let mut k: usize = 0;
    while k < found.len()
        invariant
            k <= found.len(),
            r@.map_values(|u: String| u@) == found@.map_values(|u: Vec<char>| u@).take(k as int),
        decreases found.len() - k,
    {
        let ghost prev = r@.map_values(|u: String| u@);
        let ghost fv = found@.map_values(|u: Vec<char>| u@);
        r.push(to_string(&found[k]));
        assert(fv[k as int] == found@[k as int]@);
        assert(r@.map_values(|u: String| u@) =~= prev.push(found@[k as int]@));
        assert(fv.take(k + 1) =~= fv.take(k as int).push(fv[k as int]));
        k = k + 1;
    }
    assert(found@.map_values(|u: Vec<char>| u@).take(k as int) =~= found@.map_values(
        |u: Vec<char>| u@,
    ));
    r
}


/// Hosts of video-meeting services.
pub open spec fn meeting_hosts() -> Seq<Seq<char>> {
    seq![
        "8x8.vc"@,
        "chime.aws"@,
        "hangouts.google.com"@,
        "meet.google.com"@,
        "teams.live.com"@,
        "teams.microsoft.com"@,
        "teams.microsoft.us"@,
        "whereby.com"@,
        "zoom.us"@,
    ]
}

/// The authority part of what follows `://`: up to the first `/`, `?` or `#`.
pub open spec fn authority(s: Seq<char>) -> Seq<char>
    decreases s.len(),
{
    if s.len() == 0 || s[0] == '/' || s[0] == '?' || s[0] == '#' {
        Seq::empty()
    } else {
        seq![s[0]] + authority(s.drop_first())
    }
}

/// What follows the last `@` (all of the text when there is none).
pub open spec fn after_last_at(s: Seq<char>) -> Seq<char> {
    let i = last_index_of(s, '@');
    if i < 0 {
        s
    } else {
        s.skip(i + 1)
    }
}

/// What precedes the first `:` (all of the text when there is none).
pub open spec fn before_colon(s: Seq<char>) -> Seq<char> {
    let i = index_of(s, ':');
    if i < 0 {
        s
    } else {
        s.take(i)
    }
}

/// Trailing dots removed.
pub open spec fn trim_dots(s: Seq<char>) -> Seq<char>
    decreases s.len(),
{
    if s.len() > 0 && s.last() == '.' {
        trim_dots(s.drop_last())
    } else {
        s
    }
}

/// The host that a lower-cased URL remainder (what follows `://`) names.
pub open spec fn host_of(remainder: Seq<char>) -> Seq<char> {
    trim_dots(before_colon(after_last_at(authority(remainder))))
}

/// A host (with the URL remainder it came from) of a known meeting service: one of the
/// meeting hosts or a subdomain of one, a Slack huddle, or a Webex meeting.
pub open spec fn is_meeting_host(host: Seq<char>, remainder: Seq<char>) -> bool {
    ||| exists|k: int|
        0 <= k < meeting_hosts().len() && (host == #[trigger] meeting_hosts()[k] || ends_with(
            host,
            seq!['.'] + meeting_hosts()[k],
        ))
    ||| host == "app.slack.com"@ && contains(remainder, "/huddle/"@)
    ||| ends_with(host, ".webex.com"@) && contains(remainder, "/meet/"@)
}

/// A URL that joins a video meeting: a Zoom or Teams app link, or an HTTP(S) link to a meeting
/// host.
pub open spec fn is_meeting_url_spec(s: Seq<char>) -> bool {
    let l = lower(s);
    if starts_with(l, "zoommtg://"@) || starts_with(l, "msteams://"@) {
        true
    } else {
        let i = first_occurrence(l, "://"@, 0);
        if i < 0 {
            false
        } else {
            let scheme = l.take(i);
            let remainder = l.skip(i + 3);
            if scheme != "http"@ && scheme != "https"@ {
                false
            } else {
                is_meeting_host(host_of(remainder), remainder)
            }
        }
    }
}

proof fn lemma_authority(s: Seq<char>, m: int)
    requires
        0 <= m <= s.len(),
        forall|j: int| 0 <= j < m ==> s[j] != '/' && s[j] != '?' && s[j] != '#',
        m < s.len() ==> s[m] == '/' || s[m] == '?' || s[m] == '#',
    ensures
        authority(s) == s.take(m),
    decreases m,
{
    if m > 0 {
        let t = s.drop_first();
        assert forall|j: int| 0 <= j < m - 1 implies t[j] != '/' && t[j] != '?' && t[j] != '#' by {
            assert(t[j] == s[j + 1]);
        }
        lemma_authority(t, m - 1);
        assert(seq![s[0]] + t.take(m - 1) =~= s.take(m));
    } else {
        assert(s.take(0) =~= Seq::<char>::empty());
    }
}

/// The host named by a lower-cased URL remainder.
fn host_of_exec(rem: &Vec<char>) -> (r: Vec<char>)
    ensures
        r@ == host_of(rem@),
{
    let mut m: usize = 0;
    while m < rem.len() && rem[m] != '/' && rem[m] != '?' && rem[m] != '#'
        invariant
            m <= rem.len(),
            forall|j: int| 0 <= j < m ==> rem@[j] != '/' && rem@[j] != '?' && rem@[j] != '#',
        decreases rem.len() - m,
    {
        m = m + 1;
    }
    proof {
        lemma_authority(rem@, m as int);
    }
    let auth = slice(rem, 0, m);
    let after = match last_index_of_exec(&auth, '@') {
        Some(i) => slice(&auth, i + 1, auth.len()),
        None => slice(&auth, 0, auth.len()),
    };
    assert(auth@.subrange(0, auth.len() as int) =~= auth@);
    let before = match find_char(&after, 0, after.len(), ':') {
        Some(i) => slice(&after, 0, i),
        None => slice(&after, 0, after.len()),
    };
    assert(after@.subrange(0, after.len() as int) =~= after@);
    let mut end = before.len();
    assert(before@.take(end as int) =~= before@);
    while end > 0 && before[end - 1] == '.'
        invariant
            end <= before.len(),
            trim_dots(before@) == trim_dots(before@.take(end as int)),
        decreases end,
    {
        assert(before@.take(end as int).drop_last() =~= before@.take(end - 1));
        end = end - 1;
    }
    let r = slice(&before, 0, end);
    assert(r@ =~= before@.take(end as int));
    r
}

/// Whether a lower-cased host with its URL remainder belongs to a meeting service.
fn is_meeting_host_exec(host: &Vec<char>, rem: &Vec<char>) -> (r: bool)
    ensures
        r == is_meeting_host(host@, rem@),
{
    let hosts = vec![
        chars_of("8x8.vc"),
        chars_of("chime.aws"),
        chars_of("hangouts.google.com"),
        chars_of("meet.google.com"),
        chars_of("teams.live.com"),
        chars_of("teams.microsoft.com"),
        chars_of("teams.microsoft.us"),
        chars_of("whereby.com"),
        chars_of("zoom.us"),
    ];
    let mut k: usize = 0;
    while k < hosts.len()
        invariant
            k <= hosts.len(),
            hosts.len() == meeting_hosts().len(),
            forall|j: int| 0 <= j < hosts.len() ==> (#[trigger] hosts@[j])@ == meeting_hosts()[j],
            forall|j: int|
                0 <= j < k ==> !(host@ == #[trigger] meeting_hosts()[j] || ends_with(
                    host@,
                    seq!['.'] + meeting_hosts()[j],
                )),
        decreases hosts.len() - k,
    {
        let mut dotted: Vec<char> = Vec::new();
        dotted.push('.');
        let n = hosts[k].len();
        extend(&mut dotted, &hosts[k], 0, n);
        assert(hosts@[k as int]@.subrange(0, n as int) =~= hosts@[k as int]@);
        assert(dotted@ =~= seq!['.'] + meeting_hosts()[k as int]);
        if seq_eq(host, &hosts[k]) || ends_with_exec(host, &dotted) {
            return true;
        }
        k = k + 1;
    }
    if seq_eq(host, &chars_of("app.slack.com")) && contains_exec(rem, &chars_of("/huddle/")) {
        return true;
    }
    ends_with_exec(host, &chars_of(".webex.com")) && contains_exec(rem, &chars_of("/meet/"))
}

/// Whether `v` is a URL that joins a video meeting.
pub(crate) fn is_meeting_url_chars(v: &Vec<char>) -> (r: bool)
    ensures
        r == is_meeting_url_spec(v@),
{
    let l = lower_vec(v);
    if starts_with_exec(&l, &chars_of("zoommtg://")) || starts_with_exec(&l, &chars_of("msteams://")) {
        return true;
    }
    let sep = chars_of("://");
    proof {
        reveal_strlit("://");
    }
    match first_occurrence_exec(&l, &sep, 0) {
        None => false,
        Some(i) => {
            let scheme = slice(&l, 0, i);
            let rem = slice(&l, i + 3, l.len());
            assert(rem@ =~= l@.skip(i + 3));
            assert(scheme@ =~= l@.take(i as int));
            if !seq_eq(&scheme, &chars_of("http")) && !seq_eq(&scheme, &chars_of("https")) {
                return false;
            }
            let host = host_of_exec(&rem);
            is_meeting_host_exec(&host, &rem)
        },
    }
}

/// Whether a URL joins a video meeting: a `zoommtg://` or `msteams://` link, or an HTTP(S)
/// link whose host is a known meeting service (or a subdomain of one), a Slack huddle, or a
/// Webex meeting.
pub fn is_meeting_url(value: &str) -> (r: bool)
    ensures
        r == is_meeting_url_spec(value@),
{
    is_meeting_url_chars(&chars_of(value))
}


/// The readable description of an event: its notes as plain text, when that is not empty.
pub open spec fn description_spec(e: EventView) -> Option<Seq<char>> {
    match e.notes {
        None => None,
        Some(n) => {
            let p = plain_text_spec(n);
            if p.len() > 0 {
                Some(p)
            } else {
                None
            }
        },
    }
}

/// The event's notes as readable text, if they hold any.
pub fn description(event: &Event) -> (r: Option<String>)
    ensures
        opt_view(r) == description_spec(event@),
{
    match &event.notes {
        None => None,
        Some(notes) => {
            let parsed = plain_text_chars(&chars_of(notes.as_str()));
            if parsed.len() > 0 {
                Some(to_string(&parsed))
            } else {
                None
            }
        },
    }
}

/// The first candidate that joins a meeting.
pub open spec fn first_meeting(cands: Seq<Seq<char>>) -> Option<Seq<char>>
    decreases cands.len(),
{
    if cands.len() == 0 {
        None
    } else if is_meeting_url_spec(cands[0]) {
        Some(cands[0])
    } else {
        first_meeting(cands.drop_first())
    }
}

/// The URLs that an optional text mentions.
pub open spec fn urls_of(o: Option<Seq<char>>) -> Seq<Seq<char>> {
    match o {
        Some(t) => urls_in_spec(t),
        None => Seq::empty(),
    }
}

/// The link to join an event's meeting: the first of the event URL, the URLs in its notes, and
/// the URLs in its location that belongs to a meeting service; failing that, the event URL.
pub open spec fn meeting_url_spec(e: EventView) -> Option<Seq<char>> {
    let event_url = match e.url {
        Some(u) => clean_url_spec(u),
        None => None,
    };
    let first = match event_url {
        Some(u) => seq![u],
        None => Seq::empty(),
    };
    match first_meeting(first + urls_of(e.notes) + urls_of(e.location)) {
        Some(u) => Some(u),
        None => event_url,
    }
}

/// The URLs mentioned in an optional text.
fn urls_of_exec(o: &Option<String>) -> (r: Vec<Vec<char>>)
    ensures
        r@.map_values(|u: Vec<char>| u@) == urls_of(opt_view(*o)),
{
    match o {
        Some(t) => urls_in_chars(&chars_of(t.as_str())),
        None => {
            let r: Vec<Vec<char>> = Vec::new();
            assert(r@.map_values(|u: Vec<char>| u@) =~= Seq::<Seq<char>>::empty());
            r
        },
    }
}

/// Appends copies of the texts of `more` to `all`.
fn append_texts(all: &mut Vec<Vec<char>>, more: &Vec<Vec<char>>)
    ensures
        final(all)@.map_values(|u: Vec<char>| u@) == old(all)@.map_values(|u: Vec<char>| u@)
            + more@.map_values(|u: Vec<char>| u@),
{
    let ghost start = all@.map_values(|u: Vec<char>| u@);
    let ghost mv = more@.map_values(|u: Vec<char>| u@);
    let mut i: usize = 0;
    while i < more.len()
        invariant
            i <= more.len(),
            mv == more@.map_values(|u: Vec<char>| u@),
            all@.map_values(|u: Vec<char>| u@) == start + mv.take(i as int),
        decreases more.len() - i,
    {
        let n = more[i].len();
        let copy = slice(&more[i], 0, n);
        assert(more@[i as int]@.subrange(0, n as int) =~= more@[i as int]@);
        let ghost before = all@.map_values(|u: Vec<char>| u@);
        all.push(copy);
        assert(all@.map_values(|u: Vec<char>| u@) =~= before.push(mv[i as int]));
        assert(mv.take(i + 1) =~= mv.take(i as int).push(mv[i as int]));
        i = i + 1;
    }
    assert(mv.take(i as int) =~= mv);
}

/// The link that joins the event's meeting, if there is one.
pub fn meeting_url(event: &Event) -> (r: Option<String>)
    ensures
        opt_view(r) == meeting_url_spec(event@),
{
    let event_url = match &event.url {
        Some(u) => clean_url_chars(&chars_of(u.as_str())),
        None => None,
    };
    let mut cands: Vec<Vec<char>> = Vec::new();
    match &event_url {
        Some(u) => {
            cands.push(slice(u, 0, u.len()));
            assert(u@.subrange(0, u.len() as int) =~= u@);
        },
        None => {},
    }
    let ghost event_url_spec = match event@.url {
        Some(u) => clean_url_spec(u),
        None => None,
    };
    let ghost first = cands@.map_values(|u: Vec<char>| u@);
    assert(first =~= match event_url_spec {
        Some(u) => seq![u],
        None => Seq::<Seq<char>>::empty(),
    });
    let notes_urls = urls_of_exec(&event.notes);
    append_texts(&mut cands, &notes_urls);
    let location_urls = urls_of_exec(&event.location);
    append_texts(&mut cands, &location_urls);
    let ghost all = cands@.map_values(|u: Vec<char>| u@);
    assert(all =~= first + urls_of(event@.notes) + urls_of(event@.location));
    assert(all.skip(0) =~= all);
    let mut k: usize = 0;
    while k < cands.len()
        invariant
            k <= cands.len(),
            all == cands@.map_values(|u: Vec<char>| u@),
            first_meeting(all) == first_meeting(all.skip(k as int)),
            all == first + urls_of(event@.notes) + urls_of(event@.location),
            first == match event_url_spec {
                Some(u) => seq![u],
                None => Seq::<Seq<char>>::empty(),
            },
            event_url_spec == match event@.url {
                Some(u) => clean_url_spec(u),
                None => None,
            },
        decreases cands.len() - k,
    {
        let ghost rest = all.skip(k as int);
        assert(rest[0] == cands@[k as int]@);
        if is_meeting_url_chars(&cands[k]) {
            assert(first_meeting(rest) == Some(all[k as int]));
            return Some(to_string(&cands[k]));
        }
        assert(rest.drop_first() =~= all.skip(k + 1));
        k = k + 1;
    }
    assert(all.skip(k as int) =~= Seq::<Seq<char>>::empty());
    match event_url {
        Some(u) => Some(to_string(&u)),
        None => None,
    }
}

/// Decoding entities leaves a text without `&` as it is.
pub proof fn law_decode_plain_text(s: Seq<char>)
    requires
        !s.contains('&'),
    ensures
        decode_entities(s) == s,
    decreases s.len(),
{
    if s.len() > 0 {
        assert(s[0] != '&');
        assert(!s.drop_first().contains('&')) by {
            if s.drop_first().contains('&') {
                let j = choose|j: int| 0 <= j < s.drop_first().len() && s.drop_first()[j] == '&';
                assert(s[j + 1] == '&');
            }
        }
        law_decode_plain_text(s.drop_first());
        assert(seq![s[0]] + s.drop_first() =~= s);
    }
}

} // verus!
