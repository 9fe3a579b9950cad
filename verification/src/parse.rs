//! Reading rendered reports back: mathematical parsers for the JSON and
//! YAML renders, and the proof that they return exactly the list that was
//! rendered. This is the round-trip half of the structured formats'
//! contract; the renderers themselves live in [`crate::render`].

use vstd::prelude::*;
use crate::records::RecordView;
use crate::render::json_items;
use crate::render::json_record;
use crate::render::json_render_spec;
use crate::render::quoted;
use crate::render::quoted_or_null;
use crate::render::yaml_record;
use crate::render::yaml_render_spec;
use crate::text::escape_char;
use crate::text::escape_str;
use crate::text::hex_digit_seq;
use crate::text::lemma_unescape_escape;
use crate::text::unescape_str;

verus! {

/// The text begins with the given prefix.
pub open spec fn starts_with(s: Seq<char>, p: Seq<char>) -> bool {
    p.len() <= s.len() && s.take(p.len() as int) == p
}

/// Scans the inside of a double-quoted scalar up to its closing quote:
/// returns the raw (still escaped) payload and the text after the quote.
/// A backslash always consumes the character after it.
pub open spec fn scan_quoted(s: Seq<char>) -> Option<(Seq<char>, Seq<char>)>
    decreases s.len(),
{
    if s.len() == 0 {
        None
    } else if s[0] == '"' {
        Some((Seq::<char>::empty(), s.skip(1)))
    } else if s[0] == '\\' {
        if s.len() < 2 {
            None
        } else {
            match scan_quoted(s.skip(2)) {
                Some((raw, rest)) => Some((seq![s[0], s[1]] + raw, rest)),
                None => None,
            }
        }
    } else {
        match scan_quoted(s.skip(1)) {
            Some((raw, rest)) => Some((seq![s[0]] + raw, rest)),
            None => None,
        }
    }
}

/// Reads a double-quoted scalar from the front of the text: the string it
/// stands for, and the text after the closing quote.
pub open spec fn parse_quoted(s: Seq<char>) -> Option<(Seq<char>, Seq<char>)> {
    if s.len() >= 1 && s[0] == '"' {
        match scan_quoted(s.skip(1)) {
            Some((raw, rest)) => match unescape_str(raw) {
                Some(v) => Some((v, rest)),
                None => None,
            },
            None => None,
        }
    } else {
        None
    }
}

/// Reads an optional field value: the null literal, or a quoted scalar.
pub open spec fn parse_opt_field(s: Seq<char>) -> Option<(Option<Seq<char>>, Seq<char>)> {
    if starts_with(s, "null"@) {
        Some((None, s.skip(4)))
    } else {
        match parse_quoted(s) {
            Some((v, rest)) => Some((Some(v), rest)),
            None => None,
        }
    }
}

/// An ordinary scanned character extends the raw payload by itself.
proof fn lemma_scan_prepend_ordinary(ch: char, s: Seq<char>)
    requires
        ch != '"',
        ch != '\\',
        scan_quoted(s) is Some,
    ensures
        scan_quoted(seq![ch] + s) == Some(
            (seq![ch] + scan_quoted(s).unwrap().0, scan_quoted(s).unwrap().1),
        ),
{
    let e = seq![ch] + s;
    assert(e[0] == ch);
    assert(e.skip(1) =~= s);
}

/// A backslash pair extends the raw payload by both characters.
proof fn lemma_scan_prepend_escaped(b: char, s: Seq<char>)
    requires
        scan_quoted(s) is Some,
    ensures
        scan_quoted(seq!['\\', b] + s) == Some(
            (seq!['\\', b] + scan_quoted(s).unwrap().0, scan_quoted(s).unwrap().1),
        ),
{
    let e = seq!['\\', b] + s;
    assert(e[0] == '\\');
    assert(e[1] == b);
    assert(e.skip(2) =~= s);
    assert(seq![e[0], e[1]] + scan_quoted(s).unwrap().0 =~= seq!['\\', b] + scan_quoted(
        s,
    ).unwrap().0);
}

/// A hexadecimal digit is never a quote or a backslash.
proof fn lemma_hex_digit_not_special(d: int)
    requires
        0 <= d < 16,
    ensures
        hex_digit_seq(d).len() == 1,
        hex_digit_seq(d)[0] != '"',
        hex_digit_seq(d)[0] != '\\',
{
    reveal_strlit("0");
    reveal_strlit("1");
    reveal_strlit("2");
    reveal_strlit("3");
    reveal_strlit("4");
    reveal_strlit("5");
    reveal_strlit("6");
    reveal_strlit("7");
    reveal_strlit("8");
    reveal_strlit("9");
    reveal_strlit("a");
    reveal_strlit("b");
    reveal_strlit("c");
    reveal_strlit("d");
    reveal_strlit("e");
    reveal_strlit("f");
}

/// Scanning one escaped character in front of scannable text collects
/// exactly that character's escape sequence.
proof fn lemma_scan_prepend_escape_char(c: char, s: Seq<char>)
    requires
        scan_quoted(s) is Some,
    ensures
        scan_quoted(escape_char(c) + s) == Some(
            (escape_char(c) + scan_quoted(s).unwrap().0, scan_quoted(s).unwrap().1),
        ),
{
    reveal_strlit("\\\"");
    reveal_strlit("\\\\");
    reveal_strlit("\\n");
    reveal_strlit("\\r");
    reveal_strlit("\\t");
    reveal_strlit("\\u00");
    let raw = scan_quoted(s).unwrap().0;
    let rest = scan_quoted(s).unwrap().1;
    if c == '"' {
        lemma_scan_prepend_escaped('"', s);
        assert(escape_char(c) + s =~= seq!['\\', '"'] + s);
        assert(escape_char(c) + raw =~= seq!['\\', '"'] + raw);
    } else if c == '\\' {
        lemma_scan_prepend_escaped('\\', s);
        assert(escape_char(c) + s =~= seq!['\\', '\\'] + s);
        assert(escape_char(c) + raw =~= seq!['\\', '\\'] + raw);
    } else if c == '\n' {
        lemma_scan_prepend_escaped('n', s);
        assert(escape_char(c) + s =~= seq!['\\', 'n'] + s);
        assert(escape_char(c) + raw =~= seq!['\\', 'n'] + raw);
    } else if c == '\r' {
        lemma_scan_prepend_escaped('r', s);
        assert(escape_char(c) + s =~= seq!['\\', 'r'] + s);
        assert(escape_char(c) + raw =~= seq!['\\', 'r'] + raw);
    } else if c == '\t' {
        lemma_scan_prepend_escaped('t', s);
        assert(escape_char(c) + s =~= seq!['\\', 't'] + s);
        assert(escape_char(c) + raw =~= seq!['\\', 't'] + raw);
    } else if (c as u32) < 32 {
        let v = (c as u32) as int;
        let h1 = hex_digit_seq(v / 16);
        let h2 = hex_digit_seq(v % 16);
        lemma_hex_digit_not_special(v / 16);
        lemma_hex_digit_not_special(v % 16);
        reveal_strlit("0");
        let s5 = seq![h2[0]] + s;
        lemma_scan_prepend_ordinary(h2[0], s);
        let s4 = seq![h1[0]] + s5;
        lemma_scan_prepend_ordinary(h1[0], s5);
        let s3 = seq!['0'] + s4;
        lemma_scan_prepend_ordinary('0', s4);
        let s2 = seq!['0'] + s3;
        lemma_scan_prepend_ordinary('0', s3);
        lemma_scan_prepend_escaped('u', s2);
        assert(escape_char(c) + s =~= seq!['\\', 'u'] + s2);
        assert(scan_quoted(escape_char(c) + s) == Some(
            (seq!['\\', 'u'] + (seq!['0'] + (seq!['0'] + (seq![h1[0]] + (seq![h2[0]] + raw)))),
            rest),
        ));
        assert(seq!['\\', 'u'] + (seq!['0'] + (seq!['0'] + (seq![h1[0]] + (seq![h2[0]] + raw))))
            =~= escape_char(c) + raw);
    } else {
        lemma_scan_prepend_ordinary(c, s);
        assert(escape_char(c) + s =~= seq![c] + s);
        assert(escape_char(c) + raw =~= seq![c] + raw);
    }
}

/// Scanning an escaped string followed by its closing quote collects the
/// whole escaped string and stops at that quote.
proof fn lemma_scan_escaped(x: Seq<char>, t: Seq<char>)
    ensures
        scan_quoted(escape_str(x) + seq!['"'] + t) == Some((escape_str(x), t)),
    decreases x.len(),
{
    if x.len() == 0 {
        assert(escape_str(x) + seq!['"'] + t =~= seq!['"'] + t);
        assert((seq!['"'] + t)[0] == '"');
        assert((seq!['"'] + t).skip(1) =~= t);
        assert(escape_str(x) =~= Seq::<char>::empty());
    } else {
        lemma_scan_escaped(x.skip(1), t);
        let inner = escape_str(x.skip(1)) + seq!['"'] + t;
        lemma_scan_prepend_escape_char(x[0], inner);
        assert(escape_str(x) + seq!['"'] + t =~= escape_char(x[0]) + inner);
        assert(escape_char(x[0]) + escape_str(x.skip(1)) =~= escape_str(x));
    }
}

/// Law, quoted scalars round-trip: reading a quoted, escaped string back
/// yields exactly that string and leaves exactly the trailing text.
pub proof fn lemma_parse_quoted_round_trip(x: Seq<char>, t: Seq<char>)
    ensures
        parse_quoted(quoted(x) + t) == Some((x, t)),
{
    reveal_strlit("\"");
    let s = quoted(x) + t;
    assert(s[0] == '"');
    assert(s.skip(1) =~= escape_str(x) + seq!['"'] + t);
    lemma_scan_escaped(x, t);
    lemma_unescape_escape(x);
}

/// Reads one record object of the JSON render: prefix literals, the three
/// field values in declaration order, and the closing brace.
pub open spec fn parse_json_record(s: Seq<char>) -> Option<(RecordView, Seq<char>)> {
    if starts_with(s, "  {\n    \"name\": "@) {
        match parse_quoted(s.skip("  {\n    \"name\": "@.len() as int)) {
            Some((name, s2)) => if starts_with(s2, ",\n    \"license_identifier\": "@) {
                match parse_opt_field(s2.skip(",\n    \"license_identifier\": "@.len() as int)) {
                    Some((id, s3)) => if starts_with(s3, ",\n    \"license_text\": "@) {
                        match parse_opt_field(s3.skip(",\n    \"license_text\": "@.len() as int)) {
                            Some((text, s4)) => if starts_with(s4, "\n  }"@) {
                                Some(
                                    (
                                        RecordView {
                                            name,
                                            license_identifier: id,
                                            license_text: text,
                                        },
                                        s4.skip("\n  }"@.len() as int),
                                    ),
                                )
                            } else {
                                None
                            },
                            None => None,
                        }
                    } else {
                        None
                    },
                    None => None,
                }
            } else {
                None
            },
            None => None,
        }
    } else {
        None
    }
}

/// Reads the record objects of a non-empty JSON render, separated by a
/// comma and a line break and closed by the array's last two characters.
/// The fuel bounds the recursion; any document is shorter than its length.
pub open spec fn parse_json_items(s: Seq<char>, fuel: nat) -> Option<Seq<RecordView>>
    decreases fuel,
{
    if fuel == 0 {
        None
    } else {
        match parse_json_record(s) {
            Some((r, rest)) => {
                if rest == "\n]"@ {
                    Some(seq![r])
                } else if starts_with(rest, ",\n"@) {
                    match parse_json_items(rest.skip(2), (fuel - 1) as nat) {
                        Some(items) => Some(seq![r] + items),
                        None => None,
                    }
                } else {
                    None
                }
            },
            None => None,
        }
    }
}

/// Reads a whole JSON render back into the record list it was written for.
pub open spec fn parse_json(s: Seq<char>) -> Option<Seq<RecordView>> {
    if s == "[]"@ {
        Some(Seq::<RecordView>::empty())
    } else if starts_with(s, "[\n"@) {
        parse_json_items(s.skip(2), s.len() as nat)
    } else {
        None
    }
}

/// Reads one entry of the YAML render: the dash line and the two indented
/// field lines, each value in declaration order.
pub open spec fn parse_yaml_record(s: Seq<char>) -> Option<(RecordView, Seq<char>)> {
    if starts_with(s, "- name: "@) {
        match parse_quoted(s.skip("- name: "@.len() as int)) {
            Some((name, s2)) => if starts_with(s2, "\n  license_identifier: "@) {
                match parse_opt_field(s2.skip("\n  license_identifier: "@.len() as int)) {
                    Some((id, s3)) => if starts_with(s3, "\n  license_text: "@) {
                        match parse_opt_field(s3.skip("\n  license_text: "@.len() as int)) {
                            Some((text, s4)) => if starts_with(s4, "\n"@) {
                                Some(
                                    (
                                        RecordView {
                                            name,
                                            license_identifier: id,
                                            license_text: text,
                                        },
                                        s4.skip(1),
                                    ),
                                )
                            } else {
                                None
                            },
                            None => None,
                        }
                    } else {
                        None
                    },
                    None => None,
                }
            } else {
                None
            },
            None => None,
        }
    } else {
        None
    }
}

/// Reads the entries of a non-empty YAML render, one after the other until
/// the text ends.
pub open spec fn parse_yaml_items(s: Seq<char>, fuel: nat) -> Option<Seq<RecordView>>
    decreases fuel,
{
    if fuel == 0 {
        None
    } else {
        match parse_yaml_record(s) {
            Some((r, rest)) => {
                if rest.len() == 0 {
                    Some(seq![r])
                } else {
                    match parse_yaml_items(rest, (fuel - 1) as nat) {
                        Some(items) => Some(seq![r] + items),
                        None => None,
                    }
                }
            },
            None => None,
        }
    }
}

/// Reads a whole YAML render back into the record list it was written for.
pub open spec fn parse_yaml(s: Seq<char>) -> Option<Seq<RecordView>> {
    if s == "[]\n"@ {
        Some(Seq::<RecordView>::empty())
    } else {
        parse_yaml_items(s, s.len() as nat)
    }
}

/// Reading an optional field back yields the value it was written for.
proof fn lemma_parse_opt_field_round_trip(v: Option<Seq<char>>, t: Seq<char>)
    ensures
        parse_opt_field(quoted_or_null(v) + t) == Some((v, t)),
{
    reveal_strlit("null");
    reveal_strlit("\"");
    let s = quoted_or_null(v) + t;
    match v {
        None => {
            assert(starts_with(s, "null"@)) by {
                assert(s.take(4) =~= "null"@);
            }
            assert(s.skip(4) =~= t);
        },
        Some(x) => {
            assert(s[0] == '"');
            assert(!starts_with(s, "null"@)) by {
                if starts_with(s, "null"@) {
                    assert(s.take(4)[0] == 'n');
                }
            }
            assert(quoted_or_null(v) + t =~= quoted(x) + t);
            lemma_parse_quoted_round_trip(x, t);
        },
    }
}

/// Reading a rendered JSON record object back yields that record and
/// leaves exactly the trailing text.
proof fn lemma_parse_json_record_round_trip(r: RecordView, t: Seq<char>)
    ensures
        parse_json_record(json_record(r) + t) == Some((r, t)),
{
    let p1 = "  {\n    \"name\": "@;
    let p2 = ",\n    \"license_identifier\": "@;
    let p3 = ",\n    \"license_text\": "@;
    let p4 = "\n  }"@;
    let s = json_record(r) + t;
    let t1 = p2 + quoted_or_null(r.license_identifier) + p3 + quoted_or_null(r.license_text) + p4
        + t;
    assert(starts_with(s, p1)) by {
        assert(s.take(p1.len() as int) =~= p1);
    }
    assert(s.skip(p1.len() as int) =~= quoted(r.name) + t1);
    lemma_parse_quoted_round_trip(r.name, t1);
    let t2 = p3 + quoted_or_null(r.license_text) + p4 + t;
    assert(starts_with(t1, p2)) by {
        assert(t1.take(p2.len() as int) =~= p2);
    }
    assert(t1.skip(p2.len() as int) =~= quoted_or_null(r.license_identifier) + t2);
    lemma_parse_opt_field_round_trip(r.license_identifier, t2);
    let t3 = p4 + t;
    assert(starts_with(t2, p3)) by {
        assert(t2.take(p3.len() as int) =~= p3);
    }
    assert(t2.skip(p3.len() as int) =~= quoted_or_null(r.license_text) + t3);
    lemma_parse_opt_field_round_trip(r.license_text, t3);
    assert(starts_with(t3, p4)) by {
        assert(t3.take(p4.len() as int) =~= p4);
    }
    assert(t3.skip(p4.len() as int) =~= t);
}

/// The JSON items of a list of two or more records split off the first
/// record and its separator at the front.
proof fn lemma_json_items_front(s: Seq<RecordView>)
    requires
        s.len() >= 2,
    ensures
        json_items(s) == json_record(s[0]) + ",\n"@ + json_items(s.skip(1)),
    decreases s.len(),
{
    if s.len() == 2 {
        assert(s.drop_last().len() == 1);
        assert(s.drop_last()[0] == s[0]);
        assert(s.skip(1).len() == 1);
        assert(s.skip(1)[0] == s.last());
        assert(json_items(s.drop_last()) == json_record(s[0]));
        assert(json_items(s.skip(1)) == json_record(s.last()));
        assert(json_items(s) == json_record(s[0]) + ",\n"@ + json_items(s.skip(1)));
    } else {
        lemma_json_items_front(s.drop_last());
        assert(s.skip(1).drop_last() =~= s.drop_last().skip(1));
        assert(s.skip(1).last() == s.last());
        assert(s.skip(1).len() >= 2);
        assert(s.drop_last()[0] == s[0]);
        assert(json_items(s.skip(1)) == json_items(s.skip(1).drop_last()) + ",\n"@ + json_record(
            s.skip(1).last(),
        ));
        assert(json_items(s) =~= json_record(s[0]) + ",\n"@ + json_items(s.skip(1)));
    }
}

/// Every rendered record takes at least one character.
proof fn lemma_json_items_len(s: Seq<RecordView>)
    requires
        s.len() >= 1,
    ensures
        json_items(s).len() >= s.len(),
    decreases s.len(),
{
    reveal_strlit("  {\n    \"name\": ");
    if s.len() > 1 {
        lemma_json_items_len(s.drop_last());
    }
}

/// Reading the rendered items of a non-empty list back, with fuel for at
/// least one step per record, yields exactly that list.
#[verifier::rlimit(100)]
proof fn lemma_parse_json_items_round_trip(s: Seq<RecordView>, fuel: nat)
    requires
        s.len() >= 1,
        fuel >= s.len(),
    ensures
        parse_json_items(json_items(s) + "\n]"@, fuel) == Some(s),
    decreases s.len(),
{
    reveal_strlit("\n]");
    reveal_strlit(",\n");
    if s.len() == 1 {
        lemma_parse_json_record_round_trip(s[0], "\n]"@);
        assert(seq![s[0]] =~= s);
    } else {
        lemma_json_items_front(s);
        let tail_text = json_items(s.skip(1)) + "\n]"@;
        let rest = ",\n"@ + tail_text;
        lemma_parse_json_record_round_trip(s[0], rest);
        assert(json_items(s) + "\n]"@ =~= json_record(s[0]) + rest);
        assert(rest != "\n]"@) by {
            if rest == "\n]"@ {
                assert(rest[0] == '\n');
            }
            assert(rest[0] == ',');
        }
        assert(starts_with(rest, ",\n"@)) by {
            assert(rest.take(2) =~= ",\n"@);
        }
        assert(rest.skip(2) =~= tail_text);
        lemma_parse_json_items_round_trip(s.skip(1), (fuel - 1) as nat);
        assert(seq![s[0]] + s.skip(1) =~= s);
    }
}

/// Law, JSON round trip: reading the JSON render of any list back yields
/// exactly that list, field by field.
pub proof fn lemma_json_round_trip(s: Seq<RecordView>)
    ensures
        parse_json(json_render_spec(s)) == Some(s),
{
    reveal_strlit("[]");
    reveal_strlit("[\n");
    reveal_strlit("\n]");
    if s.len() == 0 {
        assert(s =~= Seq::<RecordView>::empty());
    } else {
        let text = json_render_spec(s);
        lemma_json_items_len(s);
        assert(text =~= "[\n"@ + json_items(s) + "\n]"@);
        assert(text != "[]"@) by {
            if text == "[]"@ {
                assert(text[1] == ']');
            }
            assert(text[1] == '\n');
        }
        assert(starts_with(text, "[\n"@)) by {
            assert(text.take(2) =~= "[\n"@);
        }
        assert(text.skip(2) =~= json_items(s) + "\n]"@);
        assert(text.len() >= s.len());
        lemma_parse_json_items_round_trip(s, text.len() as nat);
    }
}

/// Reading a rendered YAML entry back yields that record and leaves
/// exactly the trailing text.
#[verifier::rlimit(100)]
proof fn lemma_parse_yaml_record_round_trip(r: RecordView, t: Seq<char>)
    ensures
        parse_yaml_record(yaml_record(r) + t) == Some((r, t)),
{
    reveal_strlit("\n");
    let p1 = "- name: "@;
    let p2 = "\n  license_identifier: "@;
    let p3 = "\n  license_text: "@;
    let p4 = "\n"@;
    let s = yaml_record(r) + t;
    let t1 = p2 + quoted_or_null(r.license_identifier) + p3 + quoted_or_null(r.license_text) + p4
        + t;
    assert(starts_with(s, p1)) by {
        assert(s.take(p1.len() as int) =~= p1);
    }
    assert(s.skip(p1.len() as int) =~= quoted(r.name) + t1);
    lemma_parse_quoted_round_trip(r.name, t1);
    let t2 = p3 + quoted_or_null(r.license_text) + p4 + t;
    assert(starts_with(t1, p2)) by {
        assert(t1.take(p2.len() as int) =~= p2);
    }
    assert(t1.skip(p2.len() as int) =~= quoted_or_null(r.license_identifier) + t2);
    lemma_parse_opt_field_round_trip(r.license_identifier, t2);
    let t3 = p4 + t;
    assert(starts_with(t2, p3)) by {
        assert(t2.take(p3.len() as int) =~= p3);
    }
    assert(t2.skip(p3.len() as int) =~= quoted_or_null(r.license_text) + t3);
    lemma_parse_opt_field_round_trip(r.license_text, t3);
    assert(starts_with(t3, p4)) by {
        assert(t3.take(p4.len() as int) =~= p4);
    }
    assert(t3.skip(1) =~= t);
}

/// The YAML render of two or more records splits off the first entry at
/// the front.
proof fn lemma_yaml_render_front(s: Seq<RecordView>)
    requires
        s.len() >= 2,
    ensures
        yaml_render_spec(s) == yaml_record(s[0]) + yaml_render_spec(s.skip(1)),
    decreases s.len(),
{
    if s.len() == 2 {
        assert(s.drop_last().len() == 1);
        assert(s.drop_last()[0] == s[0]);
        assert(s.skip(1).len() == 1);
        assert(s.skip(1)[0] == s.last());
        assert(yaml_render_spec(s.drop_last()) == yaml_record(s[0]));
        assert(yaml_render_spec(s.skip(1)) == yaml_record(s.last()));
        assert(yaml_render_spec(s) == yaml_record(s[0]) + yaml_render_spec(s.skip(1)));
    } else {
        lemma_yaml_render_front(s.drop_last());
        assert(s.skip(1).drop_last() =~= s.drop_last().skip(1));
        assert(s.skip(1).last() == s.last());
        assert(s.skip(1).len() >= 2);
        assert(s.drop_last()[0] == s[0]);
        assert(yaml_render_spec(s.skip(1)) == yaml_render_spec(s.skip(1).drop_last())
            + yaml_record(s.skip(1).last()));
        assert(yaml_render_spec(s) =~= yaml_record(s[0]) + yaml_render_spec(s.skip(1)));
    }
}

/// Every rendered YAML entry takes at least one character.
proof fn lemma_yaml_render_len(s: Seq<RecordView>)
    requires
        s.len() >= 1,
    ensures
        yaml_render_spec(s).len() >= s.len(),
    decreases s.len(),
{
    reveal_strlit("- name: ");
    if s.len() > 1 {
        lemma_yaml_render_len(s.drop_last());
    }
}

/// Reading the YAML render of a non-empty list back, with fuel for at
/// least one step per record, yields exactly that list.
proof fn lemma_parse_yaml_items_round_trip(s: Seq<RecordView>, fuel: nat)
    requires
        s.len() >= 1,
        fuel >= s.len(),
    ensures
        parse_yaml_items(yaml_render_spec(s), fuel) == Some(s),
    decreases s.len(),
{
    if s.len() == 1 {
        lemma_parse_yaml_record_round_trip(s[0], Seq::<char>::empty());
        assert(yaml_record(s[0]) + Seq::<char>::empty() =~= yaml_render_spec(s));
        assert(seq![s[0]] =~= s);
    } else {
        lemma_yaml_render_front(s);
        let tail_text = yaml_render_spec(s.skip(1));
        lemma_parse_yaml_record_round_trip(s[0], tail_text);
        lemma_yaml_render_len(s.skip(1));
        assert(tail_text.len() > 0);
        lemma_parse_yaml_items_round_trip(s.skip(1), (fuel - 1) as nat);
        assert(seq![s[0]] + s.skip(1) =~= s);
    }
}

/// Law, YAML round trip: reading the YAML render of any list back yields
/// exactly that list, field by field.
pub proof fn lemma_yaml_round_trip(s: Seq<RecordView>)
    ensures
        parse_yaml(yaml_render_spec(s)) == Some(s),
{
    reveal_strlit("[]\n");
    reveal_strlit("- name: ");
    if s.len() == 0 {
        assert(s =~= Seq::<RecordView>::empty());
    } else {
        let text = yaml_render_spec(s);
        lemma_yaml_render_len(s);
        assert(text[0] == '-') by {
            if s.len() == 1 {
                assert(text =~= yaml_record(s[0]));
            } else {
                lemma_yaml_render_front(s);
            }
            assert(yaml_record(s[0])[0] == '-');
        }
        assert(text != "[]\n"@) by {
            if text == "[]\n"@ {
                assert(text[0] == '[');
            }
        }
        lemma_parse_yaml_items_round_trip(s, text.len() as nat);
    }
}

} // verus!
