//! Small text-building blocks shared by the renderers: string escaping for
//! the structured formats, column padding, decimal numbers, and the
//! found/not-found markers.

use vstd::prelude::*;

verus! {

/// The lower-case hexadecimal digit for a value below 16.
pub open spec fn hex_digit_seq(d: int) -> Seq<char>
    recommends
        0 <= d < 16,
{
    if d == 0 {
        "0"@
    } else if d == 1 {
        "1"@
    } else if d == 2 {
        "2"@
    } else if d == 3 {
        "3"@
    } else if d == 4 {
        "4"@
    } else if d == 5 {
        "5"@
    } else if d == 6 {
        "6"@
    } else if d == 7 {
        "7"@
    } else if d == 8 {
        "8"@
    } else if d == 9 {
        "9"@
    } else if d == 10 {
        "a"@
    } else if d == 11 {
        "b"@
    } else if d == 12 {
        "c"@
    } else if d == 13 {
        "d"@
    } else if d == 14 {
        "e"@
    } else {
        "f"@
    }
}

/// The decimal digit for a value below 10.
pub open spec fn decimal_digit_seq(d: int) -> Seq<char>
    recommends
        0 <= d < 10,
{
    if d == 0 {
        "0"@
    } else if d == 1 {
        "1"@
    } else if d == 2 {
        "2"@
    } else if d == 3 {
        "3"@
    } else if d == 4 {
        "4"@
    } else if d == 5 {
        "5"@
    } else if d == 6 {
        "6"@
    } else if d == 7 {
        "7"@
    } else if d == 8 {
        "8"@
    } else {
        "9"@
    }
}

/// The decimal digits of a non-negative number, most significant first.
pub open spec fn decimal_of(n: int) -> Seq<char>
    recommends
        n >= 0,
    decreases n,
{
    if n <= 9 {
        decimal_digit_seq(n)
    } else {
        decimal_of(n / 10) + decimal_digit_seq(n % 10)
    }
}

/// How one character is written inside a double-quoted scalar of the
/// structured formats: quote, backslash and the named control characters
/// get a backslash escape, other control characters a four-digit hex
/// escape, everything else stands for itself.
pub open spec fn escape_char(c: char) -> Seq<char> {
    if c == '"' {
        "\\\""@
    } else if c == '\\' {
        "\\\\"@
    } else if c == '\n' {
        "\\n"@
    } else if c == '\r' {
        "\\r"@
    } else if c == '\t' {
        "\\t"@
    } else if (c as u32) < 32 {
        "\\u00"@ + hex_digit_seq((c as u32) as int / 16) + hex_digit_seq((c as u32) as int % 16)
    } else {
        seq![c]
    }
}

/// A whole string, escaped character by character.
pub open spec fn escape_str(s: Seq<char>) -> Seq<char>
    decreases s.len(),
{
    if s.len() == 0 {
        Seq::<char>::empty()
    } else {
        escape_char(s[0]) + escape_str(s.skip(1))
    }
}

/// Reads a stream of double-quoted-scalar escape sequences back into the
/// characters they stand for: the inverse of [`escape_str`] on its image.
/// Text that no escaping could have produced reads as `None`.
pub open spec fn unescape_str(s: Seq<char>) -> Option<Seq<char>>
    decreases s.len(),
{
    if s.len() == 0 {
        Some(Seq::<char>::empty())
    } else if s[0] != '\\' {
        match unescape_str(s.skip(1)) {
            Some(t) => Some(seq![s[0]] + t),
            None => None,
        }
    } else if s.len() >= 2 && (s[1] == '"' || s[1] == '\\') {
        match unescape_str(s.skip(2)) {
            Some(t) => Some(seq![s[1]] + t),
            None => None,
        }
    } else if s.len() >= 2 && s[1] == 'n' {
        match unescape_str(s.skip(2)) {
            Some(t) => Some(seq!['\n'] + t),
            None => None,
        }
    } else if s.len() >= 2 && s[1] == 'r' {
        match unescape_str(s.skip(2)) {
            Some(t) => Some(seq!['\r'] + t),
            None => None,
        }
    } else if s.len() >= 2 && s[1] == 't' {
        match unescape_str(s.skip(2)) {
            Some(t) => Some(seq!['\t'] + t),
            None => None,
        }
    } else if s.len() >= 6 && s[1] == 'u' && (exists|c: char| escape_char(c) == s.take(6)) {
        let c = choose|c: char| escape_char(c) == s.take(6);
        match unescape_str(s.skip(6)) {
            Some(t) => Some(seq![c] + t),
            None => None,
        }
    } else {
        None
    }
}

/// Every hexadecimal digit is one character long.
proof fn lemma_hex_digit_len(d: int)
    ensures
        hex_digit_seq(d).len() == 1,
{
    reveal_strlit("0");
    reveal_strlit("1");
    reveal_strlit("2");
    reveal_strlit("3");
    reveal_strlit("4");
    reveal_strlit("5");
    reveal_strlit("6");
    reveal_strlit("7");
    reveal_strlit("8");
    reveal_strlit("9");
    reveal_strlit("a");
    reveal_strlit("b");
    reveal_strlit("c");
    reveal_strlit("d");
    reveal_strlit("e");
    reveal_strlit("f");
}

/// The value a hexadecimal digit character stands for, or -1 for any other
/// character.
spec fn hex_val(ch: char) -> int {
    if ch == '0' {
        0
    } else if ch == '1' {
        1
    } else if ch == '2' {
        2
    } else if ch == '3' {
        3
    } else if ch == '4' {
        4
    } else if ch == '5' {
        5
    } else if ch == '6' {
        6
    } else if ch == '7' {
        7
    } else if ch == '8' {
        8
    } else if ch == '9' {
        9
    } else if ch == 'a' {
        10
    } else if ch == 'b' {
        11
    } else if ch == 'c' {
        12
    } else if ch == 'd' {
        13
    } else if ch == 'e' {
        14
    } else if ch == 'f' {
        15
    } else {
        -1
    }
}

/// Reading a digit character back yields the value it was written for.
proof fn lemma_hex_val_digit(d: int)
    requires
        0 <= d < 16,
    ensures
        hex_val(hex_digit_seq(d)[0]) == d,
{
    reveal_strlit("0");
    reveal_strlit("1");
    reveal_strlit("2");
    reveal_strlit("3");
    reveal_strlit("4");
    reveal_strlit("5");
    reveal_strlit("6");
    reveal_strlit("7");
    reveal_strlit("8");
    reveal_strlit("9");
    reveal_strlit("a");
    reveal_strlit("b");
    reveal_strlit("c");
    reveal_strlit("d");
    reveal_strlit("e");
    reveal_strlit("f");
}

/// Distinct hexadecimal values have distinct digit characters.
proof fn lemma_hex_digit_injective(a: int, b: int)
    requires
        0 <= a < 16,
        0 <= b < 16,
        hex_digit_seq(a) == hex_digit_seq(b),
    ensures
        a == b,
{
    lemma_hex_val_digit(a);
    lemma_hex_val_digit(b);
    assert(hex_digit_seq(a)[0] == hex_digit_seq(b)[0]);
}

/// Reading back one escaped character in front of well-formed escaped text
/// yields that character in front of the read-back text.
proof fn lemma_unescape_escape_char(c: char, t: Seq<char>)
    requires
        unescape_str(t) is Some,
    ensures
        unescape_str(escape_char(c) + t) == Some(seq![c] + unescape_str(t).unwrap()),
{
    reveal_strlit("\\\"");
    reveal_strlit("\\\\");
    reveal_strlit("\\n");
    reveal_strlit("\\r");
    reveal_strlit("\\t");
    reveal_strlit("\\u00");
    let e = escape_char(c) + t;
    let rest = unescape_str(t).unwrap();
    if c == '"' || c == '\\' {
        assert(e.len() >= 2 && e[0] == '\\' && e[1] == c);
        assert(e.skip(2) =~= t);
        assert(unescape_str(e) == Some(seq![c] + rest));
    } else if c == '\n' {
        assert(e.len() >= 2 && e[0] == '\\' && e[1] == 'n');
        assert(e.skip(2) =~= t);
        assert(unescape_str(e) == Some(seq![c] + rest));
    } else if c == '\r' {
        assert(e.len() >= 2 && e[0] == '\\' && e[1] == 'r');
        assert(e.skip(2) =~= t);
        assert(unescape_str(e) == Some(seq![c] + rest));
    } else if c == '\t' {
        assert(e.len() >= 2 && e[0] == '\\' && e[1] == 't');
        assert(e.skip(2) =~= t);
        assert(unescape_str(e) == Some(seq![c] + rest));
    } else if (c as u32) < 32 {
        let v = (c as u32) as int;
        lemma_hex_digit_len(v / 16);
        lemma_hex_digit_len(v % 16);
        assert(escape_char(c).len() == 6);
        assert(e.len() >= 6 && e[0] == '\\' && e[1] == 'u');
        assert(e.take(6) =~= escape_char(c));
        assert(exists|c2: char| escape_char(c2) == e.take(6));
        let c2 = choose|c2: char| escape_char(c2) == e.take(6);
        lemma_escape_char_injective(c, c2);
        assert(e.skip(6) =~= t);
        assert(unescape_str(e) == Some(seq![c] + rest));
    } else {
        assert(e[0] == c);
        assert(c != '\\') by {
            assert(escape_char('\\') == "\\\\"@);
        }
        assert(e.skip(1) =~= t);
        assert(unescape_str(e) == Some(seq![c] + rest));
    }
}

/// A character that escapes to a four-digit hex sequence: a control
/// character without a named escape.
spec fn is_hex_escaped(c: char) -> bool {
    (c as u32) < 32 && c != '\n' && c != '\r' && c != '\t'
}

/// No two characters share an escape sequence.
proof fn lemma_escape_char_injective(c: char, d: char)
    requires
        escape_char(c) == escape_char(d),
    ensures
        c == d,
{
    reveal_strlit("\\\"");
    reveal_strlit("\\\\");
    reveal_strlit("\\n");
    reveal_strlit("\\r");
    reveal_strlit("\\t");
    reveal_strlit("\\u00");
    lemma_hex_digit_len((c as u32) as int / 16);
    lemma_hex_digit_len((c as u32) as int % 16);
    lemma_hex_digit_len((d as u32) as int / 16);
    lemma_hex_digit_len((d as u32) as int % 16);
    if is_hex_escaped(c) {
        assert(escape_char(c).len() == 6);
        assert(is_hex_escaped(d)) by {
            assert(escape_char(d).len() == 6);
        }
        let vc = (c as u32) as int;
        let vd = (d as u32) as int;
        assert(escape_char(c)[4] == hex_digit_seq(vc / 16)[0]);
        assert(escape_char(c)[5] == hex_digit_seq(vc % 16)[0]);
        assert(escape_char(d)[4] == hex_digit_seq(vd / 16)[0]);
        assert(escape_char(d)[5] == hex_digit_seq(vd % 16)[0]);
        assert(hex_digit_seq(vc / 16) =~= hex_digit_seq(vd / 16));
        assert(hex_digit_seq(vc % 16) =~= hex_digit_seq(vd % 16));
        lemma_hex_digit_injective(vc / 16, vd / 16);
        lemma_hex_digit_injective(vc % 16, vd % 16);
        assert(vc == vd);
        assert(c == d);
    } else if c == '"' || c == '\\' || c == '\n' || c == '\r' || c == '\t' {
        assert(escape_char(c).len() == 2);
        assert(!is_hex_escaped(d)) by {
            if is_hex_escaped(d) {
                assert(escape_char(d).len() == 6);
            }
        }
        assert(escape_char(c)[0] == '\\' && escape_char(d)[0] == '\\');
        assert(d == '"' || d == '\\' || d == '\n' || d == '\r' || d == '\t') by {
            if !(d == '"' || d == '\\' || d == '\n' || d == '\r' || d == '\t') {
                assert(escape_char(d) == seq![d]);
            }
        }
        assert(escape_char(c)[1] == escape_char(d)[1]);
        if c == '"' {
            assert(escape_char(c)[1] == '"');
        } else if c == '\\' {
            assert(escape_char(c)[1] == '\\');
        } else if c == '\n' {
            assert(escape_char(c)[1] == 'n');
        } else if c == '\r' {
            assert(escape_char(c)[1] == 'r');
        } else {
            assert(escape_char(c)[1] == 't');
        }
        if d == '"' {
            assert(escape_char(d)[1] == '"');
        } else if d == '\\' {
            assert(escape_char(d)[1] == '\\');
        } else if d == '\n' {
            assert(escape_char(d)[1] == 'n');
        } else if d == '\r' {
            assert(escape_char(d)[1] == 'r');
        } else {
            assert(escape_char(d)[1] == 't');
        }
        assert(c == d);
    } else {
        assert(escape_char(c) == seq![c]);
        assert(!is_hex_escaped(d)) by {
            if is_hex_escaped(d) {
                assert(escape_char(d).len() == 6);
            }
        }
        assert(!(d == '"' || d == '\\' || d == '\n' || d == '\r' || d == '\t')) by {
            if d == '"' || d == '\\' || d == '\n' || d == '\r' || d == '\t' {
                assert(escape_char(d).len() == 2);
                assert(escape_char(d)[0] == '\\');
                assert(c == '\\');
            }
        }
        assert(escape_char(d) == seq![d]);
        assert(escape_char(c)[0] == c);
        assert(escape_char(d)[0] == d);
        assert(c == d);
    }
}

/// Law, one half of round-trip stability: reading an escaped string back
/// yields exactly the original string, for every string.
pub proof fn lemma_unescape_escape(s: Seq<char>)
    ensures
        unescape_str(escape_str(s)) == Some(s),
    decreases s.len(),
{
    if s.len() == 0 {
        assert(escape_str(s) =~= Seq::<char>::empty());
        assert(unescape_str(escape_str(s)) == Some(s));
    } else {
        lemma_unescape_escape(s.skip(1));
        lemma_unescape_escape_char(s[0], escape_str(s.skip(1)));
        assert(seq![s[0]] + s.skip(1) =~= s);
    }
}

/// Escaping a string one character longer appends that character's escape.
pub proof fn lemma_escape_str_snoc(s: Seq<char>, c: char)
    ensures
        escape_str(s.push(c)) == escape_str(s) + escape_char(c),
    decreases s.len(),
{
    if s.len() == 0 {
        assert(s.push(c).skip(1) =~= Seq::<char>::empty());
        assert(escape_str(s.push(c).skip(1)) =~= Seq::<char>::empty());
        assert(s =~= Seq::<char>::empty());
        assert(escape_str(s.push(c)) =~= escape_str(s) + escape_char(c));
    } else {
        assert(s.push(c).skip(1) =~= s.skip(1).push(c));
        lemma_escape_str_snoc(s.skip(1), c);
        assert(escape_str(s.push(c)) =~= escape_str(s) + escape_char(c));
    }
}

/// The lower-case hexadecimal digit for a value below 16.
fn hex_digit_str(d: u32) -> (r: &'static str)
    requires
        d < 16,
    ensures
        r@ == hex_digit_seq(d as int),
{
    if d == 0 {
        "0"
    } else if d == 1 {
        "1"
    } else if d == 2 {
        "2"
    } else if d == 3 {
        "3"
    } else if d == 4 {
        "4"
    } else if d == 5 {
        "5"
    } else if d == 6 {
        "6"
    } else if d == 7 {
        "7"
    } else if d == 8 {
        "8"
    } else if d == 9 {
        "9"
    } else if d == 10 {
        "a"
    } else if d == 11 {
        "b"
    } else if d == 12 {
        "c"
    } else if d == 13 {
        "d"
    } else if d == 14 {
        "e"
    } else {
        "f"
    }
}

/// The decimal digit for a value below 10.
fn decimal_digit_str(d: u8) -> (r: &'static str)
    requires
        d < 10,
    ensures
        r@ == decimal_digit_seq(d as int),
{
    if d == 0 {
        "0"
    } else if d == 1 {
        "1"
    } else if d == 2 {
        "2"
    } else if d == 3 {
        "3"
    } else if d == 4 {
        "4"
    } else if d == 5 {
        "5"
    } else if d == 6 {
        "6"
    } else if d == 7 {
        "7"
    } else if d == 8 {
        "8"
    } else {
        "9"
    }
}

/// Renders a number in decimal, most significant digit first.
pub fn u8_to_decimal(n: u8) -> (r: String)
    ensures
        r@ == decimal_of(n as int),
    decreases n,
{
    if n <= 9 {
        String::from_str(decimal_digit_str(n))
    } else {
        let mut r = u8_to_decimal(n / 10);
        r.append(decimal_digit_str(n % 10));
        r
    }
}

/// Escapes a string for use inside a double-quoted scalar.
pub fn escape_string(s: &str) -> (r: String)
    ensures
        r@ == escape_str(s@),
{
    let len = s.unicode_len();
    let mut out = String::new();
    let mut i: usize = 0;
    while i < len
        invariant
            len == s@.len(),
            i <= len,
            out@ == escape_str(s@.take(i as int)),
        decreases len - i,
    {
        let c = s.get_char(i);
        if c == '"' {
            out.append("\\\"");
        } else if c == '\\' {
            out.append("\\\\");
        } else if c == '\n' {
            out.append("\\n");
        } else if c == '\r' {
            out.append("\\r");
        } else if c == '\t' {
            out.append("\\t");
        } else if (c as u32) < 32 {
            out.append("\\u00");
            out.append(hex_digit_str((c as u32) / 16));
            out.append(hex_digit_str((c as u32) % 16));
        } else {
            let piece = s.substring_char(i, i + 1);
            proof {
                assert(piece@ =~= seq![s@[i as int]]);
            }
            out.append(piece);
        }
        proof {
            assert(out@ =~= escape_str(s@.take(i as int)) + escape_char(s@[i as int]));
            assert(s@.take(i as int).push(s@[i as int]) =~= s@.take(i as int + 1));
            lemma_escape_str_snoc(s@.take(i as int), s@[i as int]);
        }
        i = i + 1;
    }
    proof {
        assert(s@.take(len as int) =~= s@);
    }
    out
}

/// That many spaces.
pub open spec fn spaces(n: int) -> Seq<char>
    decreases n,
{
    if n <= 0 {
        Seq::<char>::empty()
    } else {
        spaces(n - 1) + " "@
    }
}

/// The string padded with spaces on the right up to the column width; a
/// longer string is kept whole.
pub open spec fn pad_right_spec(s: Seq<char>, width: int) -> Seq<char> {
    s + spaces(width - s.len())
}

/// Pads a string with spaces on the right up to the column width.
pub fn pad_right(s: &str, width: usize) -> (r: String)
    ensures
        r@ == pad_right_spec(s@, width as int),
{
    let mut out = String::from_str(s);
    let mut n = s.unicode_len();
    proof {
        assert(out@ =~= s@ + spaces(n as int - s@.len()));
    }
    while n < width
        invariant
            n >= s@.len(),
            n == s@.len() || n <= width,
            out@ == s@ + spaces(n as int - s@.len()),
        decreases width - n,
    {
        out.append(" ");
        proof {
            assert(out@ =~= s@ + spaces(n as int + 1 - s@.len()));
        }
        n = n + 1;
    }
    proof {
        assert(spaces(n as int - s@.len()) =~= spaces(width - s@.len()));
        assert(out@ =~= pad_right_spec(s@, width as int));
    }
    out
}

/// The marker for a located license text, and the one for a missing text.
pub open spec fn marker_spec(found: bool) -> Seq<char> {
    if found {
        "\u{2713}"@
    } else {
        "\u{2717}"@
    }
}

/// Renders the found/not-found marker of the stats table.
pub fn check_marker(found: bool) -> (r: &'static str)
    ensures
        r@ == marker_spec(found),
{
    if found {
        "\u{2713}"
    } else {
        "\u{2717}"
    }
}

} // verus!
