//! The JSON text that the store keeps for its records: string literals and
//! arrays of strings in the compact form that serde_json writes, with its
//! escaping rules, and the decoding of exactly that form.

use vstd::prelude::*;
use crate::text::{chars_of, push_char};

verus! {

/// The lower-case hexadecimal digit for `n` (0 to 15).
pub open spec fn hex_digit(n: int) -> char {
    if n == 0 { '0' } else if n == 1 { '1' } else if n == 2 { '2' } else if n == 3 { '3' }
    else if n == 4 { '4' } else if n == 5 { '5' } else if n == 6 { '6' } else if n == 7 { '7' }
    else if n == 8 { '8' } else if n == 9 { '9' } else if n == 10 { 'a' } else if n == 11 { 'b' }
    else if n == 12 { 'c' } else if n == 13 { 'd' } else if n == 14 { 'e' } else { 'f' }
}

/// The value of a lower-case hexadecimal digit, or `None` for any other character.
pub open spec fn hex_value(c: char) -> Option<int> {
    if c == '0' { Some(0) } else if c == '1' { Some(1) } else if c == '2' { Some(2) }
    else if c == '3' { Some(3) } else if c == '4' { Some(4) } else if c == '5' { Some(5) }
    else if c == '6' { Some(6) } else if c == '7' { Some(7) } else if c == '8' { Some(8) }
    else if c == '9' { Some(9) } else if c == 'a' { Some(10) } else if c == 'b' { Some(11) }
    else if c == 'c' { Some(12) } else if c == 'd' { Some(13) } else if c == 'e' { Some(14) }
    else if c == 'f' { Some(15) } else { None }
}

/// Whether `c` is written with a two-character escape (`\b`, `\t`, `\n`, `\f`, `\r`).
pub open spec fn has_short_escape(v: int) -> bool {
    v == 8 || v == 9 || v == 10 || v == 12 || v == 13
}

/// How one character is written inside a JSON string literal: `"` and `\`
/// behind a backslash, the five control characters with a letter escape as
/// such, the other control characters below U+0020 as `\u00` and two
/// lower-case hex digits, every other character as itself.
pub open spec fn escape_char(c: char) -> Seq<char> {
    if c == '"' {
        seq!['\\', '"']
    } else if c == '\\' {
        seq!['\\', '\\']
    } else if c == '\u{8}' {
        seq!['\\', 'b']
    } else if c == '\u{c}' {
        seq!['\\', 'f']
    } else if c == '\n' {
        seq!['\\', 'n']
    } else if c == '\r' {
        seq!['\\', 'r']
    } else if c == '\t' {
        seq!['\\', 't']
    } else if (c as u32) < 0x20 {
        seq!['\\', 'u', '0', '0', hex_digit((c as int) / 16), hex_digit((c as int) % 16)]
    } else {
        seq![c]
    }
}

/// The escaped characters of a string, without the quotes.
pub open spec fn escape_str(s: Seq<char>) -> Seq<char>
    decreases s.len(),
{
    if s.len() == 0 {
        Seq::empty()
    } else {
        escape_char(s[0]) + escape_str(s.drop_first())
    }
}

/// The JSON string literal for `s`.
pub open spec fn json_str(s: Seq<char>) -> Seq<char> {
    seq!['"'] + escape_str(s) + seq!['"']
}

/// The string literals of `v`, separated by commas.
pub open spec fn json_items(v: Seq<Seq<char>>) -> Seq<char>
    decreases v.len(),
{
    if v.len() == 0 {
        Seq::empty()
    } else if v.len() == 1 {
        json_str(v[0])
    } else {
        json_str(v[0]) + seq![','] + json_items(v.drop_first())
    }
}

/// The compact JSON array of the strings in `v`.
pub open spec fn json_array(v: Seq<Seq<char>>) -> Seq<char> {
    seq!['['] + json_items(v) + seq![']']
}

/// The string whose literal is `t`, if `t` is the literal of some string.
pub open spec fn decode_json_str(t: Seq<char>) -> Option<Seq<char>> {
    if exists|s: Seq<char>| json_str(s) == t {
        Some(choose|s: Seq<char>| json_str(s) == t)
    } else {
        None
    }
}

/// Decodes one escape unit at the start of `t`: the character and how many
/// characters of `t` it takes. Only the spelling that `escape_char` gives is
/// accepted.
pub open spec fn unescape_unit(t: Seq<char>) -> Option<(char, nat)> {
    if t.len() == 0 {
        None
    } else if t[0] == '\\' {
        if t.len() < 2 {
            None
        } else if t[1] == '"' {
            Some(('"', 2))
        } else if t[1] == '\\' {
            Some(('\\', 2))
        } else if t[1] == 'b' {
            Some(('\u{8}', 2))
        } else if t[1] == 'f' {
            Some(('\u{c}', 2))
        } else if t[1] == 'n' {
            Some(('\n', 2))
        } else if t[1] == 'r' {
            Some(('\r', 2))
        } else if t[1] == 't' {
            Some(('\t', 2))
        } else if t[1] == 'u' && t.len() >= 6 && t[2] == '0' && t[3] == '0' && (t[4] == '0'
            || t[4] == '1') && hex_value(t[5]) is Some {
            let v = hex_value(t[4]).unwrap() * 16 + hex_value(t[5]).unwrap();
            if has_short_escape(v) {
                None
            } else {
                Some(((v as char), 6))
            }
        } else {
            None
        }
    } else if t[0] == '"' || (t[0] as u32) < 0x20 {
        None
    } else {
        Some((t[0], 1))
    }
}

/// Decodes the body of a string literal (what follows the opening quote):
/// the string and how many characters it takes, the closing quote included.
pub open spec fn parse_str_body(t: Seq<char>) -> Option<(Seq<char>, nat)>
    decreases t.len(),
{
    if t.len() == 0 {
        None
    } else if t[0] == '"' {
        Some((Seq::empty(), 1))
    } else {
        match unescape_unit(t) {
            None => None,
            Some((c, n)) => if 0 < n <= t.len() {
                match parse_str_body(t.subrange(n as int, t.len() as int)) {
                    None => None,
                    Some((s, m)) => Some((seq![c] + s, n + m)),
                }
            } else {
                None
            },
        }
    }
}

/// Decodes string literals separated by commas up to the closing `]`.
pub open spec fn parse_items(t: Seq<char>) -> Option<(Seq<Seq<char>>, nat)>
    decreases t.len(),
{
    if t.len() == 0 || t[0] != '"' {
        None
    } else {
        match parse_str_body(t.subrange(1, t.len() as int)) {
            None => None,
            Some((s, m)) => {
                let k: int = 1 + m as int;
                if k < t.len() {
                    if t[k] == ']' {
                        Some((seq![s], (k + 1) as nat))
                    } else if t[k] == ',' {
                        match parse_items(t.subrange(k + 1, t.len() as int)) {
                            None => None,
                            Some((rest, j)) => Some((seq![s] + rest, (k + 1 + j) as nat)),
                        }
                    } else {
                        None
                    }
                } else {
                    None
                }
            },
        }
    }
}

/// Decodes the body of an array of strings (what follows the opening `[`).
pub open spec fn parse_list_body(t: Seq<char>) -> Option<(Seq<Seq<char>>, nat)> {
    if t.len() > 0 && t[0] == ']' {
        Some((Seq::empty(), 1))
    } else {
        parse_items(t)
    }
}

// ---------------------------------------------------------------------------
// Lemmas on escaping and decoding
// ---------------------------------------------------------------------------

proof fn lemma_hex_roundtrip(n: int)
    requires
        0 <= n < 16,
    ensures
        hex_value(hex_digit(n)) == Some(n),
{
}

proof fn lemma_hex_digit_of_value(c: char)
    requires
        hex_value(c) is Some,
    ensures
        hex_digit(hex_value(c).unwrap()) == c,
        0 <= hex_value(c).unwrap() < 16,
{
}

/// An escape unit never starts with a quote, and is never empty.
proof fn lemma_escape_char_shape(c: char)
    ensures
        escape_char(c).len() >= 1,
        escape_char(c)[0] != '"',
{
}

/// Decoding the escape of `c`, whatever follows, gives back `c`.
proof fn lemma_unescape_escape(c: char, r: Seq<char>)
    ensures
        unescape_unit(escape_char(c) + r) == Some((c, escape_char(c).len())),
{
    let t = escape_char(c) + r;
    if (c as u32) < 0x20 && !(c == '\u{8}' || c == '\u{c}' || c == '\n' || c == '\r' || c
        == '\t') {
        let v = c as int;
        lemma_hex_roundtrip(v / 16);
        lemma_hex_roundtrip(v % 16);
        assert(t[4] == hex_digit(v / 16));
        assert(t[5] == hex_digit(v % 16));
        assert(hex_value(t[4]).unwrap() * 16 + hex_value(t[5]).unwrap() == v);
        assert((v as char) == c);
    }
}

/// An escape unit that decodes is exactly the escape of what it decodes to.
proof fn lemma_unescape_sound(t: Seq<char>)
    requires
        unescape_unit(t) is Some,
    ensures
        ({
            let (c, n) = unescape_unit(t).unwrap();
            n == escape_char(c).len() && n <= t.len() && t.subrange(0, n as int)
                =~= escape_char(c)
        }),
{
    if t[0] == '\\' && t[1] == 'u' {
        let v = hex_value(t[4]).unwrap() * 16 + hex_value(t[5]).unwrap();
        lemma_hex_digit_of_value(t[4]);
        lemma_hex_digit_of_value(t[5]);
        let c = v as char;
        assert(c as u32 == v);
        assert(v / 16 == hex_value(t[4]).unwrap());
        assert(v % 16 == hex_value(t[5]).unwrap());
    }
}

proof fn lemma_escape_str_append(a: Seq<char>, b: Seq<char>)
    ensures
        escape_str(a + b) == escape_str(a) + escape_str(b),
    decreases a.len(),
{
    if a.len() == 0 {
        assert(a + b =~= b);
    } else {
        assert((a + b).drop_first() =~= a.drop_first() + b);
        lemma_escape_str_append(a.drop_first(), b);
    }
}

/// Escaping one more character appends its escape.
pub proof fn lemma_escape_str_snoc(s: Seq<char>, c: char)
    ensures
        escape_str(s.push(c)) == escape_str(s) + escape_char(c),
{
    lemma_escape_str_append(s, seq![c]);
    assert(s + seq![c] =~= s.push(c));
    assert(seq![c].drop_first() =~= Seq::<char>::empty());
    assert(escape_str(Seq::<char>::empty()) =~= Seq::<char>::empty());
    assert(seq![c][0] == c);
    assert(escape_str(seq![c]) =~= escape_char(c) + escape_str(seq![c].drop_first()));
    assert(escape_str(seq![c]) =~= escape_char(c));
}

/// The body of the literal of `s`, whatever follows it, decodes to `s`.
pub proof fn lemma_parse_str_body_complete(s: Seq<char>, r: Seq<char>)
    ensures
        parse_str_body(escape_str(s) + seq!['"'] + r) == Some((s, escape_str(s).len() + 1)),
    decreases s.len(),
{
    let t = escape_str(s) + seq!['"'] + r;
    if s.len() == 0 {
        assert(t[0] == '"');
        assert(s =~= Seq::<char>::empty());
    } else {
        let c = s[0];
        let rest = escape_str(s.drop_first()) + seq!['"'] + r;
        assert(t =~= escape_char(c) + rest);
        lemma_escape_char_shape(c);
        lemma_unescape_escape(c, rest);
        let n = escape_char(c).len();
        assert(t.subrange(n as int, t.len() as int) =~= rest);
        lemma_parse_str_body_complete(s.drop_first(), r);
        assert(seq![c] + s.drop_first() =~= s);
    }
}

/// What the body decoder accepts is the escape of its result and a quote.
pub proof fn lemma_parse_str_body_sound(t: Seq<char>)
    requires
        parse_str_body(t) is Some,
    ensures
        ({
            let (s, m) = parse_str_body(t).unwrap();
            m <= t.len() && t.subrange(0, m as int) =~= escape_str(s) + seq!['"']
        }),
    decreases t.len(),
{
    if t[0] == '"' {
    } else {
        let (c, n) = unescape_unit(t).unwrap();
        lemma_unescape_sound(t);
        let tail = t.subrange(n as int, t.len() as int);
        lemma_parse_str_body_sound(tail);
        let (s1, m1) = parse_str_body(tail).unwrap();
        let s = seq![c] + s1;
        assert(s.drop_first() =~= s1);
        assert(escape_str(s) == escape_char(c) + escape_str(s1));
        assert(t.subrange(0, (n + m1) as int) =~= t.subrange(0, n as int) + tail.subrange(
            0,
            m1 as int,
        ));
    }
}

/// String literals are decoded back to the string they were written from.
pub proof fn lemma_json_str_roundtrip(s: Seq<char>)
    ensures
        decode_json_str(json_str(s)) == Some(s),
{
    lemma_json_str_injective_at(s);
}

/// Two strings with the same literal are equal.
pub proof fn lemma_json_str_injective(s1: Seq<char>, s2: Seq<char>)
    requires
        json_str(s1) == json_str(s2),
    ensures
        s1 == s2,
{
    let t = json_str(s1);
    lemma_parse_str_body_complete(s1, Seq::empty());
    lemma_parse_str_body_complete(s2, Seq::empty());
    assert(t.drop_first() =~= escape_str(s1) + seq!['"'] + Seq::<char>::empty());
    assert(json_str(s2).drop_first() =~= escape_str(s2) + seq!['"'] + Seq::<char>::empty());
}

proof fn lemma_json_str_injective_at(s: Seq<char>)
    ensures
        decode_json_str(json_str(s)) == Some(s),
{
    assert(exists|x: Seq<char>| json_str(x) == json_str(s));
    let x = choose|x: Seq<char>| json_str(x) == json_str(s);
    lemma_json_str_injective(x, s);
}


/// Adding one more string to a list appends a comma (if needed) and its literal.
pub proof fn lemma_json_items_snoc(v: Seq<Seq<char>>, x: Seq<char>)
    ensures
        json_items(v.push(x)) == if v.len() == 0 {
            json_str(x)
        } else {
            json_items(v) + seq![','] + json_str(x)
        },
    decreases v.len(),
{
    if v.len() == 0 {
        assert(v.push(x) =~= seq![x]);
    } else if v.len() == 1 {
        assert(v.push(x).drop_first() =~= seq![x]);
        assert(json_items(seq![x]) == json_str(x));
    } else {
        assert(v.push(x).drop_first() =~= v.drop_first().push(x));
        lemma_json_items_snoc(v.drop_first(), x);
    }
}

/// A list written by `json_items` and closed by `]`, whatever follows,
/// decodes back to the list.
pub proof fn lemma_parse_list_body_complete(v: Seq<Seq<char>>, r: Seq<char>)
    ensures
        parse_list_body(json_items(v) + seq![']'] + r) == Some((v, json_items(v).len() + 1)),
{
    if v.len() == 0 {
        let t = json_items(v) + seq![']'] + r;
        assert(t[0] == ']');
        assert(v =~= Seq::<Seq<char>>::empty());
    } else {
        lemma_parse_items_complete(v, r);
        let t = json_items(v) + seq![']'] + r;
        assert(t[0] == json_str(v[0])[0]);
    }
}

proof fn lemma_parse_items_complete(v: Seq<Seq<char>>, r: Seq<char>)
    requires
        v.len() > 0,
    ensures
        parse_items(json_items(v) + seq![']'] + r) == Some((v, json_items(v).len() + 1)),
    decreases v.len(),
{
    let t = json_items(v) + seq![']'] + r;
    let x = v[0];
    let after = if v.len() == 1 {
        seq![']'] + r
    } else {
        seq![','] + json_items(v.drop_first()) + seq![']'] + r
    };
    assert(t =~= json_str(x) + after);
    assert(t[0] == '"');
    assert(t.subrange(1, t.len() as int) =~= escape_str(x) + seq!['"'] + after);
    lemma_parse_str_body_complete(x, after);
    let k: int = 1 + escape_str(x).len() as int + 1;
    assert(k == json_str(x).len());
    assert(t[k] == after[0]);
    if v.len() == 1 {
        assert(seq![x] =~= v);
    } else {
        assert(t.subrange(k + 1, t.len() as int) =~= json_items(v.drop_first()) + seq![']']
            + r);
        lemma_parse_items_complete(v.drop_first(), r);
        assert(seq![x] + v.drop_first() =~= v);
    }
}

/// What the list decoder accepts is the list's items and the closing `]`.
pub proof fn lemma_parse_list_body_sound(t: Seq<char>)
    requires
        parse_list_body(t) is Some,
    ensures
        ({
            let (v, m) = parse_list_body(t).unwrap();
            m <= t.len() && t.subrange(0, m as int) =~= json_items(v) + seq![']']
        }),
{
    if t.len() > 0 && t[0] == ']' {
    } else {
        lemma_parse_items_sound(t);
    }
}

proof fn lemma_parse_items_sound(t: Seq<char>)
    requires
        parse_items(t) is Some,
    ensures
        ({
            let (v, m) = parse_items(t).unwrap();
            v.len() > 0 && m <= t.len() && t.subrange(0, m as int) =~= json_items(v) + seq![']']
        }),
    decreases t.len(),
{
    let body = t.subrange(1, t.len() as int);
    lemma_parse_str_body_sound(body);
    let (s, m) = parse_str_body(body).unwrap();
    let k: int = 1 + m as int;
    assert(t.subrange(0, k) =~= json_str(s)) by {
        assert(t.subrange(0, k) =~= seq!['"'] + body.subrange(0, m as int));
    }
    if t[k] == ']' {
        assert(json_items(seq![s]) == json_str(s));
        assert(t.subrange(0, k + 1) =~= t.subrange(0, k) + seq![']']);
    } else {
        let tail = t.subrange(k + 1, t.len() as int);
        lemma_parse_items_sound(tail);
        let (rest, j) = parse_items(tail).unwrap();
        let v = seq![s] + rest;
        assert(v.drop_first() =~= rest);
        assert(json_items(v) == json_str(s) + seq![','] + json_items(rest));
        assert(t.subrange(0, k + 1 + j) =~= t.subrange(0, k) + seq![','] + tail.subrange(
            0,
            j as int,
        ));
    }
}

// ---------------------------------------------------------------------------
// Writing
// ---------------------------------------------------------------------------

fn hex_digit_exec(n: u32) -> (c: char)
    requires
        n < 16,
    ensures
        c == hex_digit(n as int),
{
    if n == 0 { '0' } else if n == 1 { '1' } else if n == 2 { '2' } else if n == 3 { '3' }
    else if n == 4 { '4' } else if n == 5 { '5' } else if n == 6 { '6' } else if n == 7 { '7' }
    else if n == 8 { '8' } else if n == 9 { '9' } else if n == 10 { 'a' } else if n == 11 { 'b' }
    else if n == 12 { 'c' } else if n == 13 { 'd' } else if n == 14 { 'e' } else { 'f' }
}

/// Appends the escape of `c` to `out`.
fn push_escape_char(out: &mut String, c: char)
    ensures
        final(out)@ == old(out)@ + escape_char(c),
{
    let ghost start = out@;
    if c == '"' {
        push_char(out, '\\');
        push_char(out, '"');
    } else if c == '\\' {
        push_char(out, '\\');
        push_char(out, '\\');
    } else if c == '\u{8}' {
        push_char(out, '\\');
        push_char(out, 'b');
    } else if c == '\u{c}' {
        push_char(out, '\\');
        push_char(out, 'f');
    } else if c == '\n' {
        push_char(out, '\\');
        push_char(out, 'n');
    } else if c == '\r' {
        push_char(out, '\\');
        push_char(out, 'r');
    } else if c == '\t' {
        push_char(out, '\\');
        push_char(out, 't');
    } else if (c as u32) < 0x20 {
        let v = c as u32;
        push_char(out, '\\');
        push_char(out, 'u');
        push_char(out, '0');
        push_char(out, '0');
        push_char(out, hex_digit_exec(v / 16));
        push_char(out, hex_digit_exec(v % 16));
    } else {
        push_char(out, c);
    }
    assert(out@ =~= start + escape_char(c));
}

/// Appends the JSON string literal of `s` to `out`.
pub fn push_json_str(out: &mut String, s: &str)
    ensures
        final(out)@ == old(out)@ + json_str(s@),
{
    let ghost start = out@;
    let cs = chars_of(s);
    push_char(out, '"');
    let mut i: usize = 0;
    while i < cs.len()
        invariant
            i <= cs.len(),
            cs@ == s@,
            out@ == start + seq!['"'] + escape_str(cs@.take(i as int)),
        decreases cs.len() - i,
    {
        proof {
            lemma_escape_str_snoc(cs@.take(i as int), cs@[i as int]);
            assert(cs@.take(i as int).push(cs@[i as int]) =~= cs@.take(i as int + 1));
        }
        push_escape_char(out, cs[i]);
        i = i + 1;
    }
    push_char(out, '"');
    assert(cs@.take(i as int) =~= s@);
    assert(out@ =~= start + json_str(s@));
}

/// The JSON string literal of `s`, as serde_json writes it.
pub fn encode_json_str(s: &str) -> (r: String)
    ensures
        r@ == json_str(s@),
{
    let mut out = String::new();
    push_json_str(&mut out, s);
    assert(out@ =~= json_str(s@));
    out
}

/// Appends the compact JSON array of the strings in `v` to `out`.
pub fn push_json_array(out: &mut String, v: &Vec<String>)
    ensures
        final(out)@ == old(out)@ + json_array(v.deep_view()),
{
    let ghost start = out@;
    push_char(out, '[');
    let mut i: usize = 0;
    while i < v.len()
        invariant
            i <= v.len(),
            out@ == start + seq!['['] + json_items(v.deep_view().take(i as int)),
        decreases v.len() - i,
    {
        let ghost before = out@;
        proof {
            lemma_json_items_snoc(v.deep_view().take(i as int), v[i as int]@);
            assert(v.deep_view().take(i as int).push(v[i as int]@) =~= v.deep_view().take(
                i as int + 1,
            ));
        }
        if i > 0 {
            push_char(out, ',');
        }
        push_json_str(out, v[i].as_str());
        assert(out@ =~= start + seq!['['] + json_items(v.deep_view().take(i as int + 1)));
        i = i + 1;
    }
    push_char(out, ']');
    assert(v.deep_view().take(i as int) =~= v.deep_view());
    assert(out@ =~= start + json_array(v.deep_view()));
}

// ---------------------------------------------------------------------------
// Reading
// ---------------------------------------------------------------------------

fn hex_value_exec(c: char) -> (r: Option<u32>)
    ensures
        match hex_value(c) {
            Some(v) => r == Some(v as u32),
            None => r is None,
        },
{
    if '0' <= c && c <= '9' {
        Some(c as u32 - 48)
    } else if 'a' <= c && c <= 'f' {
        Some(c as u32 - 87)
    } else {
        None
    }
}

/// Decodes the escape unit that starts at position `i` of `t`.
fn unescape_unit_at(t: &Vec<char>, i: usize) -> (r: Option<(char, usize)>)
    requires
        i <= t.len(),
    ensures
        match unescape_unit(t@.subrange(i as int, t@.len() as int)) {
            Some((c, n)) => r == Some((c, n as usize)) && 0 < n <= t.len() - i,
            None => r is None,
        },
{
    let ghost sub = t@.subrange(i as int, t@.len() as int);
    let n = t.len();
    if i >= n {
        return None;
    }
    let c0 = t[i];
    let r = if c0 == '\\' {
        if n - i < 2 {
            None
        } else {
            let c1 = t[i + 1];
            if c1 == '"' {
                Some(('"', 2))
            } else if c1 == '\\' {
                Some(('\\', 2))
            } else if c1 == 'b' {
                Some(('\u{8}', 2))
            } else if c1 == 'f' {
                Some(('\u{c}', 2))
            } else if c1 == 'n' {
                Some(('\n', 2))
            } else if c1 == 'r' {
                Some(('\r', 2))
            } else if c1 == 't' {
                Some(('\t', 2))
            } else if c1 == 'u' && n - i >= 6 && t[i + 2] == '0' && t[i + 3] == '0' && (t[i + 4]
                == '0' || t[i + 4] == '1') {
                match hex_value_exec(t[i + 5]) {
                    None => None,
                    Some(lo) => {
                        let hi: u32 = if t[i + 4] == '0' {
                            0
                        } else {
                            1
                        };
                        let v: u32 = hi * 16 + lo;
                        if v == 8 || v == 9 || v == 10 || v == 12 || v == 13 {
                            None
                        } else {
                            let c = (v as u8) as char;
                            assert(c == (v as int) as char);
                            Some((c, 6))
                        }
                    },
                }
            } else {
                None
            }
        }
    } else if c0 == '"' || (c0 as u32) < 0x20 {
        None
    } else {
        Some((c0, 1))
    };
    proof {
        if unescape_unit(sub) is Some {
            lemma_unescape_sound(sub);
        }
    }
    r
}

/// Shifts a decoding result of a suffix so that it speaks of the whole.
pub open spec fn lift_str(p: Seq<char>, off: int, r: Option<(Seq<char>, nat)>) -> Option<(Seq<char>, nat)> {
    match r {
        None => None,
        Some((s, m)) => Some((p + s, (off + m) as nat)),
    }
}

/// Decodes the body of the string literal that starts after position
/// `start - 1` of `t`: the string, and how many characters it takes.
pub fn parse_str_body_at(t: &Vec<char>, start: usize) -> (r: Option<(String, usize)>)
    requires
        start <= t.len(),
    ensures
        match parse_str_body(t@.subrange(start as int, t@.len() as int)) {
            Some((s, m)) => r matches Some((rs, rm)) && rs@ == s && rm == m && m <= t.len() - start,
            None => r is None,
        },
{
    let ghost whole = t@.subrange(start as int, t@.len() as int);
    let mut acc = String::new();
    let mut i = start;
    proof {
        assert(acc@ + Seq::<char>::empty() =~= acc@);
        match parse_str_body(whole) {
            Some((s, m)) => assert(Seq::<char>::empty() + s =~= s),
            None => {},
        }
    }
    while i < t.len()
        invariant
            start <= i <= t.len(),
            whole == t@.subrange(start as int, t@.len() as int),
            lift_str(acc@, i - start, parse_str_body(t@.subrange(i as int, t@.len() as int)))
                == parse_str_body(whole),
        decreases t.len() - i,
    {
        let ghost sub = t@.subrange(i as int, t@.len() as int);
        assert(sub.len() > 0 && sub[0] == t@[i as int]);
        if t[i] == '"' {
            proof {
                assert(parse_str_body(sub) == Some((Seq::<char>::empty(), 1nat)));
                assert(acc@ + Seq::<char>::empty() =~= acc@);
                assert(parse_str_body(whole) == Some((acc@, (i + 1 - start) as nat)));
            }
            return Some((acc, i + 1 - start));
        }
        match unescape_unit_at(t, i) {
            None => {
                assert(parse_str_body(sub) is None);
                assert(parse_str_body(whole) is None);
                return None;
            },
            Some((c, n)) => {
                let ghost old_acc = acc@;
                proof {
                    assert(sub.subrange(n as int, sub.len() as int) =~= t@.subrange(
                        i + n,
                        t@.len() as int,
                    ));
                    match parse_str_body(t@.subrange(i + n, t@.len() as int)) {
                        Some((s, m)) => {
                            assert(old_acc.push(c) + s =~= old_acc + (seq![c] + s));
                        },
                        None => {},
                    }
                }
                push_char(&mut acc, c);
                i = i + n;
            },
        }
    }
    proof {
        assert(t@.subrange(i as int, t@.len() as int).len() == 0);
    }
    None
}

/// Shifts a list decoding result of a suffix so that it speaks of the whole.
pub open spec fn lift_list(p: Seq<Seq<char>>, off: int, r: Option<(Seq<Seq<char>>, nat)>) -> Option<
    (Seq<Seq<char>>, nat),
> {
    match r {
        None => None,
        Some((v, m)) => Some((p + v, (off + m) as nat)),
    }
}

/// Decodes the body of the array of strings that starts after position
/// `start - 1` of `t`: the strings, and how many characters they take.
pub fn parse_list_body_at(t: &Vec<char>, start: usize) -> (r: Option<(Vec<String>, usize)>)
    requires
        start <= t.len(),
    ensures
        match parse_list_body(t@.subrange(start as int, t@.len() as int)) {
            Some((v, m)) => r matches Some((rv, rm)) && rv.deep_view() == v && rm == m && m <= t.len()
                - start,
            None => r is None,
        },
{
    let ghost whole = t@.subrange(start as int, t@.len() as int);
    if start < t.len() && t[start] == ']' {
        let empty: Vec<String> = Vec::new();
        assert(empty.deep_view() =~= Seq::<Seq<char>>::empty());
        return Some((empty, 1));
    }
    let mut acc: Vec<String> = Vec::new();
    let mut i = start;
    proof {
        assert(acc.deep_view() =~= Seq::<Seq<char>>::empty());
        match parse_items(whole) {
            Some((v, m)) => assert(Seq::<Seq<char>>::empty() + v =~= v),
            None => {},
        }
    }
    while i < t.len()
        invariant
            start <= i <= t.len(),
            whole == t@.subrange(start as int, t@.len() as int),
            parse_list_body(whole) == parse_items(whole),
            lift_list(acc.deep_view(), i - start, parse_items(t@.subrange(i as int, t@.len() as int)))
                == parse_items(whole),
        decreases t.len() - i,
    {
        let ghost sub = t@.subrange(i as int, t@.len() as int);
        assert(sub.len() > 0 && sub[0] == t@[i as int]);
        if t[i] != '"' {
            assert(parse_items(sub) is None);
            return None;
        }
        assert(sub.subrange(1, sub.len() as int) =~= t@.subrange(i + 1, t@.len() as int));
        match parse_str_body_at(t, i + 1) {
            None => {
                assert(parse_items(sub) is None);
                return None;
            },
            Some((s, m)) => {
                let k = i + 1 + m;
                if k >= t.len() {
                    return None;
                }
                let ghost old_acc = acc.deep_view();
                if t[k] == ']' {
                    acc.push(s);
                    proof {
                        assert(acc.deep_view() =~= old_acc + seq![s@]);
                        lemma_parse_list_body_sound(whole);
                    }
                    return Some((acc, k + 1 - start));
                } else if t[k] == ',' {
                    proof {
                        assert(sub.subrange(1 + m + 1, sub.len() as int) =~= t@.subrange(
                            k + 1,
                            t@.len() as int,
                        ));
                        match parse_items(t@.subrange(k + 1, t@.len() as int)) {
                            Some((rest, j)) => {
                                assert(old_acc.push(s@) + rest =~= old_acc + (seq![s@] + rest));
                            },
                            None => {},
                        }
                    }
                    acc.push(s);
                    assert(acc.deep_view() =~= old_acc.push(s@));
                    i = k + 1;
                } else {
                    return None;
                }
            },
        }
    }
    proof {
        assert(t@.subrange(i as int, t@.len() as int).len() == 0);
    }
    None
}


// ---------------------------------------------------------------------------
// The JSON grammar, for the shapes of text that the store keeps
// ---------------------------------------------------------------------------

/// Whether `c` may follow a backslash as a one-letter escape in JSON.
pub open spec fn is_escape_letter(c: char) -> bool {
    c == '"' || c == '\\' || c == '/' || c == 'b' || c == 'f' || c == 'n' || c == 'r' || c == 't'
}

/// Whether `c` is a hexadecimal digit, in either case.
pub open spec fn is_hex_char(c: char) -> bool {
    ('0' <= c && c <= '9') || ('a' <= c && c <= 'f') || ('A' <= c && c <= 'F')
}

/// Whether `t` may stand between the quotes of a JSON string: characters
/// other than `"`, `\` and the control characters below U+0020, and escapes
/// (a backslash and one of `"\/bfnrt`, or `\u` and four hexadecimal digits).
pub open spec fn is_json_str_body(t: Seq<char>) -> bool
    decreases t.len(),
{
    if t.len() == 0 {
        true
    } else if t[0] == '\\' {
        if t.len() >= 2 && is_escape_letter(t[1]) {
            is_json_str_body(t.skip(2))
        } else if t.len() >= 6 && t[1] == 'u' && is_hex_char(t[2]) && is_hex_char(t[3])
            && is_hex_char(t[4]) && is_hex_char(t[5]) {
            is_json_str_body(t.skip(6))
        } else {
            false
        }
    } else {
        t[0] != '"' && t[0] >= ' ' && is_json_str_body(t.drop_first())
    }
}

/// Whether `t` is a JSON string.
pub open spec fn is_json_str_literal(t: Seq<char>) -> bool {
    t.len() >= 2 && t[0] == '"' && t.last() == '"' && is_json_str_body(t.subrange(1, t.len() - 1))
}

/// `parts`, separated by commas.
pub open spec fn comma_joined(parts: Seq<Seq<char>>) -> Seq<char>
    decreases parts.len(),
{
    if parts.len() == 0 {
        Seq::empty()
    } else if parts.len() == 1 {
        parts[0]
    } else {
        parts[0] + seq![','] + comma_joined(parts.drop_first())
    }
}

/// Whether `t` is a JSON array of strings, written without whitespace.
pub open spec fn is_json_str_array(t: Seq<char>) -> bool {
    exists|items: Seq<Seq<char>>|
        (forall|i: int| 0 <= i < items.len() ==> is_json_str_literal(#[trigger] items[i])) && t
            == seq!['['] + comma_joined(items) + seq![']']
}

/// The members `key:value` of an object, from its keys and values.
pub open spec fn json_members(keys: Seq<Seq<char>>, vals: Seq<Seq<char>>) -> Seq<Seq<char>> {
    Seq::new(keys.len(), |i: int| keys[i] + seq![':'] + vals[i])
}

/// Whether `t` is a JSON object, written without whitespace, whose members
/// each hold a string or an array of strings.
pub open spec fn is_flat_json_object(t: Seq<char>) -> bool {
    exists|keys: Seq<Seq<char>>, vals: Seq<Seq<char>>|
        #![trigger json_members(keys, vals)]
        keys.len() == vals.len() && (forall|i: int|
            0 <= i < keys.len() ==> is_json_str_literal(#[trigger] keys[i]) && (
            is_json_str_literal(vals[i]) || is_json_str_array(vals[i]))) && t == seq!['{']
            + comma_joined(json_members(keys, vals)) + seq!['}']
}

/// Whether `t` is, written without whitespace, a JSON string, an array of
/// strings, or an object whose members hold strings or arrays of strings.
pub open spec fn is_flat_json(t: Seq<char>) -> bool {
    is_json_str_literal(t) || is_json_str_array(t) || is_flat_json_object(t)
}

proof fn lemma_escape_char_body(c: char, rest: Seq<char>)
    requires
        is_json_str_body(rest),
    ensures
        is_json_str_body(escape_char(c) + rest),
{
    let t = escape_char(c) + rest;
    if c == '"' || c == '\\' || c == '\u{8}' || c == '\u{c}' || c == '\n' || c == '\r' || c
        == '\t' {
        assert(t.skip(2) =~= rest);
    } else if (c as u32) < 0x20 {
        assert(t.skip(6) =~= rest);
        assert(is_hex_char(hex_digit((c as int) / 16)));
        assert(is_hex_char(hex_digit((c as int) % 16)));
        assert(is_hex_char(t[4]));
        assert(is_hex_char(t[5]));
    } else {
        assert(t.drop_first() =~= rest);
        assert(t[0] == c);
        assert(c >= ' ');
    }
}

/// The escaped characters of any string may stand inside a JSON string.
pub proof fn lemma_escape_str_body(s: Seq<char>)
    ensures
        is_json_str_body(escape_str(s)),
    decreases s.len(),
{
    if s.len() > 0 {
        lemma_escape_str_body(s.drop_first());
        lemma_escape_char_body(s[0], escape_str(s.drop_first()));
    }
}

/// The literal of any string is a JSON string.
pub proof fn lemma_json_str_is_literal(s: Seq<char>)
    ensures
        is_json_str_literal(json_str(s)),
{
    lemma_escape_str_body(s);
    let t = json_str(s);
    assert(t.subrange(1, t.len() - 1) =~= escape_str(s));
}

/// The literals of `v` separated by commas are the list that `json_items`
/// writes.
proof fn lemma_json_items_joined(v: Seq<Seq<char>>)
    ensures
        json_items(v) == comma_joined(v.map_values(|x: Seq<char>| json_str(x))),
    decreases v.len(),
{
    let m = v.map_values(|x: Seq<char>| json_str(x));
    if v.len() > 1 {
        lemma_json_items_joined(v.drop_first());
        assert(m.drop_first() =~= v.drop_first().map_values(|x: Seq<char>| json_str(x)));
    }
}

/// The array that `json_array` writes is a JSON array of strings.
pub proof fn lemma_json_array_is_flat(v: Seq<Seq<char>>)
    ensures
        is_json_str_array(json_array(v)),
{
    let items = v.map_values(|x: Seq<char>| json_str(x));
    lemma_json_items_joined(v);
    assert forall|i: int| 0 <= i < items.len() implies is_json_str_literal(#[trigger] items[i]) by {
        lemma_json_str_is_literal(v[i]);
    }
    assert(json_array(v) == seq!['['] + comma_joined(items) + seq![']']);
}


/// The value of a hexadecimal digit of either case, as JSON reads it.
pub open spec fn rfc_hex_value(d: char) -> int {
    if '0' <= d && d <= '9' {
        d as int - '0' as int
    } else if 'a' <= d && d <= 'f' {
        d as int - 'a' as int + 10
    } else {
        d as int - 'A' as int + 10
    }
}

/// The character that JSON reads for the one-letter escape `\l`, if `l` is
/// one.
pub open spec fn rfc_short_escape(l: char) -> Option<char> {
    if l == '"' {
        Some('"')
    } else if l == '\\' {
        Some('\\')
    } else if l == '/' {
        Some('/')
    } else if l == 'b' {
        Some('\u{8}')
    } else if l == 'f' {
        Some('\u{c}')
    } else if l == 'n' {
        Some('\n')
    } else if l == 'r' {
        Some('\r')
    } else if l == 't' {
        Some('\t')
    } else {
        None
    }
}

proof fn lemma_hex_digit_standard(n: int)
    requires
        0 <= n < 16,
    ensures
        is_hex_char(hex_digit(n)),
        rfc_hex_value(hex_digit(n)) == n,
{
}

/// Every character is written as standard JSON reads it back, in the form
/// serde_json writes: a character from U+0020 up other than `"` and `\` as
/// itself, and only those; `"`, `\` and the five control characters that
/// have one as a one-letter escape that stands for it; any other as `\u00`
/// and two lower-case hexadecimal digits whose value is its code.
pub proof fn law_escape_char_standard(c: char)
    ensures
        escape_char(c) == seq![c] <==> (c >= ' ' && c != '"' && c != '\\'),
        escape_char(c).len() == 1 || escape_char(c).len() == 2 || escape_char(c).len() == 6,
        escape_char(c).len() == 2 ==> escape_char(c)[0] == '\\' && rfc_short_escape(
            escape_char(c)[1],
        ) == Some(c),
        escape_char(c).len() == 6 ==> {
            let t = escape_char(c);
            &&& t[0] == '\\' && t[1] == 'u'
            &&& is_hex_char(t[2]) && is_hex_char(t[3]) && is_hex_char(t[4]) && is_hex_char(t[5])
            &&& rfc_hex_value(t[2]) * 4096 + rfc_hex_value(t[3]) * 256 + rfc_hex_value(t[4]) * 16
                + rfc_hex_value(t[5]) == c as int
            &&& t[2] == '0' && t[3] == '0'
            &&& !('A' <= t[4] && t[4] <= 'F') && !('A' <= t[5] && t[5] <= 'F')
        },
        escape_char(c).len() == 2 <==> (c == '"' || c == '\\' || c == '\u{8}' || c == '\u{c}'
            || c == '\n' || c == '\r' || c == '\t'),
{
    if (c as u32) < 0x20 && !(c == '\u{8}' || c == '\u{c}' || c == '\n' || c == '\r' || c
        == '\t') {
        let v = c as int;
        lemma_hex_digit_standard(v / 16);
        lemma_hex_digit_standard(v % 16);
        assert(escape_char(c) != seq![c]) by {
            assert(escape_char(c).len() == 6);
        }
    } else if c == '"' || c == '\\' || c == '\u{8}' || c == '\u{c}' || c == '\n' || c == '\r'
        || c == '\t' {
        assert(escape_char(c) != seq![c]) by {
            assert(escape_char(c).len() == 2);
        }
    }
}

} // verus!
