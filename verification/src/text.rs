//! Text helpers of std that vstd gives no specification, each behind one
//! trusted wrapper.

use vstd::prelude::*;

verus! {

/// `String::push`: appends the character `c` to `s`.
#[verifier::external_body]
pub(crate) fn push_char(s: &mut String, c: char)
    ensures
        final(s)@ == old(s)@.push(c),
{
    s.push(c);
}

/// `str::chars` collected into a vector: the characters of `s`, in order.
#[verifier::external_body]
pub(crate) fn chars_of(s: &str) -> (r: Vec<char>)
    ensures
        r@ == s@,
{
    s.chars().collect()
}


/// JSON whitespace: space, tab, line feed, carriage return.
pub open spec fn is_json_ws(c: char) -> bool {
    c == ' ' || c == '\t' || c == '\n' || c == '\r'
}

/// `s` without its leading JSON whitespace.
pub open spec fn trim_json_ws_start(s: Seq<char>) -> Seq<char>
    decreases s.len(),
{
    if s.len() > 0 && is_json_ws(s[0]) {
        trim_json_ws_start(s.drop_first())
    } else {
        s
    }
}

/// `s` without its trailing JSON whitespace.
pub open spec fn trim_json_ws_end(s: Seq<char>) -> Seq<char>
    decreases s.len(),
{
    if s.len() > 0 && is_json_ws(s.last()) {
        trim_json_ws_end(s.drop_last())
    } else {
        s
    }
}

/// `s` without its leading and trailing JSON whitespace.
pub open spec fn trim_json_ws(s: Seq<char>) -> Seq<char> {
    trim_json_ws_end(trim_json_ws_start(s))
}

/// Text that neither starts nor ends with JSON whitespace is its own trim.
pub proof fn lemma_trim_json_ws_noop(s: Seq<char>)
    requires
        s.len() > 0,
        !is_json_ws(s[0]),
        !is_json_ws(s.last()),
    ensures
        trim_json_ws(s) == s,
{
}

/// Whether `c` has the Unicode property White_Space, by which `str::trim`
/// decides what to remove.
pub open spec fn is_unicode_ws(c: char) -> bool {
    ||| '\u{9}' <= c && c <= '\u{d}'
    ||| c == ' '
    ||| c == '\u{85}'
    ||| c == '\u{a0}'
    ||| c == '\u{1680}'
    ||| '\u{2000}' <= c && c <= '\u{200a}'
    ||| c == '\u{2028}'
    ||| c == '\u{2029}'
    ||| c == '\u{202f}'
    ||| c == '\u{205f}'
    ||| c == '\u{3000}'
}

/// `s` without its leading Unicode white space.
pub open spec fn trim_unicode_ws_start(s: Seq<char>) -> Seq<char>
    decreases s.len(),
{
    if s.len() > 0 && is_unicode_ws(s[0]) {
        trim_unicode_ws_start(s.drop_first())
    } else {
        s
    }
}

/// `s` without its trailing Unicode white space.
pub open spec fn trim_unicode_ws_end(s: Seq<char>) -> Seq<char>
    decreases s.len(),
{
    if s.len() > 0 && is_unicode_ws(s.last()) {
        trim_unicode_ws_end(s.drop_last())
    } else {
        s
    }
}

/// The text of `str::trim` of `s`: `s` without leading and trailing Unicode
/// white space.
pub open spec fn spec_trim(s: Seq<char>) -> Seq<char> {
    trim_unicode_ws_end(trim_unicode_ws_start(s))
}

/// `str::trim`, whose documentation states that it removes leading and
/// trailing white space as the Unicode property White_Space defines it.
#[verifier::external_body]
pub(crate) fn trim(s: &str) -> (r: &str)
    ensures
        r@ == spec_trim(s@),
{
    s.trim()
}

/// Whether `c` is an ASCII decimal digit.
pub open spec fn is_digit(c: char) -> bool {
    '0' <= c && c <= '9'
}

/// The value of a nonempty run of decimal digits.
pub open spec fn digits_value(s: Seq<char>) -> int
    decreases s.len(),
{
    if s.len() == 0 {
        0
    } else {
        digits_value(s.drop_last()) * 10 + (s.last() as int - '0' as int)
    }
}

/// Whether `s` is one or more ASCII decimal digits.
pub open spec fn all_digits(s: Seq<char>) -> bool {
    s.len() > 0 && forall|i: int| 0 <= i < s.len() ==> is_digit(#[trigger] s[i])
}

/// What `str::parse::<i32>` gives: an optional `+` or `-` sign followed by
/// only digits, whose value fits in an `i32`.
pub open spec fn spec_parse_i32(s: Seq<char>) -> Option<i32> {
    let neg = s.len() > 0 && s[0] == '-';
    let body = if s.len() > 0 && (s[0] == '-' || s[0] == '+') {
        s.drop_first()
    } else {
        s
    };
    let v = if neg {
        -digits_value(body)
    } else {
        digits_value(body)
    };
    if all_digits(body) && i32::MIN <= v <= i32::MAX {
        Some(v as i32)
    } else {
        None
    }
}

/// What `str::parse::<u16>` gives: an optional `+` sign followed by only
/// digits, whose value fits in a `u16`.
pub open spec fn spec_parse_u16(s: Seq<char>) -> Option<u16> {
    let body = if s.len() > 0 && s[0] == '+' {
        s.drop_first()
    } else {
        s
    };
    if all_digits(body) && digits_value(body) <= u16::MAX {
        Some(digits_value(body) as u16)
    } else {
        None
    }
}

#[verifier::external_type_specification]
#[verifier::external_body]
pub struct ExParseIntError(std::num::ParseIntError);

/// `str::parse::<i32>`, whose documentation states: an optional `+` or `-`
/// sign followed by only digits; any other character, and a value out of
/// range, is an error.
#[verifier::external_body]
pub(crate) fn parse_i32(s: &str) -> (r: Result<i32, std::num::ParseIntError>)
    ensures
        match spec_parse_i32(s@) {
            Some(n) => r matches Ok(m) && m == n,
            None => r is Err,
        },
{
    s.parse::<i32>()
}

/// `str::parse::<u16>`, whose documentation states: an optional `+` sign
/// followed by only digits; any other character, and a value out of range,
/// is an error.
#[verifier::external_body]
pub(crate) fn parse_u16(s: &str) -> (r: Option<u16>)
    ensures
        r == spec_parse_u16(s@),
{
    s.parse::<u16>().ok()
}

/// The text of `Path::new(base).join(segment)`.
pub uninterp spec fn spec_path_join(base: Seq<char>, segment: Seq<char>) -> Seq<char>;

/// Whether `s` is a nonempty path that does not end with the separator `/`.
pub open spec fn ends_in_name(s: Seq<char>) -> bool {
    s.len() > 0 && s.last() != '/'
}

/// Whether `s` is a path that does not start at the root `/`.
pub open spec fn is_relative(s: Seq<char>) -> bool {
    s.len() == 0 || s[0] != '/'
}

/// `Path::join` on two UTF-8 paths, given back as text (lossless, as both
/// are UTF-8). Its documentation gives, on Unix, where this program runs (it
/// detaches itself by `fork`): an absolute `segment` replaces `base`, and a
/// relative one is adjoined to a `base` that ends in a name with one `/`
/// between them. What it gives for an empty `base` or one that ends with `/`
/// is left to the name.
#[verifier::external_body]
pub(crate) fn path_join(base: &str, segment: &str) -> (r: String)
    ensures
        r@ == spec_path_join(base@, segment@),
        !is_relative(segment@) ==> r@ == segment@,
        ends_in_name(base@) && is_relative(segment@) ==> r@ == base@ + seq!['/'] + segment@,
{
    std::path::Path::new(base).join(segment).to_string_lossy().into_owned()
}

} // verus!
