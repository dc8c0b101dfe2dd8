use vstd::prelude::*;

verus! {

/// Whether every character of `s` is an ASCII decimal digit.
pub open spec fn all_digits(s: Seq<char>) -> bool {
    forall|i: int| 0 <= i < s.len() ==> '0' <= #[trigger] s[i] <= '9'
}

/// The number that the decimal digits `s` write, most significant first.
pub open spec fn digits_value(s: Seq<char>) -> int
    decreases s.len(),
{
    if s.len() == 0 {
        0
    } else {
        digits_value(s.drop_last()) * 10 + (s.last() as int - '0' as int)
    }
}

/// The integer that `s` writes in decimal: an optional `+` or `-` sign and at
/// least one digit, nothing else.
pub open spec fn decimal_value(s: Seq<char>) -> Option<int> {
    let negative = s.len() > 0 && s[0] == '-';
    let signed = s.len() > 0 && (s[0] == '-' || s[0] == '+');
    let body = if signed { s.drop_first() } else { s };
    if body.len() > 0 && all_digits(body) {
        Some(if negative { -digits_value(body) } else { digits_value(body) })
    } else {
        None
    }
}

/// What parsing `s` as an `i32` gives: its decimal value where that fits.
pub open spec fn parsed_i32(s: Seq<char>) -> Option<i32> {
    match decimal_value(s) {
        Some(v) => if i32::MIN <= v <= i32::MAX {
            Some(v as i32)
        } else {
            None
        },
        None => None,
    }
}

/// Whether `c` has the Unicode `White_Space` property, which is what
/// `char::is_whitespace` tests.
pub open spec fn is_white_space(c: char) -> bool {
    ||| '\u{0009}' <= c <= '\u{000D}'
    ||| c == ' '
    ||| c == '\u{0085}'
    ||| c == '\u{00A0}'
    ||| c == '\u{1680}'
    ||| '\u{2000}' <= c <= '\u{200A}'
    ||| c == '\u{2028}'
    ||| c == '\u{2029}'
    ||| c == '\u{202F}'
    ||| c == '\u{205F}'
    ||| c == '\u{3000}'
}

/// `s` without its leading white space.
pub open spec fn trimmed_start(s: Seq<char>) -> Seq<char>
    decreases s.len(),
{
    if s.len() > 0 && is_white_space(s[0]) {
        trimmed_start(s.drop_first())
    } else {
        s
    }
}

/// `s` without its trailing white space.
pub open spec fn trimmed_end(s: Seq<char>) -> Seq<char>
    decreases s.len(),
{
    if s.len() > 0 && is_white_space(s.last()) {
        trimmed_end(s.drop_last())
    } else {
        s
    }
}

/// What `str::trim` leaves of a string: it removes leading and trailing
/// white space.
pub open spec fn trimmed(s: Seq<char>) -> Seq<char> {
    trimmed_end(trimmed_start(s))
}

/// Calls `str::trim`. Claims what std documents: leading and trailing
/// characters with the Unicode `White_Space` property are removed.
#[verifier::external_body]
pub(crate) fn trim(s: &str) -> (res: &str)
    ensures
        res@ == trimmed(s@),
{
    s.trim()
}

/// Calls `str::parse::<i32>` and keeps the value. Claims what std documents
/// of `i32::from_str`: an optional `+` or `-` followed by one or more ASCII
/// digits is accepted when the value fits in an `i32`, anything else is refused.
#[verifier::external_body]
pub(crate) fn parse_i32(s: &str) -> (res: Option<i32>)
    ensures
        res == parsed_i32(s@),
{
    s.parse::<i32>().ok()
}

/// What parsing `s` as a `usize` gives: its decimal value where that fits; an
/// unsigned number takes no `-` sign.
pub open spec fn parsed_usize(s: Seq<char>) -> Option<usize> {
    if s.len() > 0 && s[0] == '-' {
        None
    } else {
        match decimal_value(s) {
            Some(v) => if v <= usize::MAX {
                Some(v as usize)
            } else {
                None
            },
            None => None,
        }
    }
}

/// Calls `str::parse::<usize>` and keeps the value. Claims what std documents
/// of `usize::from_str`: an optional `+` followed by one or more ASCII digits
/// is accepted when the value fits in a `usize`, anything else is refused.
#[verifier::external_body]
pub(crate) fn parse_usize(s: &str) -> (res: Option<usize>)
    ensures
        res == parsed_usize(s@),
{
    s.parse::<usize>().ok()
}

/// Reads a board coordinate from a typed line: the line, trimmed, must be a
/// number that fits in a `usize`.
pub fn read_coordinate(input: &str) -> (res: Option<usize>)
    ensures
        res == parsed_usize(trimmed(input@)),
{
    parse_usize(trim(input))
}

} // verus!
