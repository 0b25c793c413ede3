use vstd::prelude::*;

verus! {

/// The pattern that finds the asset name in one entry of an exchange-rate list.
pub const SYMBOL_PATTERN: &'static str = "([a-z]+)";

/// The pattern that finds the rate in one entry of an exchange-rate list.
pub const RATE_PATTERN: &'static str = "([+-]?\\d+\\.?\\d*|\\.\\d+)";

/// Whether the regex crate's class `\d` (Unicode general category Nd, a table
/// of the Unicode data that the crate bundles) holds `c`. Only its value on
/// characters outside ASCII is used: on ASCII, `regex_digit` states it.
pub uninterp spec fn unicode_decimal_digit(c: char) -> bool;

/// The class `\d` as the regex crate has it, given as a predicate.
pub open spec fn decimal_class() -> spec_fn(char) -> bool {
    |c: char| unicode_decimal_digit(c)
}

/// A character in the class `[a-z]`.
pub open spec fn is_lower_ascii(c: char) -> bool {
    'a' <= c && c <= 'z'
}

/// A character in the class `\d`: an ASCII digit, or a character outside
/// ASCII that `nd` (the Unicode decimal digits) holds.
pub open spec fn regex_digit(c: char, nd: spec_fn(char) -> bool) -> bool {
    if (c as u32) < 0x80 {
        '0' <= c && c <= '9'
    } else {
        nd(c)
    }
}

/// The end of the run of `[a-z]` characters of `s` that starts at `i`.
pub open spec fn lower_run_end(s: Seq<char>, i: int) -> int
    decreases s.len() - i,
{
    if 0 <= i < s.len() && is_lower_ascii(s[i]) {
        lower_run_end(s, i + 1)
    } else {
        i
    }
}

/// The end of the run of `\d` characters of `s` that starts at `i`.
pub open spec fn digit_run_end(s: Seq<char>, i: int, nd: spec_fn(char) -> bool) -> int
    decreases s.len() - i,
{
    if 0 <= i < s.len() && regex_digit(s[i], nd) {
        digit_run_end(s, i + 1, nd)
    } else {
        i
    }
}

/// The leftmost match of `[a-z]+` in `s` at or after `p`: the longest run of
/// lower-case ASCII letters that starts at the first such letter.
pub open spec fn symbol_match_from(s: Seq<char>, p: int) -> Option<Seq<char>>
    decreases s.len() - p,
{
    if 0 <= p < s.len() {
        if is_lower_ascii(s[p]) {
            Some(s.subrange(p, lower_run_end(s, p)))
        } else {
            symbol_match_from(s, p + 1)
        }
    } else {
        None
    }
}

/// The leftmost match of `[a-z]+` in `s`.
pub open spec fn symbol_match(s: Seq<char>) -> Option<Seq<char>> {
    symbol_match_from(s, 0)
}

/// The end of the match of `[+-]?\d+\.?\d*|\.\d+` that starts at `p`, if one
/// does. The first alternative is preferred, and each repetition takes as much
/// as it can: an optional sign that a digit follows, the digits, a point if
/// one comes next, and the digits after it.
pub open spec fn rate_match_end_at(s: Seq<char>, p: int, nd: spec_fn(char) -> bool) -> Option<int> {
    if 0 <= p < s.len() {
        let q = if (s[p] == '+' || s[p] == '-') && p + 1 < s.len() && regex_digit(s[p + 1], nd) {
            p + 1
        } else {
            p
        };
        if regex_digit(s[q], nd) {
            let int_end = digit_run_end(s, q, nd);
            if int_end < s.len() && s[int_end] == '.' {
                Some(digit_run_end(s, int_end + 1, nd))
            } else {
                Some(int_end)
            }
        } else if s[p] == '.' && p + 1 < s.len() && regex_digit(s[p + 1], nd) {
            Some(digit_run_end(s, p + 1, nd))
        } else {
            None
        }
    } else {
        None
    }
}

/// The leftmost match of `[+-]?\d+\.?\d*|\.\d+` in `s` at or after `p`.
pub open spec fn rate_match_from(s: Seq<char>, p: int, nd: spec_fn(char) -> bool) -> Option<Seq<char>>
    decreases s.len() - p,
{
    if 0 <= p < s.len() {
        match rate_match_end_at(s, p, nd) {
            Some(e) => Some(s.subrange(p, e)),
            None => rate_match_from(s, p + 1, nd),
        }
    } else {
        None
    }
}

/// The leftmost match of `[+-]?\d+\.?\d*|\.\d+` in `s`.
pub open spec fn rate_match(s: Seq<char>) -> Option<Seq<char>> {
    rate_match_from(s, 0, decimal_class())
}

/// Compiles `pattern` with `regex::Regex::new` and returns the text of
/// `regex::Regex::find` on `haystack`. Claimed: for the two patterns of this
/// module, the result is the leftmost-first match that the regex crate
/// documents, as `symbol_match` and `rate_match` spell it out; the patterns
/// compile, so the call does not panic.
#[verifier::external_body]
fn regex_find(pattern: &str, haystack: &str) -> (found: Option<String>)
    requires
        pattern@ == SYMBOL_PATTERN@ || pattern@ == RATE_PATTERN@,
    ensures
        pattern@ == SYMBOL_PATTERN@ ==> match found {
            Some(m) => symbol_match(haystack@) == Some(m@),
            None => symbol_match(haystack@) is None,
        },
        pattern@ == RATE_PATTERN@ ==> match found {
            Some(m) => rate_match_from(haystack@, 0, |c: char| unicode_decimal_digit(c)) == Some(m@),
            None => rate_match_from(haystack@, 0, |c: char| unicode_decimal_digit(c)) is None,
        },
{
    let re = regex::Regex::new(pattern).unwrap();
    match re.find(haystack) {
        Some(m) => Some(m.as_str().to_string()),
        None => None,
    }
}

/// The asset name in one entry: the leftmost run of lower-case letters.
pub fn find_symbol(entry: &str) -> (found: Option<String>)
    ensures
        match found {
            Some(m) => symbol_match(entry@) == Some(m@),
            None => symbol_match(entry@) is None,
        },
{
    regex_find(SYMBOL_PATTERN, entry)
}

/// The rate in one entry: the leftmost decimal number.
pub fn find_rate(entry: &str) -> (found: Option<String>)
    ensures
        match found {
            Some(m) => rate_match(entry@) == Some(m@),
            None => rate_match(entry@) is None,
        },
{
    regex_find(RATE_PATTERN, entry)
}

} // verus!
