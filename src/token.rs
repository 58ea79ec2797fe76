//! Turning a token into a typed value.
//!
//! A type that can be read from a token implements [`FromToken`]; its
//! `token_value` says exactly which tokens it accepts and what they denote.
//! Integers follow the usual decimal syntax: an optional `+` (or `-`, for
//! signed types) followed by one or more ASCII digits, within the type's range.
use vstd::prelude::*;

verus! {

/// The view of an optional value.
pub open spec fn view_opt<T: View>(o: Option<T>) -> Option<T::V> {
    match o {
        Some(v) => Some(v@),
        None => None,
    }
}

/// A type whose values can be read from a token.
pub trait FromToken: Sized + View {
    /// What the token `tok` denotes, or `None` when it is not a valid value.
    spec fn token_value(tok: Seq<char>) -> Option<Self::V>;

    /// Reads a value from the token `tok`.
    fn from_token(tok: &[char]) -> (r: Option<Self>)
        ensures
            view_opt(r) == Self::token_value(tok@),
    ;
}

pub open spec fn is_digit(c: char) -> bool {
    '0' <= c && c <= '9'
}

pub open spec fn digit_value(c: char) -> int {
    c as int - '0' as int
}

pub open spec fn all_digits(s: Seq<char>) -> bool {
    forall|i: int| 0 <= i < s.len() ==> is_digit(#[trigger] s[i])
}

/// The number that the digits `s` spell in base ten.
pub open spec fn digits_value(s: Seq<char>) -> int
    decreases s.len(),
{
    if s.len() == 0 {
        0
    } else {
        digits_value(s.drop_last()) * 10 + digit_value(s.last())
    }
}

/// The number spelt by a non-empty run of digits.
pub open spec fn unsigned_value(s: Seq<char>) -> Option<int> {
    if s.len() > 0 && all_digits(s) {
        Some(digits_value(s))
    } else {
        None
    }
}

/// The integer that `s` spells in decimal, with an optional leading `+`, or a
/// leading `-` when `signed`.
pub open spec fn decimal_value(s: Seq<char>, signed: bool) -> Option<int> {
    if s.len() > 0 && s[0] == '+' {
        unsigned_value(s.drop_first())
    } else if s.len() > 0 && s[0] == '-' && signed {
        match unsigned_value(s.drop_first()) {
            Some(v) => Some(-v),
            None => None,
        }
    } else {
        unsigned_value(s)
    }
}

/// The integer that `s` spells, when it lies within `lo..=hi` (negative
/// numbers are spelt only where `lo` is negative).
pub open spec fn integer_in(s: Seq<char>, lo: int, hi: int) -> Option<int> {
    match decimal_value(s, lo < 0) {
        Some(v) => if lo <= v <= hi {
            Some(v)
        } else {
            None
        },
        None => None,
    }
}

proof fn lemma_digits_nonneg(s: Seq<char>)
    requires
        all_digits(s),
    ensures
        digits_value(s) >= 0,
    decreases s.len(),
{
    if s.len() > 0 {
        assert(is_digit(s[s.len() - 1]));
        lemma_digits_nonneg(s.drop_last());
    }
}

/// A run of digits is worth at least as much as any prefix of it.
proof fn lemma_digits_prefix(s: Seq<char>, k: int)
    requires
        all_digits(s),
        0 <= k <= s.len(),
    ensures
        digits_value(s.subrange(0, k)) <= digits_value(s),
    decreases s.len() - k,
{
    if k == s.len() {
        assert(s.subrange(0, k) =~= s);
    } else {
        let t = s.drop_last();
        assert(is_digit(s[s.len() - 1]));
        lemma_digits_prefix(t, k);
        assert(t.subrange(0, k) =~= s.subrange(0, k));
        lemma_digits_nonneg(t);
    }
}

/// Reads the integer that `tok` spells, if it lies within `-lo_mag..=hi`,
/// as a sign (`true` for negative) and a magnitude.
pub fn parse_integer(tok: &[char], lo_mag: u128, hi: u128) -> (r: Option<(bool, u128)>)
    requires
        hi > 0,
    ensures
        match r {
            Some((neg, m)) => integer_in(tok@, -(lo_mag as int), hi as int) == Some(
                if neg {
                    -(m as int)
                } else {
                    m as int
                },
            ),
            None => integer_in(tok@, -(lo_mag as int), hi as int) is None,
        },
{
    let ghost lo = -(lo_mag as int);
    let n = tok.len();
    if n == 0 {
        return None;
    }
    let mut start: usize = 0;
    let mut neg = false;
    if tok[0] == '+' {
        start = 1;
    } else if tok[0] == '-' && lo_mag > 0 {
        start = 1;
        neg = true;
    }
    let ghost u = tok@.subrange(start as int, n as int);
    assert(start == 1 ==> u =~= tok@.drop_first());
    assert(start == 0 ==> u =~= tok@);
    if start == n {
        return None;
    }
    let limit: u128 = if neg {
        lo_mag
    } else {
        hi
    };
    let mut acc: u128 = 0;
    let mut i: usize = start;
    while i < n
        invariant
            start <= i <= n == tok@.len(),
            u == tok@.subrange(start as int, n as int),
            lo == -(lo_mag as int),
            all_digits(u.subrange(0, i - start)),
            acc == digits_value(u.subrange(0, i - start)),
            acc <= limit,
            neg ==> lo < 0 && limit == lo_mag && decimal_value(tok@, lo < 0) == match unsigned_value(
                u,
            ) {
                Some(v) => Some(-v),
                None => None,
            },
            !neg ==> limit == hi && decimal_value(tok@, lo < 0) == unsigned_value(u),
        decreases n - i,
    {
        let c = tok[i];
        let ghost p = u.subrange(0, i - start + 1);
        assert(p.drop_last() =~= u.subrange(0, i - start));
        assert(p.last() == c);
        if !('0' <= c && c <= '9') {
            assert(!all_digits(u)) by {
                assert(u[i - start] == c);
            }
            return None;
        }
        let d: u128 = (c as u32 - '0' as u32) as u128;
        let next: Option<u128> = match acc.checked_mul(10) {
            Some(t) => t.checked_add(d),
            None => None,
        };
        match next {
            Some(x) if x <= limit => {
                acc = x;
            },
            _ => {
                proof {
                    if all_digits(u) {
                        lemma_digits_prefix(u, i - start + 1);
                    }
                }
                return None;
            },
        }
        i = i + 1;
    }
    assert(u.subrange(0, n - start) =~= u);
    Some((neg, acc))
}

impl FromToken for String {
    /// Every token is a valid string: the token itself.
    open spec fn token_value(tok: Seq<char>) -> Option<Seq<char>> {
        Some(tok)
    }

    fn from_token(tok: &[char]) -> (r: Option<String>) {
        Some(crate::text::string_of(tok))
    }
}

impl FromToken for char {
    /// A token of exactly one character.
    open spec fn token_value(tok: Seq<char>) -> Option<char> {
        if tok.len() == 1 {
            Some(tok[0])
        } else {
            None
        }
    }

    fn from_token(tok: &[char]) -> (r: Option<char>) {
        if tok.len() == 1 {
            Some(tok[0])
        } else {
            None
        }
    }
}

impl FromToken for bool {
    /// Exactly `true` or `false`.
    open spec fn token_value(tok: Seq<char>) -> Option<bool> {
        if tok == seq!['t', 'r', 'u', 'e'] {
            Some(true)
        } else if tok == seq!['f', 'a', 'l', 's', 'e'] {
            Some(false)
        } else {
            None
        }
    }

    fn from_token(tok: &[char]) -> (r: Option<bool>) {
        if tok.len() == 4 && tok[0] == 't' && tok[1] == 'r' && tok[2] == 'u' && tok[3] == 'e' {
            assert(tok@ =~= seq!['t', 'r', 'u', 'e']);
            Some(true)
        } else if tok.len() == 5 && tok[0] == 'f' && tok[1] == 'a' && tok[2] == 'l' && tok[3]
            == 's' && tok[4] == 'e' {
            assert(tok@ =~= seq!['f', 'a', 'l', 's', 'e']);
            Some(false)
        } else {
            assert(tok@ != seq!['t', 'r', 'u', 'e'] ==> tok@.len() != 4 || tok@[0] != 't' || tok@[1]
                != 'r' || tok@[2] != 'u' || tok@[3] != 'e');
            None
        }
    }
}

impl FromToken for i8 {
    open spec fn token_value(tok: Seq<char>) -> Option<i8> {
        match integer_in(tok, i8::MIN as int, i8::MAX as int) {
            Some(v) => Some(v as i8),
            None => None,
        }
    }

    fn from_token(tok: &[char]) -> (r: Option<i8>) {
        match parse_integer(tok, i8::MAX as u128 + 1, i8::MAX as u128) {
            Some((neg, m)) => Some(
                if neg {
                    (0 - m as i128) as i8
                } else {
                    m as i8
                },
            ),
            None => None,
        }
    }
}

impl FromToken for i16 {
    open spec fn token_value(tok: Seq<char>) -> Option<i16> {
        match integer_in(tok, i16::MIN as int, i16::MAX as int) {
            Some(v) => Some(v as i16),
            None => None,
        }
    }

    fn from_token(tok: &[char]) -> (r: Option<i16>) {
        match parse_integer(tok, i16::MAX as u128 + 1, i16::MAX as u128) {
            Some((neg, m)) => Some(
                if neg {
                    (0 - m as i128) as i16
                } else {
                    m as i16
                },
            ),
            None => None,
        }
    }
}

impl FromToken for i32 {
    open spec fn token_value(tok: Seq<char>) -> Option<i32> {
        match integer_in(tok, i32::MIN as int, i32::MAX as int) {
            Some(v) => Some(v as i32),
            None => None,
        }
    }

    fn from_token(tok: &[char]) -> (r: Option<i32>) {
        match parse_integer(tok, i32::MAX as u128 + 1, i32::MAX as u128) {
            Some((neg, m)) => Some(
                if neg {
                    (0 - m as i128) as i32
                } else {
                    m as i32
                },
            ),
            None => None,
        }
    }
}

impl FromToken for i64 {
    open spec fn token_value(tok: Seq<char>) -> Option<i64> {
        match integer_in(tok, i64::MIN as int, i64::MAX as int) {
            Some(v) => Some(v as i64),
            None => None,
        }
    }

    fn from_token(tok: &[char]) -> (r: Option<i64>) {
        match parse_integer(tok, i64::MAX as u128 + 1, i64::MAX as u128) {
            Some((neg, m)) => Some(
                if neg {
                    (0 - m as i128) as i64
                } else {
                    m as i64
                },
            ),
            None => None,
        }
    }
}

impl FromToken for isize {
    open spec fn token_value(tok: Seq<char>) -> Option<isize> {
        match integer_in(tok, isize::MIN as int, isize::MAX as int) {
            Some(v) => Some(v as isize),
            None => None,
        }
    }

    fn from_token(tok: &[char]) -> (r: Option<isize>) {
        match parse_integer(tok, isize::MAX as u128 + 1, isize::MAX as u128) {
            Some((neg, m)) => Some(
                if neg {
                    (0 - m as i128) as isize
                } else {
                    m as isize
                },
            ),
            None => None,
        }
    }
}

impl FromToken for i128 {
    open spec fn token_value(tok: Seq<char>) -> Option<i128> {
        match integer_in(tok, i128::MIN as int, i128::MAX as int) {
            Some(v) => Some(v as i128),
            None => None,
        }
    }

    fn from_token(tok: &[char]) -> (r: Option<i128>) {
        match parse_integer(tok, i128::MAX as u128 + 1, i128::MAX as u128) {
            Some((neg, m)) => Some(
                if !neg {
                    m as i128
                } else if m == i128::MAX as u128 + 1 {
                    i128::MIN
                } else {
                    -(m as i128)
                },
            ),
            None => None,
        }
    }
}

impl FromToken for u8 {
    open spec fn token_value(tok: Seq<char>) -> Option<u8> {
        match integer_in(tok, 0, u8::MAX as int) {
            Some(v) => Some(v as u8),
            None => None,
        }
    }

    fn from_token(tok: &[char]) -> (r: Option<u8>) {
        match parse_integer(tok, 0, u8::MAX as u128) {
            Some((_, m)) => Some(m as u8),
            None => None,
        }
    }
}

impl FromToken for u16 {
    open spec fn token_value(tok: Seq<char>) -> Option<u16> {
        match integer_in(tok, 0, u16::MAX as int) {
            Some(v) => Some(v as u16),
            None => None,
        }
    }

    fn from_token(tok: &[char]) -> (r: Option<u16>) {
        match parse_integer(tok, 0, u16::MAX as u128) {
            Some((_, m)) => Some(m as u16),
            None => None,
        }
    }
}

impl FromToken for u32 {
    open spec fn token_value(tok: Seq<char>) -> Option<u32> {
        match integer_in(tok, 0, u32::MAX as int) {
            Some(v) => Some(v as u32),
            None => None,
        }
    }

    fn from_token(tok: &[char]) -> (r: Option<u32>) {
        match parse_integer(tok, 0, u32::MAX as u128) {
            Some((_, m)) => Some(m as u32),
            None => None,
        }
    }
}

impl FromToken for u64 {
    open spec fn token_value(tok: Seq<char>) -> Option<u64> {
        match integer_in(tok, 0, u64::MAX as int) {
            Some(v) => Some(v as u64),
            None => None,
        }
    }

    fn from_token(tok: &[char]) -> (r: Option<u64>) {
        match parse_integer(tok, 0, u64::MAX as u128) {
            Some((_, m)) => Some(m as u64),
            None => None,
        }
    }
}

impl FromToken for usize {
    open spec fn token_value(tok: Seq<char>) -> Option<usize> {
        match integer_in(tok, 0, usize::MAX as int) {
            Some(v) => Some(v as usize),
            None => None,
        }
    }

    fn from_token(tok: &[char]) -> (r: Option<usize>) {
        match parse_integer(tok, 0, usize::MAX as u128) {
            Some((_, m)) => Some(m as usize),
            None => None,
        }
    }
}

impl FromToken for u128 {
    open spec fn token_value(tok: Seq<char>) -> Option<u128> {
        match integer_in(tok, 0, u128::MAX as int) {
            Some(v) => Some(v as u128),
            None => None,
        }
    }

    fn from_token(tok: &[char]) -> (r: Option<u128>) {
        match parse_integer(tok, 0, u128::MAX as u128) {
            Some((_, m)) => Some(m as u128),
            None => None,
        }
    }
}

} // verus!
