//! Numbers that people type.

use vstd::prelude::*;
use vstd::string::StrSliceExecFns;

verus! {

pub open spec fn is_digit(c: char) -> bool {
    '0' <= c && c <= '9'
}

/// The number that a text of decimal digits spells.
pub open spec fn digits_value(s: Seq<char>) -> nat
    decreases s.len(),
{
    if s.len() == 0 {
        0
    } else {
        digits_value(s.drop_last()) * 10 + (s.last() as int - '0' as int) as nat
    }
}

/// A text without a leading plus sign.
pub open spec fn unsigned_part(s: Seq<char>) -> Seq<char> {
    if s.len() > 0 && s[0] == '+' {
        s.skip(1)
    } else {
        s
    }
}

/// The 64-bit number that a text spells: digits, at least one, perhaps behind a plus sign.
pub open spec fn u64_in(s: Seq<char>) -> Option<u64> {
    let digits = unsigned_part(s);
    if digits.len() > 0 && (forall|i: int| 0 <= i < digits.len() ==> is_digit(
        #[trigger] digits[i],
    )) && digits_value(digits) <= u64::MAX {
        Some(digits_value(digits) as u64)
    } else {
        None
    }
}

proof fn lemma_digits_grow(s: Seq<char>, n: int)
    requires
        0 <= n <= s.len(),
    ensures
        digits_value(s.take(n)) <= digits_value(s),
    decreases s.len(),
{
    if n < s.len() {
        lemma_digits_grow(s.drop_last(), n);
        assert(s.drop_last().take(n) =~= s.take(n));
    } else {
        assert(s.take(n) =~= s);
    }
}

/// Reads a 64-bit number; `None` where the text spells none.
pub fn parse_u64(text: &str) -> (n: Option<u64>)
    ensures
        n == u64_in(text@),
{
    let len: usize = text.unicode_len();
    let start: usize = if len > 0 && text.get_char(0) == '+' {
        1
    } else {
        0
    };
    let ghost digits = unsigned_part(text@);
    if start == len {
        return None;
    }
    let mut value: u64 = 0;
    let mut i: usize = start;
    assert(digits.take(0) =~= Seq::<char>::empty());
    while i < len
        invariant
            start <= i <= len == text@.len(),
            digits == unsigned_part(text@),
            start == text@.len() - digits.len(),
            forall|k: int| 0 <= k < digits.len() ==> digits[k] == text@[start + k],
            forall|k: int| 0 <= k < i - start ==> is_digit(#[trigger] digits[k]),
            value == digits_value(digits.take(i - start)),
        decreases len - i,
    {
        let c: char = text.get_char(i);
        let ghost k = i - start;
        assert(digits[k] == c);
        if !('0' <= c && c <= '9') {
            assert(!is_digit(digits[k]));
            return None;
        }
        let d: u64 = (c as u32 - '0' as u32) as u64;
        proof {
            assert(digits.take(k + 1).drop_last() =~= digits.take(k));
            assert(digits_value(digits.take(k + 1)) == value * 10 + d);
            lemma_digits_grow(digits, k + 1);
        }
        if value > u64::MAX / 10 || value * 10 > u64::MAX - d {
            return None;
        }
        value = value * 10 + d;
        i += 1;
    }
    assert(digits.take(i - start) =~= digits);
    Some(value)
}

/// Numbers are read as decimals: one more digit makes ten times the number and that digit, where
/// that still fits; anything but a digit makes the text no number. A plus sign in front changes
/// nothing.
pub proof fn numbers_are_read_as_decimals(s: Seq<char>, c: char)
    requires
        s.len() > 0,
        is_digit(s[0]),
    ensures
        is_digit(c) && u64_in(s) is Some ==> {
            let n = u64_in(s)->0 * 10 + (c as int - '0' as int);
            u64_in(s.push(c)) == (if n <= u64::MAX {
                Some(n as u64)
            } else {
                None
            })
        },
        !is_digit(c) ==> u64_in(s.push(c)) is None,
        u64_in(seq!['+'] + s) == u64_in(s),
        u64_in(seq!['0']) == Some(0u64),
        is_digit(c) ==> u64_in(seq![c]) == Some((c as int - '0' as int) as u64),
{
    let t = s.push(c);
    assert(t.drop_last() =~= s);
    assert(unsigned_part(t) == t && unsigned_part(s) == s);
    assert((seq!['+'] + s).skip(1) =~= s);
    if u64_in(s) is Some && is_digit(c) {
        assert(forall|i: int| 0 <= i < t.len() ==> is_digit(#[trigger] t[i]));
    }
    if !is_digit(c) {
        assert(!is_digit(t[s.len() as int]));
    }
    reveal_with_fuel(digits_value, 2);
    assert(seq!['0'].drop_last() =~= Seq::<char>::empty());
    assert(seq![c].drop_last() =~= Seq::<char>::empty());
}

} // verus!
