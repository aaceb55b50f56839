//! Decimal strings for unsigned wide integers.
//!
//! Fees are persisted as decimal strings.  This module defines the
//! mathematical decimal form of a number (`dec_of`), the value of a digit
//! string (`val_of`), and verified rendering and parsing between `u128`
//! and such strings.

use vstd::prelude::*;
use vstd::string::StringExecFns;
use vstd::string::StrSliceExecFns;

use crate::errors::QueryError;

verus! {

/// The character for one decimal digit value.
pub open spec fn char_of_digit(d: nat) -> char {
    if d == 0 { '0' }
    else if d == 1 { '1' }
    else if d == 2 { '2' }
    else if d == 3 { '3' }
    else if d == 4 { '4' }
    else if d == 5 { '5' }
    else if d == 6 { '6' }
    else if d == 7 { '7' }
    else if d == 8 { '8' }
    else if d == 9 { '9' }
    else { '0' }
}

/// The canonical decimal form of a natural number: no sign, no leading
/// zero except for the number zero itself.
pub open spec fn dec_of(n: nat) -> Seq<char>
    decreases n,
{
    if n < 10 {
        seq![char_of_digit(n)]
    } else {
        dec_of(n / 10).push(char_of_digit(n % 10))
    }
}

/// The last `width` decimal digits of a number, zero-padded on the left.
pub open spec fn pad_of(n: nat, width: nat) -> Seq<char>
    decreases width,
{
    if width == 0 {
        Seq::empty()
    } else {
        pad_of(n / 10, (width - 1) as nat).push(char_of_digit(n % 10))
    }
}

pub open spec fn is_digit_char(c: char) -> bool {
    48 <= c as int <= 57
}

pub open spec fn digit_of_char(c: char) -> nat {
    (c as int - 48) as nat
}

pub open spec fn all_digits(s: Seq<char>) -> bool {
    forall|i: int| 0 <= i < s.len() ==> is_digit_char(#[trigger] s[i])
}

/// The positional value of a digit string.
pub open spec fn val_of(s: Seq<char>) -> nat
    decreases s.len(),
{
    if s.len() == 0 {
        0
    } else {
        val_of(s.drop_last()) * 10 + digit_of_char(s.last())
    }
}

/// `dec_of` yields digits only, never empty, without a leading zero, and
/// `val_of` recovers the number it was built from.
pub proof fn lemma_dec_of_props(n: nat)
    ensures
        all_digits(dec_of(n)),
        dec_of(n).len() >= 1,
        dec_of(n).len() > 1 ==> dec_of(n)[0] != '0',
        val_of(dec_of(n)) == n,
        n < 10 <==> dec_of(n).len() == 1,
    decreases n,
{
    if n < 10 {
        let s = dec_of(n);
        assert(s.drop_last() =~= Seq::<char>::empty());
        assert(val_of(s.drop_last()) == 0);
        assert(val_of(s) == digit_of_char(char_of_digit(n)));
    } else {
        lemma_dec_of_props(n / 10);
        let s = dec_of(n);
        let p = dec_of(n / 10);
        assert(s == p.push(char_of_digit(n % 10)));
        assert(s.drop_last() =~= p);
        assert(s.last() == char_of_digit(n % 10));
        assert(digit_of_char(char_of_digit(n % 10)) == n % 10);
        assert(val_of(s) == (n / 10) * 10 + n % 10);
        assert((n / 10) * 10 + n % 10 == n) by {
            vstd::arithmetic::div_mod::lemma_fundamental_div_mod(n as int, 10);
        }
        assert(forall|i: int| 0 <= i < s.len() ==> is_digit_char(#[trigger] s[i]));
        assert(s[0] == p[0]);
    }
}

/// Appends one decimal digit character to a string.
fn append_digit(s: &mut String, d: u8)
    requires
        d < 10,
    ensures
        final(s)@ == old(s)@ + seq![char_of_digit(d as nat)],
{
    proof {
        reveal_strlit("0");
        reveal_strlit("1");
        reveal_strlit("2");
        reveal_strlit("3");
        reveal_strlit("4");
        reveal_strlit("5");
        reveal_strlit("6");
        reveal_strlit("7");
        reveal_strlit("8");
        reveal_strlit("9");
    }
    if d == 0 { s.append("0"); }
    else if d == 1 { s.append("1"); }
    else if d == 2 { s.append("2"); }
    else if d == 3 { s.append("3"); }
    else if d == 4 { s.append("4"); }
    else if d == 5 { s.append("5"); }
    else if d == 6 { s.append("6"); }
    else if d == 7 { s.append("7"); }
    else if d == 8 { s.append("8"); }
    else { s.append("9"); }
    proof {
        assert(s@ =~= old(s)@ + seq![char_of_digit(d as nat)]);
    }
}

/// Appends the canonical decimal form of `n`.
pub fn push_dec(s: &mut String, n: u128)
    ensures
        final(s)@ == old(s)@ + dec_of(n as nat),
    decreases n,
{
    if n < 10 {
        append_digit(s, n as u8);
    } else {
        push_dec(s, n / 10);
        append_digit(s, (n % 10) as u8);
        proof {
            assert(s@ =~= old(s)@ + dec_of(n as nat));
        }
    }
}

/// Appends the last `width` decimal digits of `n`, zero-padded.
pub fn push_dec_padded(s: &mut String, n: u128, width: u8)
    ensures
        final(s)@ == old(s)@ + pad_of(n as nat, width as nat),
    decreases width,
{
    if width > 0 {
        push_dec_padded(s, n / 10, width - 1);
        append_digit(s, (n % 10) as u8);
        proof {
            assert(s@ =~= old(s)@ + pad_of(n as nat, width as nat));
        }
    } else {
        proof {
            assert(s@ =~= old(s)@ + pad_of(n as nat, 0));
        }
    }
}

/// Renders `n` as its canonical decimal string.
pub fn u128_to_string(n: u128) -> (r: String)
    ensures
        r@ == dec_of(n as nat),
{
    let mut s = String::new();
    push_dec(&mut s, n);
    proof {
        assert(s@ =~= dec_of(n as nat));
    }
    s
}

/// The value of every digit-string prefix is bounded by the value of any
/// longer prefix.
pub proof fn lemma_val_take_monotone(s: Seq<char>, i: int, j: int)
    requires
        0 <= i <= j <= s.len(),
    ensures
        val_of(s.take(i)) <= val_of(s.take(j)),
    decreases j - i,
{
    if i < j {
        lemma_val_take_monotone(s, i, j - 1);
        assert(s.take(j).drop_last() =~= s.take(j - 1));
        assert(val_of(s.take(j)) == val_of(s.take(j - 1)) * 10 + digit_of_char(s.take(j).last()));
        assert(val_of(s.take(j - 1)) * 10 >= val_of(s.take(j - 1))) by {
            vstd::arithmetic::mul::lemma_mul_inequality(1, 10, val_of(s.take(j - 1)) as int);
        }
    }
}

/// Parses a decimal string into a `u128`.
///
/// Succeeds exactly on non-empty all-digit strings whose value fits; a
/// malformed string yields `FeeParse` and a too-large value `FeeOverflow`.
pub fn parse_u128(s: &str) -> (r: Result<u128, QueryError>)
    ensures
        match r {
            Ok(v) => {
                &&& s@.len() > 0
                &&& all_digits(s@)
                &&& v as nat == val_of(s@)
            },
            Err(QueryError::FeeParse) => s@.len() == 0 || !all_digits(s@),
            Err(QueryError::FeeOverflow) => all_digits(s@) && val_of(s@) > u128::MAX,
            Err(_) => false,
        },
{
    let n = s.unicode_len();
    if n == 0 {
        return Err(QueryError::FeeParse);
    }
    let mut acc: u128 = 0;
    let mut i: usize = 0;
    while i < n
        invariant
            0 < n == s@.len(),
            0 <= i <= n,
            all_digits(s@.take(i as int)),
            acc as nat == val_of(s@.take(i as int)),
        decreases n - i,
    {
        let c = s.get_char(i);
        let code = c as u32;
        if code < 48 || code > 57 {
            assert(!is_digit_char(s@[i as int]));
            return Err(QueryError::FeeParse);
        }
        let d = (code - 48) as u128;
        proof {
            assert(s@.take(i + 1).drop_last() =~= s@.take(i as int));
            assert(s@.take(i + 1).last() == s@[i as int]);
            assert(is_digit_char(s@[i as int]));
            assert(digit_of_char(s@[i as int]) == d as nat);
        }
        let step = match acc.checked_mul(10) {
            Some(t) => t.checked_add(d),
            None => None,
        };
        match step {
            Some(v) => {
                acc = v;
            },
            None => {
                proof {
                    assert(val_of(s@.take(i + 1)) > u128::MAX);
                    lemma_val_take_monotone(s@, i + 1, s@.len() as int);
                    assert(s@.take(s@.len() as int) =~= s@);
                    assert(!all_digits(s@) || val_of(s@) > u128::MAX);
                    if all_digits(s@) {
                        assert(val_of(s@) > u128::MAX);
                    }
                }
                if all_digits_exec(s, i + 1) {
                    return Err(QueryError::FeeOverflow);
                } else {
                    return Err(QueryError::FeeParse);
                }
            },
        }
        i = i + 1;
    }
    proof {
        assert(s@.take(n as int) =~= s@);
    }
    Ok(acc)
}

/// Checks that every character of `s` from position `from` on is a digit.
fn all_digits_exec(s: &str, from: usize) -> (r: bool)
    requires
        from <= s@.len(),
        all_digits(s@.take(from as int)),
    ensures
        r == all_digits(s@),
{
    let n = s.unicode_len();
    let mut i: usize = from;
    while i < n
        invariant
            from <= i <= n == s@.len(),
            all_digits(s@.take(i as int)),
        decreases n - i,
    {
        let c = s.get_char(i);
        let code = c as u32;
        if code < 48 || code > 57 {
            assert(!is_digit_char(s@[i as int]));
            return false;
        }
        proof {
            assert(s@.take(i + 1).drop_last() =~= s@.take(i as int));
            assert(forall|k: int| 0 <= k < i + 1 ==> is_digit_char(#[trigger] s@.take(i + 1)[k]));
        }
        i = i + 1;
    }
    proof {
        assert(s@.take(n as int) =~= s@);
    }
    true
}

} // verus!
