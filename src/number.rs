//! Unsigned decimal tokens.
use vstd::prelude::*;

use crate::decimal::dec_digits;

verus! {

/// Every byte is an ASCII digit.
pub open spec fn all_digits(t: Seq<u8>) -> bool {
    forall|i: int| 0 <= i < t.len() ==> 48 <= #[trigger] t[i] <= 57
}

/// The number that a run of digits denotes.
pub open spec fn dec_value(t: Seq<u8>) -> nat
    decreases t.len(),
{
    if t.len() == 0 {
        0
    } else {
        dec_value(t.drop_last()) * 10 + (t.last() - 48) as nat
    }
}

/// A token without its one optional leading `+`.
pub open spec fn unsigned_part(t: Seq<u8>) -> Seq<u8> {
    if t.len() > 0 && t[0] == 43 {
        t.drop_first()
    } else {
        t
    }
}

/// The value of a token read as a decimal number no larger than `max`, if it
/// is one: an optional `+`, then one or more digits.
pub open spec fn number_of(t: Seq<u8>, max: nat) -> Option<nat> {
    let d = unsigned_part(t);
    if d.len() > 0 && all_digits(d) && dec_value(d) <= max {
        Some(dec_value(d))
    } else {
        None
    }
}

proof fn lemma_prefix_value_le(t: Seq<u8>, i: int)
    requires
        all_digits(t),
        0 <= i <= t.len(),
    ensures
        dec_value(t.take(i)) <= dec_value(t),
    decreases t.len(),
{
    if i < t.len() {
        assert(t.take(i) =~= t.drop_last().take(i));
        lemma_prefix_value_le(t.drop_last(), i);
    } else {
        assert(t.take(i) =~= t);
    }
}

/// Reads a token as a decimal number no larger than `max`.
pub fn parse_number(t: &Vec<u8>, max: usize) -> (r: Option<usize>)
    ensures
        match number_of(t@, max as nat) {
            Some(v) => r == Some(v as usize),
            None => r is None,
        },
{
    let start: usize = if t.len() > 0 && t[0] == 43 {
        1
    } else {
        0
    };
    let ghost d = unsigned_part(t@);
    assert(d =~= t@.skip(start as int));
    if start == t.len() {
        return None;
    }
    let mut acc: usize = 0;
    let mut i: usize = start;
    while i < t.len()
        invariant
            start <= i <= t.len(),
            d == t@.skip(start as int),
            d == unsigned_part(t@),
            all_digits(d.take(i - start)),
            acc as nat == dec_value(d.take(i - start)),
            acc <= max,
        decreases t.len() - i,
    {
        let c = t[i];
        assert(d[i - start] == c);
        if c < 48 || c > 57 {
            assert(!(48 <= d[(i - start) as int] <= 57));
            assert(!all_digits(d));
            return None;
        }
        let dg = (c - 48) as usize;
        let ghost pre = d.take(i + 1 - start);
        assert(pre.drop_last() =~= d.take(i - start));
        assert(pre.last() == c);
        assert(dec_value(pre) == acc * 10 + dg);
        assert(all_digits(pre)) by {
            assert forall|k: int| 0 <= k < pre.len() implies 48 <= #[trigger] pre[k] <= 57 by {
                if k < pre.len() - 1 {
                    assert(pre[k] == d.take(i - start)[k]);
                }
            }
        }
        if dg > max || acc > (max - dg) / 10 {
            assert(acc * 10 + dg > max) by (nonlinear_arith)
                requires
                    dg > max || acc > (max - dg) / 10,
                    dg <= max ==> (max - dg) / 10 * 10 + 10 > max - dg,
            ;
            proof {
                if all_digits(d) {
                    lemma_prefix_value_le(d, i + 1 - start);
                }
            }
            return None;
        }
        assert(acc * 10 + dg <= max) by (nonlinear_arith)
            requires
                acc <= (max - dg) / 10,
                dg <= max,
        ;
        acc = acc * 10 + dg;
        i += 1;
    }
    assert(d.take(i - start) =~= d);
    Some(acc)
}

/// The digits of `n` read back give `n`.
pub proof fn lemma_digits_value(n: nat)
    ensures
        all_digits(dec_digits(n)),
        dec_value(dec_digits(n)) == n,
        dec_digits(n).len() > 0,
        unsigned_part(dec_digits(n)) == dec_digits(n),
    decreases n,
{
    lemma_digits_only(n);
    if n >= 10 {
        lemma_digits_value(n / 10);
        assert(dec_digits(n).drop_last() =~= dec_digits(n / 10));
        assert(dec_digits(n).last() == (n % 10 + 48) as u8);
        assert(n == (n / 10) * 10 + n % 10);
        let d = dec_digits(n);
        assert((d.last() - 48) as nat == n % 10);
        assert(dec_value(d) == dec_value(d.drop_last()) * 10 + (d.last() - 48) as nat);
    } else {
        let d = dec_digits(n);
        assert(d.drop_last() =~= Seq::<u8>::empty());
        assert(d.last() == (n + 48) as u8);
        assert((d.last() - 48) as nat == n);
        assert(dec_value(d) == dec_value(d.drop_last()) * 10 + (d.last() - 48) as nat);
    }
}

proof fn lemma_digits_only(n: nat)
    ensures
        all_digits(dec_digits(n)),
        dec_digits(n).len() > 0,
    decreases n,
{
    if n >= 10 {
        lemma_digits_only(n / 10);
        assert forall|i: int| 0 <= i < dec_digits(n).len() implies 48 <= #[trigger] dec_digits(
            n,
        )[i] <= 57 by {
            if i < dec_digits(n / 10).len() {
                assert(dec_digits(n)[i] == dec_digits(n / 10)[i]);
            }
        }
    }
}

/// Numbers up to 255 take at most three digits.
pub proof fn lemma_byte_digits_len(n: nat)
    requires
        n <= 255,
    ensures
        dec_digits(n).len() <= 3,
{
    if n >= 10 {
        if n >= 100 {
            assert(dec_digits(n / 10 / 10).len() == 1);
        }
        assert(dec_digits(n / 10).len() <= 2);
    }
}

} // verus!
