//! Bounded arithmetic for the layout calculator: rounding an offset up to an
//! alignment, and addition and multiplication that report when a result
//! exceeds the machine word.

use vstd::prelude::*;

verus! {

/// The smallest multiple of `a` that is at least `o`; `o` itself where `a`
/// is zero (callers demand `a >= 1`).
pub open spec fn round_up(o: nat, a: nat) -> nat {
    if a == 0 || o % a == 0 {
        o
    } else {
        (o + a - o % a) as nat
    }
}

/// Rounding up moves forward by less than one alignment and lands on a
/// multiple.
pub proof fn lemma_round_up(o: nat, a: nat)
    requires
        a >= 1,
    ensures
        round_up(o, a) >= o,
        round_up(o, a) < o + a,
        round_up(o, a) % a == 0,
{
    let r = o % a;
    vstd::arithmetic::div_mod::lemma_mod_bound(o as int, a as int);
    if r != 0 {
        vstd::arithmetic::div_mod::lemma_fundamental_div_mod(o as int, a as int);
        let q = o as int / a as int;
        assert(o + a - r == a * (q + 1)) by {
            assert(o == a * q + r);
            assert(a * (q + 1) == a * q + a) by (nonlinear_arith);
        }
        assert((a * (q + 1)) % (a as int) == 0) by {
            vstd::arithmetic::div_mod::lemma_mod_multiples_basic(q + 1, a as int);
        }
    }
}

/// The sum of two words, or `None` where it would not fit one.
pub fn add_sz(a: usize, b: usize) -> (r: Option<usize>)
    ensures
        r is Some <==> a + b <= usize::MAX,
        r is Some ==> r->0 == a + b,
{
    if a <= usize::MAX - b {
        Some(a + b)
    } else {
        None
    }
}

/// The product of two words, or `None` where it would not fit one.
pub fn mul_sz(a: usize, b: usize) -> (r: Option<usize>)
    ensures
        r is Some <==> a * b <= usize::MAX,
        r is Some ==> r->0 == a * b,
{
    if b == 0 {
        proof {
            assert(a * b == 0) by (nonlinear_arith)
                requires
                    b == 0,
            ;
        }
        Some(0)
    } else if a <= usize::MAX / b {
        proof {
            assert(a * b <= usize::MAX) by (nonlinear_arith)
                requires
                    b >= 1,
                    a <= usize::MAX / b,
            ;
        }
        Some(a * b)
    } else {
        proof {
            assert(a * b > usize::MAX) by (nonlinear_arith)
                requires
                    b >= 1,
                    a > usize::MAX / b,
            ;
        }
        None
    }
}

/// `o` rounded up to a multiple of `a`, or `None` where that would not fit
/// one word.
pub fn round_up_sz(o: usize, a: usize) -> (r: Option<usize>)
    requires
        a >= 1,
    ensures
        r is Some <==> round_up(o as nat, a as nat) <= usize::MAX,
        r is Some ==> r->0 == round_up(o as nat, a as nat),
{
    let rem = o % a;
    if rem == 0 {
        Some(o)
    } else {
        add_sz(o, a - rem)
    }
}

/// The larger of two words.
pub fn max_sz(a: usize, b: usize) -> (r: usize)
    ensures
        r == if a >= b {
            a as nat
        } else {
            b as nat
        },
{
    if a >= b {
        a
    } else {
        b
    }
}

/// The smaller of two words.
pub fn min_sz(a: usize, b: usize) -> (r: usize)
    ensures
        r == if a <= b {
            a as nat
        } else {
            b as nat
        },
{
    if a <= b {
        a
    } else {
        b
    }
}

} // verus!
