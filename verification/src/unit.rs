//! Executable unit inference: from the sequence of content-line levels to
//! the detected indentation unit.

use crate::model::{
    as_nats, detected_unit, gcd_fold, gcd_nat, indent_unit, level_diff, nonzero_levels,
    opt_as_nat, step_diffs,
};
use vstd::prelude::*;

verus! {

/// Computes the greatest common divisor of two numbers.
fn gcd(a0: usize, b0: usize) -> (r: usize)
    ensures
        r as nat == gcd_nat(a0 as nat, b0 as nat),
{
    let mut a: usize = a0;
    let mut b: usize = b0;
    while b != 0
        invariant
            gcd_nat(a as nat, b as nat) == gcd_nat(a0 as nat, b0 as nat),
        decreases b,
    {
        let t: usize = b;
        b = a % b;
        a = t;
    }
    a
}

/// A greatest common divisor with 1 stays 1.
proof fn lemma_gcd_one(x: nat)
    ensures
        gcd_nat(1, x) == 1,
{
    if x == 1 {
        assert(gcd_nat(1, 1) == gcd_nat(1, 0));
    } else if x > 1 {
        vstd::arithmetic::div_mod::lemma_small_mod(1, x);
        assert(gcd_nat(1, x) == gcd_nat(x, 1));
        assert(x % 1 == 0);
        assert(gcd_nat(x, 1) == gcd_nat(1, 0));
    }
}

/// Folding a greatest common divisor of 1 over any sequence yields 1.
proof fn lemma_gcd_fold_one(s: Seq<nat>)
    ensures
        gcd_fold(1, s) == 1,
    decreases s.len(),
{
    if s.len() > 0 {
        lemma_gcd_one(s[0]);
        lemma_gcd_fold_one(s.drop_first());
    }
}

/// Finds the indentation unit from a list of indentation levels: the
/// greatest common divisor of all level changes and of the non-zero levels
/// themselves, or nothing when every level is 0.
pub(crate) fn find_indentation_unit(levels: &Vec<usize>) -> (r: Option<usize>)
    ensures
        opt_as_nat(r) == detected_unit(as_nats(levels@)),
{
    let ghost lv: Seq<nat> = as_nats(levels@);
    let n: usize = levels.len();

    // Record every change of level, walking from an implicit level 0.
    let mut diffs: Vec<usize> = Vec::new();
    let mut prev: usize = 0;
    let mut idx: usize = 0;
    let mut any_nonzero = false;
    proof {
        assert(lv.skip(0) =~= lv);
        assert(as_nats(diffs@) =~= Seq::<nat>::empty());
    }
    while idx < n
        invariant
            idx <= n,
            n == levels@.len(),
            lv == as_nats(levels@),
            prev as nat == (if idx == 0 {
                0nat
            } else {
                lv[idx as int - 1]
            }),
            step_diffs(lv, 0) == as_nats(diffs@) + step_diffs(lv.skip(idx as int), prev as nat),
            any_nonzero <==> exists|t: int| 0 <= t < idx && lv[t] != 0,
        decreases n - idx,
    {
        let cur: usize = levels[idx];
        proof {
            assert(lv[idx as int] == cur as nat);
            assert(lv.skip(idx as int)[0] == lv[idx as int]);
            assert(lv.skip(idx as int).drop_first() =~= lv.skip(idx as int + 1));
        }
        if cur != prev {
            let d: usize = if cur > prev {
                cur - prev
            } else {
                prev - cur
            };
            proof {
                assert(d as nat == level_diff(cur as nat, prev as nat));
            }
            let ghost old_diffs = as_nats(diffs@);
            diffs.push(d);
            proof {
                assert(as_nats(diffs@) =~= old_diffs + seq![d as nat]);
                assert((old_diffs + seq![d as nat]) + step_diffs(lv.skip(idx as int + 1), cur as nat)
                    =~= old_diffs + (seq![d as nat] + step_diffs(lv.skip(idx as int + 1), cur as nat)));
            }
        } else {
            proof {
                assert(Seq::<nat>::empty() + step_diffs(lv.skip(idx as int + 1), cur as nat)
                    =~= step_diffs(lv.skip(idx as int + 1), cur as nat));
            }
        }
        if cur != 0 {
            any_nonzero = true;
        }
        prev = cur;
        idx += 1;
    }
    proof {
        assert(lv.skip(n as int) =~= Seq::<nat>::empty());
        assert(as_nats(diffs@) + Seq::<nat>::empty() =~= as_nats(diffs@));
        assert(step_diffs(lv, 0) == as_nats(diffs@));
    }

    if !any_nonzero {
        // Every content line sits at column 0: no indentation signal.
        return None;
    }

    // The non-zero levels themselves also witness the unit: append them.
    let mut k: usize = 0;
    proof {
        assert(lv.skip(0) =~= lv);
    }
    while k < n
        invariant
            k <= n,
            n == levels@.len(),
            lv == as_nats(levels@),
            step_diffs(lv, 0) + nonzero_levels(lv) == as_nats(diffs@) + nonzero_levels(
                lv.skip(k as int),
            ),
        decreases n - k,
    {
        let cur: usize = levels[k];
        proof {
            assert(lv.skip(k as int)[0] == lv[k as int]);
            assert(lv.skip(k as int).drop_first() =~= lv.skip(k as int + 1));
        }
        if cur != 0 {
            let ghost old_diffs = as_nats(diffs@);
            diffs.push(cur);
            proof {
                assert(as_nats(diffs@) =~= old_diffs + seq![cur as nat]);
                assert((old_diffs + seq![cur as nat]) + nonzero_levels(lv.skip(k as int + 1))
                    =~= old_diffs + (seq![cur as nat] + nonzero_levels(lv.skip(k as int + 1))));
            }
        } else {
            proof {
                assert(Seq::<nat>::empty() + nonzero_levels(lv.skip(k as int + 1)) =~= nonzero_levels(
                    lv.skip(k as int + 1),
                ));
            }
        }
        k += 1;
    }
    proof {
        assert(lv.skip(n as int) =~= Seq::<nat>::empty());
        assert(as_nats(diffs@) + Seq::<nat>::empty() =~= as_nats(diffs@));
        assert(as_nats(diffs@) == step_diffs(lv, 0) + nonzero_levels(lv));
    }

    // Reduce everything with an iterated greatest common divisor. A running
    // value of 1 can only stay 1, so stop early there: one-space indentation
    // is unusual but legitimate.
    let ghost all: Seq<nat> = as_nats(diffs@);
    let mut result: usize = 0;
    let mut t: usize = 0;
    proof {
        assert(all.skip(0) =~= all);
    }
    while t < diffs.len() && result != 1
        invariant
            t <= diffs@.len(),
            all == as_nats(diffs@),
            gcd_fold(0, all) == gcd_fold(result as nat, all.skip(t as int)),
            result == 1 ==> gcd_fold(0, all) == 1,
        decreases diffs@.len() - t,
    {
        proof {
            assert(all.skip(t as int)[0] == all[t as int]);
            assert(all.skip(t as int).drop_first() =~= all.skip(t as int + 1));
        }
        result = gcd(result, diffs[t]);
        t += 1;
        proof {
            if result == 1 {
                lemma_gcd_fold_one(all.skip(t as int));
            }
        }
    }
    proof {
        if result != 1 {
            assert(all.skip(t as int) =~= Seq::<nat>::empty());
        }
        assert(gcd_fold(0, all) == result as nat);
        assert(indent_unit(lv) == result as nat);
    }

    if result == 0 {
        // Cannot happen once a non-zero level exists; kept as the stated
        // normalization of a zero unit to the absence of a signal.
        None
    } else {
        Some(result)
    }
}

} // verus!
