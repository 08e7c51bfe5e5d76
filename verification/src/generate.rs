//! Puzzle generation support: the randomness boundary, the permutation
//! facts it yields, the correctness proof of the Latin-square relabeling,
//! and the clue-removal pass.
//!
//! Randomness enters the library in exactly one place, the shuffle of a
//! vector; everything proved here holds for every order a shuffle can
//! produce.

use vstd::prelude::*;

use rand::seq::SliceRandom;

use crate::board::pattern_spec;
use crate::board::SIDE;
use crate::difficulties::Difficulties;
use crate::grid::cell;
use crate::grid::box_seq;
use crate::grid::box_valid;
use crate::grid::col_seq;
use crate::grid::col_valid;
use crate::grid::count_given;
use crate::grid::grid_valid;
use crate::grid::grid_wf;
use crate::grid::lemma_all_some_count;
use crate::grid::lemma_count_given_update;
use crate::grid::row_seq;
use crate::grid::row_valid;
use crate::grid::units_valid;

verus! {

/// A reduced modulus for small arguments: taking a value below 18 modulo 9
/// either keeps it or subtracts 9 once.
proof fn lemma_mod9_shift(x: int)
    requires
        0 <= x < 18,
    ensures
        x % 9 == if x < 9 {
            x
        } else {
            x - 9
        },
{
    if x < 9 {
        vstd::arithmetic::div_mod::lemma_small_mod(x as nat, 9);
    } else {
        vstd::arithmetic::div_mod::lemma_mod_add_multiples_vanish(x - 9, 9);
        vstd::arithmetic::div_mod::lemma_small_mod((x - 9) as nat, 9);
    }
}

/// The per-row offset `3 * (r % 3) + r / 3` distinguishes the nine rows.
proof fn lemma_row_code_inj(r1: int, r2: int)
    requires
        0 <= r1 < 9,
        0 <= r2 < 9,
        r1 != r2,
    ensures
        3 * (r1 % 3) + r1 / 3 != 3 * (r2 % 3) + r2 / 3,
{
    if 3 * (r1 % 3) + r1 / 3 == 3 * (r2 % 3) + r2 / 3 {
        assert(3 * (r1 % 3) - 3 * (r2 % 3) == r2 / 3 - r1 / 3);
        assert(r1 % 3 == r2 % 3 && r1 / 3 == r2 / 3);
        assert(r1 == 3 * (r1 / 3) + r1 % 3);
        assert(r2 == 3 * (r2 / 3) + r2 % 3);
    }
}

/// Within one row, the base pattern visits nine distinct values.
proof fn lemma_pattern_row_inj(r: int, c1: int, c2: int)
    requires
        0 <= r < 9,
        0 <= c1 < 9,
        0 <= c2 < 9,
        c1 != c2,
    ensures
        pattern_spec(r, c1) != pattern_spec(r, c2),
{
    let k = 3 * (r % 3) + r / 3;
    assert(0 <= k <= 8);
    lemma_mod9_shift(k + c1);
    lemma_mod9_shift(k + c2);
}

/// Within one column, the base pattern visits nine distinct values.
proof fn lemma_pattern_col_inj(c: int, r1: int, r2: int)
    requires
        0 <= c < 9,
        0 <= r1 < 9,
        0 <= r2 < 9,
        r1 != r2,
    ensures
        pattern_spec(r1, c) != pattern_spec(r2, c),
{
    let k1 = 3 * (r1 % 3) + r1 / 3;
    let k2 = 3 * (r2 % 3) + r2 / 3;
    assert(0 <= k1 <= 8 && 0 <= k2 <= 8);
    lemma_mod9_shift(k1 + c);
    lemma_mod9_shift(k2 + c);
    lemma_row_code_inj(r1, r2);
}

/// Within one box, the base pattern visits nine distinct values.
proof fn lemma_pattern_box_inj(r1: int, c1: int, r2: int, c2: int)
    requires
        0 <= r1 < 9,
        0 <= c1 < 9,
        0 <= r2 < 9,
        0 <= c2 < 9,
        r1 / 3 == r2 / 3,
        c1 / 3 == c2 / 3,
        r1 != r2 || c1 != c2,
    ensures
        pattern_spec(r1, c1) != pattern_spec(r2, c2),
{
    let a1 = 3 * (r1 % 3) + r1 / 3 + c1;
    let a2 = 3 * (r2 % 3) + r2 / 3 + c2;
    assert(0 <= a1 < 18 && 0 <= a2 < 18);
    lemma_mod9_shift(a1);
    lemma_mod9_shift(a2);
    if pattern_spec(r1, c1) == pattern_spec(r2, c2) {
        assert(a1 - a2 == -9 || a1 - a2 == 0 || a1 - a2 == 9);
        assert(c1 == 3 * (c1 / 3) + c1 % 3);
        assert(c2 == 3 * (c2 / 3) + c2 % 3);
        assert(a1 - a2 == 3 * ((r1 % 3) - (r2 % 3)) + ((c1 % 3) - (c2 % 3)));
        assert(-8 <= a1 - a2 <= 8);
        assert(3 * ((r1 % 3) - (r2 % 3)) + ((c1 % 3) - (c2 % 3)) == 0);
        assert(r1 % 3 == r2 % 3 && c1 % 3 == c2 % 3);
        assert(r1 == 3 * (r1 / 3) + r1 % 3);
        assert(r2 == 3 * (r2 / 3) + r2 % 3);
        assert(c1 == c2 && r1 == r2);
    }
}

/// What one cell of the generated solution holds: the digit drawn from the
/// shuffled digits at the base pattern's index.
pub(crate) open spec fn sol_cell(nums: Seq<usize>, rr: int, cc: int) -> Option<usize> {
    Some(nums[pattern_spec(rr, cc)])
}

/// Every cell of row `rr` already holds its solution digit.
pub(crate) open spec fn row_done(s: Seq<Option<usize>>, nums: Seq<usize>, rr: int) -> bool {
    forall|cc: int| 0 <= cc < 9 ==> #[trigger] cell(s, rr, cc) == sol_cell(nums, rr, cc)
}

/// A grid built as a relabeling of the base pattern by a permutation of
/// the nine digits is a correct grid.
pub(crate) proof fn lemma_pattern_grid_valid(s: Seq<Option<usize>>, nums: Seq<usize>)
    requires
        s.len() == 81,
        nums.len() == 9,
        nums.no_duplicates(),
        forall|i: int| 0 <= i < 9 ==> #[trigger] nums[i] < 9,
        forall|rr: int, cc: int|
            0 <= rr < 9 && 0 <= cc < 9 ==> #[trigger] cell(s, rr, cc) == sol_cell(nums, rr, cc),
    ensures
        grid_valid(s),
{
    assert forall|u: int| 0 <= u < 9 implies #[trigger] units_valid(s, u) by {
        let rs = row_seq(s, u);
        assert forall|k1: int, k2: int| 0 <= k1 < k2 < 9 implies rs[k1] != rs[k2] by {
            lemma_pattern_row_inj(u, k1, k2);
            assert(rs[k1] == cell(s, u, k1) && rs[k2] == cell(s, u, k2));
            assert(0 <= pattern_spec(u, k1) < 9 && 0 <= pattern_spec(u, k2) < 9);
        }
        assert forall|k: int| 0 <= k < 9 implies (#[trigger] rs[k]) is Some by {
            assert(rs[k] == cell(s, u, k));
        }
        assert(row_valid(s, u));
        let cs = col_seq(s, u);
        assert forall|k1: int, k2: int| 0 <= k1 < k2 < 9 implies cs[k1] != cs[k2] by {
            lemma_pattern_col_inj(u, k1, k2);
            assert(cs[k1] == cell(s, k1, u) && cs[k2] == cell(s, k2, u));
            assert(0 <= pattern_spec(k1, u) < 9 && 0 <= pattern_spec(k2, u) < 9);
        }
        assert forall|k: int| 0 <= k < 9 implies (#[trigger] cs[k]) is Some by {
            assert(cs[k] == cell(s, k, u));
        }
        assert(col_valid(s, u));
        let bs = box_seq(s, u);
        assert forall|k1: int, k2: int| 0 <= k1 < k2 < 9 implies bs[k1] != bs[k2] by {
            let r1 = (u / 3) * 3 + k1 / 3;
            let c1 = (u % 3) * 3 + k1 % 3;
            let r2 = (u / 3) * 3 + k2 / 3;
            let c2 = (u % 3) * 3 + k2 % 3;
            assert(r1 / 3 == u / 3 && r2 / 3 == u / 3);
            assert(c1 / 3 == u % 3 && c2 / 3 == u % 3);
            assert(r1 != r2 || c1 != c2);
            lemma_pattern_box_inj(r1, c1, r2, c2);
            assert(bs[k1] == cell(s, r1, c1) && bs[k2] == cell(s, r2, c2));
            assert(0 <= pattern_spec(r1, c1) < 9 && 0 <= pattern_spec(r2, c2) < 9);
        }
        assert forall|k: int| 0 <= k < 9 implies (#[trigger] bs[k]) is Some by {
            assert(bs[k] == cell(s, (u / 3) * 3 + k / 3, (u % 3) * 3 + k % 3));
        }
        assert(box_valid(s, u));
    }
}

/// The vector `[0, 1, ..., n - 1]`.
pub(crate) fn range_vec(n: usize) -> (r: Vec<usize>)
    ensures
        r@.len() == n,
        forall|i: int| 0 <= i < n ==> #[trigger] r@[i] == i,
{
    let mut v: Vec<usize> = Vec::new();
    for i in 0..n
        invariant
            v@.len() == i,
            forall|j: int| 0 <= j < i ==> #[trigger] v@[j] == j,
    {
        v.push(i);
    }
    v
}

/// Relies on rand's `SliceRandom::shuffle` with `thread_rng`: a
/// Fisher-Yates shuffle permutes the slice in place by swaps, so the
/// length and the multiset of elements are unchanged, whatever order
/// comes out.
#[verifier::external_body]
pub(crate) fn shuffle_values(v: &mut Vec<usize>)
    ensures
        final(v)@.len() == old(v)@.len(),
        final(v)@.to_multiset() == old(v)@.to_multiset(),
{
    v.shuffle(&mut rand::thread_rng());
}

/// A sequence whose multiset matches a duplicate-free sequence is itself
/// duplicate-free and holds exactly the same values.
proof fn lemma_multiset_perm(s: Seq<usize>, t: Seq<usize>)
    requires
        s.to_multiset() == t.to_multiset(),
        t.no_duplicates(),
    ensures
        s.len() == t.len(),
        s.no_duplicates(),
        forall|x: usize| s.contains(x) <==> t.contains(x),
{
    broadcast use vstd::seq_lib::group_to_multiset_ensures;

    assert(s.len() == s.to_multiset().len());
    assert(t.len() == t.to_multiset().len());
    t.lemma_multiset_has_no_duplicates();
    assert forall|x: usize| s.to_multiset().contains(x) implies s.to_multiset().count(x) == 1 by {
        assert(t.to_multiset().contains(x));
    }
    s.lemma_multiset_has_no_duplicates_conv();
    assert forall|x: usize| s.contains(x) <==> t.contains(x) by {
        assert(s.contains(x) <==> s.to_multiset().count(x) > 0);
        assert(t.contains(x) <==> t.to_multiset().count(x) > 0);
    }
}

/// What a shuffle of `[0, 1, ..., n - 1]` is: a duplicate-free sequence of
/// length `n` that holds every value below `n` and nothing else.
pub(crate) proof fn lemma_shuffled_range(s: Seq<usize>, n: int)
    requires
        0 <= n <= 81,
        s.to_multiset() == Seq::new(n as nat, |i: int| i as usize).to_multiset(),
    ensures
        s.len() == n,
        s.no_duplicates(),
        forall|i: int| 0 <= i < n ==> #[trigger] s[i] < n,
        forall|v: usize| v < n ==> s.contains(v),
{
    let t = Seq::new(n as nat, |i: int| i as usize);
    assert(t.no_duplicates()) by {
        assert forall|i: int, j: int|
            0 <= i < t.len() && 0 <= j < t.len() && i != j implies t[i] != t[j] by {
            assert(t[i] == i as usize && t[j] == j as usize);
        }
    }
    lemma_multiset_perm(s, t);
    assert forall|v: usize| v < n implies s.contains(v) by {
        assert(t[v as int] == v);
        assert(t.contains(v));
    }
    assert forall|i: int| 0 <= i < n implies #[trigger] s[i] < n by {
        assert(s.contains(s[i]));
        assert(t.contains(s[i]));
        let w = choose|w: int| 0 <= w < t.len() && t[w] == s[i];
        assert(t[w] == w as usize);
    }
}

/// The flat cell index that the removal loop clears for a drawn number
/// `v`: row `v % 9`, column `v / 9`.
pub open spec fn removal_target(v: int) -> int {
    (v % 9) * 9 + v / 9
}

/// Distinct drawn numbers clear distinct cells.
proof fn lemma_removal_target_inj(v1: int, v2: int)
    requires
        0 <= v1 < 81,
        0 <= v2 < 81,
        v1 != v2,
    ensures
        removal_target(v1) != removal_target(v2),
{
    if removal_target(v1) == removal_target(v2) {
        assert(v1 % 9 == v2 % 9 && v1 / 9 == v2 / 9);
        assert(v1 == 9 * (v1 / 9) + v1 % 9);
        assert(v2 == 9 * (v2 / 9) + v2 % 9);
    }
}

/// Used to remove values from the board: clears the cells drawn by a
/// uniformly random shuffle of all 81 cell numbers, as many as the
/// difficulty asks for, and returns that count.
pub(crate) fn removal(position: &mut Vec<Option<usize>>, diff: &Difficulties) -> (empties: usize)
    requires
        grid_wf(old(position)@),
        forall|i: int| 0 <= i < 81 ==> (#[trigger] old(position)@[i]) is Some,
    ensures
        grid_wf(final(position)@),
        empties == diff.spec_removed(),
        empties <= 60,
        count_given(final(position)@, 81) == 81 - empties,
        forall|i: int|
            0 <= i < 81 ==> ((#[trigger] final(position)@[i]) is Some ==> final(position)@[i]
                == old(position)@[i]),
{
    let squares = SIDE * SIDE;
    let empties = (squares * 3) / diff.value();
    proof {
        lemma_all_some_count(position@, 81);
        assert(empties == diff.spec_removed());
        assert(empties <= 60) by {
            match diff {
                Difficulties::Easy => assert(243usize / 16 == 15),
                Difficulties::Medium => assert(243usize / 8 == 30),
                Difficulties::Hard => assert(243usize / 4 == 60),
            }
        }
    }
    let mut vec = range_vec(squares);
    proof {
        assert(vec@ =~= Seq::new(81, |i: int| i as usize));
    }
    shuffle_values(&mut vec);
    proof {
        lemma_shuffled_range(vec@, 81);
    }
    for j in 0..empties
        invariant
            empties <= 60,
            vec@.len() == 81,
            vec@.no_duplicates(),
            forall|j0: int| 0 <= j0 < 81 ==> #[trigger] vec@[j0] < 81,
            position@.len() == 81,
            grid_wf(position@),
            count_given(position@, 81) == 81 - j,
            forall|t: int|
                0 <= t < 81 ==> ((#[trigger] position@[t]) is None <==> exists|j0: int|
                    0 <= j0 < j && removal_target(#[trigger] vec@[j0] as int) == t),
            forall|t: int|
                0 <= t < 81 ==> ((#[trigger] position@[t]) is Some ==> position@[t] == old(
                    position,
                )@[t]),
    {
        let each = vec[j];
        let idx = (each % SIDE) * 9 + each / SIDE;
        proof {
            assert(idx == removal_target(vec@[j as int] as int));
            assert(position@[idx as int] is Some) by {
                if position@[idx as int] is None {
                    let j0 = choose|j0: int|
                        0 <= j0 < j && removal_target(#[trigger] vec@[j0] as int) == idx;
                    lemma_removal_target_inj(vec@[j0] as int, vec@[j as int] as int);
                }
            }
            lemma_count_given_update(position@, 81, idx as int, None);
        }
        let ghost prev = position@;
        position.set(idx, None);
        proof {
            assert forall|t: int| 0 <= t < 81 implies ((#[trigger] position@[t]) is None
                <==> exists|j0: int|
                0 <= j0 < j + 1 && removal_target(#[trigger] vec@[j0] as int) == t) by {
                if t == idx {
                    assert(removal_target(vec@[j as int] as int) == t);
                } else {
                    assert(position@[t] == prev[t]);
                    if position@[t] is None {
                        let j0 = choose|j0: int|
                            0 <= j0 < j && removal_target(#[trigger] vec@[j0] as int) == t;
                        assert(0 <= j0 < j + 1 && removal_target(vec@[j0] as int) == t);
                    } else {
                        if exists|j0: int|
                            0 <= j0 < j + 1 && removal_target(#[trigger] vec@[j0] as int) == t {
                            let j0 = choose|j0: int|
                                0 <= j0 < j + 1 && removal_target(#[trigger] vec@[j0] as int) == t;
                            assert(j0 < j);
                            assert(prev[t] is None);
                        }
                    }
                }
            }
        }
    }
    empties
}

} // verus!
