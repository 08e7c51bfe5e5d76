//! The mathematical model of a 9x9 grid of optional digits, and the
//! verified bit-mask scan used by the validation methods.
//!
//! A grid is a flat sequence of 81 optional digit values in row-major
//! order; the cell at row `r` and column `c` sits at index `r * 9 + c`.
//! A unit (a row, a column, or a 3x3 box) is correct when its nine cells
//! are all present and pairwise distinct.

use vstd::prelude::*;
use vstd::set_lib::lemma_len_subset;
use vstd::set_lib::lemma_int_range;
use vstd::set_lib::set_int_range;

verus! {

/// The cell of a row-major grid sequence at row `r`, column `c`.
pub open spec fn cell(s: Seq<Option<usize>>, r: int, c: int) -> Option<usize> {
    s[r * 9 + c]
}

/// A well-formed grid sequence: 81 cells, every present value below 9.
pub open spec fn grid_wf(s: Seq<Option<usize>>) -> bool {
    &&& s.len() == 81
    &&& forall|i: int| 0 <= i < 81 ==> ((#[trigger] s[i]) matches Some(v) ==> v < 9)
}

/// Nine cells of one unit: all present and pairwise distinct.
pub open spec fn unit_valid(vals: Seq<Option<usize>>) -> bool {
    &&& forall|k: int| 0 <= k < 9 ==> (#[trigger] vals[k]) is Some
    &&& forall|k1: int, k2: int| 0 <= k1 < k2 < 9 ==> vals[k1] != vals[k2]
}

/// The nine cells of row `r`, ordered by column.
pub open spec fn row_seq(s: Seq<Option<usize>>, r: int) -> Seq<Option<usize>> {
    Seq::new(9, |c: int| cell(s, r, c))
}

/// The nine cells of column `c`, ordered by row.
pub open spec fn col_seq(s: Seq<Option<usize>>, c: int) -> Seq<Option<usize>> {
    Seq::new(9, |r: int| cell(s, r, c))
}

/// The nine cells of box `b`, ordered by cell-in-box index.
pub open spec fn box_seq(s: Seq<Option<usize>>, b: int) -> Seq<Option<usize>> {
    Seq::new(9, |p: int| cell(s, (b / 3) * 3 + p / 3, (b % 3) * 3 + p % 3))
}

/// Row `r` of the grid is correct.
pub open spec fn row_valid(s: Seq<Option<usize>>, r: int) -> bool {
    unit_valid(row_seq(s, r))
}

/// Column `c` of the grid is correct.
pub open spec fn col_valid(s: Seq<Option<usize>>, c: int) -> bool {
    unit_valid(col_seq(s, c))
}

/// Box `b` of the grid is correct.
pub open spec fn box_valid(s: Seq<Option<usize>>, b: int) -> bool {
    unit_valid(box_seq(s, b))
}

/// Row, column and box number `u` are all correct.
pub open spec fn units_valid(s: Seq<Option<usize>>, u: int) -> bool {
    row_valid(s, u) && col_valid(s, u) && box_valid(s, u)
}

/// The whole grid is correct: every row, column and box is correct, which
/// means each of them holds every digit 0..=8 exactly once.
pub open spec fn grid_valid(s: Seq<Option<usize>>) -> bool {
    forall|u: int| 0 <= u < 9 ==> #[trigger] units_valid(s, u)
}

/// Number of present cells among the first `n` cells of `g`.
pub open spec fn count_given(g: Seq<Option<usize>>, n: int) -> int
    decreases n,
{
    if n <= 0 {
        0
    } else {
        count_given(g, n - 1) + if g[n - 1] is Some {
            1int
        } else {
            0int
        }
    }
}

/// Number of player-entered cells among the first `n`: cells absent in the
/// given grid `g` but present in the entry grid `e`.
pub open spec fn count_entered(g: Seq<Option<usize>>, e: Seq<Option<usize>>, n: int) -> int
    decreases n,
{
    if n <= 0 {
        0
    } else {
        count_entered(g, e, n - 1) + if g[n - 1] is None && e[n - 1] is Some {
            1int
        } else {
            0int
        }
    }
}

pub proof fn lemma_count_given_bounds(g: Seq<Option<usize>>, n: int)
    ensures
        0 <= count_given(g, n) <= if n <= 0 { 0int } else { n },
    decreases n,
{
    if n > 0 {
        lemma_count_given_bounds(g, n - 1);
    }
}

pub proof fn lemma_count_entered_bounds(g: Seq<Option<usize>>, e: Seq<Option<usize>>, n: int)
    ensures
        0 <= count_entered(g, e, n) <= if n <= 0 { 0int } else { n },
    decreases n,
{
    if n > 0 {
        lemma_count_entered_bounds(g, e, n - 1);
    }
}

/// A prefix of all-present cells counts fully.
pub proof fn lemma_all_some_count(g: Seq<Option<usize>>, n: int)
    requires
        forall|i: int| 0 <= i < n ==> (#[trigger] g[i]) is Some,
    ensures
        count_given(g, n) == if n <= 0 { 0int } else { n },
    decreases n,
{
    if n > 0 {
        lemma_all_some_count(g, n - 1);
    }
}

/// The count over a prefix only reads that prefix.
pub proof fn lemma_count_given_agree(g: Seq<Option<usize>>, h: Seq<Option<usize>>, n: int)
    requires
        forall|i: int| 0 <= i < n ==> g[i] == h[i],
    ensures
        count_given(g, n) == count_given(h, n),
    decreases n,
{
    if n > 0 {
        lemma_count_given_agree(g, h, n - 1);
    }
}

pub proof fn lemma_count_entered_agree(
    g: Seq<Option<usize>>,
    e: Seq<Option<usize>>,
    g2: Seq<Option<usize>>,
    e2: Seq<Option<usize>>,
    n: int,
)
    requires
        forall|i: int| 0 <= i < n ==> g[i] == g2[i] && e[i] == e2[i],
    ensures
        count_entered(g, e, n) == count_entered(g2, e2, n),
    decreases n,
{
    if n > 0 {
        lemma_count_entered_agree(g, e, g2, e2, n - 1);
    }
}

/// Updating one cell changes the count by the difference of the old and
/// new cell's contribution.
pub proof fn lemma_count_given_update(g: Seq<Option<usize>>, n: int, i: int, v: Option<usize>)
    requires
        0 <= i < n <= g.len(),
    ensures
        count_given(g.update(i, v), n) == count_given(g, n) - (if g[i] is Some {
            1int
        } else {
            0int
        }) + (if v is Some {
            1int
        } else {
            0int
        }),
    decreases n,
{
    let g2 = g.update(i, v);
    if i == n - 1 {
        lemma_count_given_agree(g2, g, n - 1);
    } else {
        lemma_count_given_update(g, n - 1, i, v);
    }
}

/// Updating one entry cell changes the entered count by the difference of
/// the old and new cell's contribution; the given grid is unchanged.
pub proof fn lemma_count_entered_update(
    g: Seq<Option<usize>>,
    e: Seq<Option<usize>>,
    n: int,
    i: int,
    v: Option<usize>,
)
    requires
        0 <= i < n <= e.len(),
    ensures
        count_entered(g, e.update(i, v), n) == count_entered(g, e, n) - (if g[i] is None
            && e[i] is Some {
            1int
        } else {
            0int
        }) + (if g[i] is None && v is Some {
            1int
        } else {
            0int
        }),
    decreases n,
{
    let e2 = e.update(i, v);
    if i == n - 1 {
        lemma_count_entered_agree(g, e2, g, e, n - 1);
    } else {
        lemma_count_entered_update(g, e, n - 1, i, v);
    }
}

/// When the entry grid coincides with the given grid, nothing counts as
/// entered.
pub proof fn lemma_count_entered_self(g: Seq<Option<usize>>, n: int)
    ensures
        count_entered(g, g, n) == 0,
    decreases n,
{
    if n > 0 {
        lemma_count_entered_self(g, n - 1);
    }
}

/// Appending a cell extends the count by that cell's contribution.
pub proof fn lemma_count_given_push(g: Seq<Option<usize>>, v: Option<usize>)
    ensures
        count_given(g.push(v), g.len() as int + 1) == count_given(g, g.len() as int) + (if v is Some {
            1int
        } else {
            0int
        }),
{
    lemma_count_given_agree(g.push(v), g, g.len() as int);
    assert(g.push(v)[g.len() as int] == v);
}

/// Appending one cell to both grids extends the entered count by that
/// cell's contribution.
pub proof fn lemma_count_entered_push(
    g: Seq<Option<usize>>,
    e: Seq<Option<usize>>,
    gv: Option<usize>,
    ev: Option<usize>,
)
    requires
        g.len() == e.len(),
    ensures
        count_entered(g.push(gv), e.push(ev), g.len() as int + 1) == count_entered(
            g,
            e,
            g.len() as int,
        ) + (if gv is None && ev is Some {
            1int
        } else {
            0int
        }),
{
    lemma_count_entered_agree(g.push(gv), e.push(ev), g, e, g.len() as int);
    assert(g.push(gv)[g.len() as int] == gv);
    assert(e.push(ev)[e.len() as int] == ev);
}

/// One witness of an entered cell makes the entered count positive.
pub proof fn lemma_count_entered_pos(
    g: Seq<Option<usize>>,
    e: Seq<Option<usize>>,
    n: int,
    i: int,
)
    requires
        0 <= i < n,
        g[i] is None,
        e[i] is Some,
    ensures
        count_entered(g, e, n) >= 1,
    decreases n,
{
    lemma_count_entered_bounds(g, e, n - 1);
    if i < n - 1 {
        lemma_count_entered_pos(g, e, n - 1, i);
    }
}

/// A grid filled entirely with one repeated digit is not correct: already
/// its first row holds the digit twice.
pub proof fn lemma_uniform_grid_invalid(s: Seq<Option<usize>>, d: usize)
    requires
        s.len() == 81,
        forall|i: int| 0 <= i < 81 ==> #[trigger] s[i] == Some(d),
    ensures
        !grid_valid(s),
{
    let rs = row_seq(s, 0);
    assert(rs[0] == cell(s, 0, 0) && rs[1] == cell(s, 0, 1));
    assert(rs[0] == Some(d) && rs[1] == Some(d));
    if unit_valid(rs) {
        assert(rs[0] != rs[1]);
    }
    assert(!units_valid(s, 0));
    if grid_valid(s) {
        assert(units_valid(s, 0));
    }
}

/// When every given value is repeated in the entry grid, the two counts
/// together reach `n` exactly when every entry cell is present.
pub proof fn lemma_counts_cover(g: Seq<Option<usize>>, e: Seq<Option<usize>>, n: int)
    requires
        0 <= n,
        forall|i: int| 0 <= i < n ==> ((#[trigger] g[i]) is Some ==> e[i] == g[i]),
    ensures
        count_given(g, n) + count_entered(g, e, n) <= n,
        (count_given(g, n) + count_entered(g, e, n) == n) <==> (forall|i: int|
            0 <= i < n ==> (#[trigger] e[i]) is Some),
    decreases n,
{
    if n > 0 {
        lemma_counts_cover(g, e, n - 1);
    }
}

/// Nine pairwise-distinct integers drawn from 0..9 cover all of 0..9.
pub proof fn lemma_distinct_nine_covers(vals: Seq<int>)
    requires
        vals.len() == 9,
        forall|k: int| 0 <= k < 9 ==> 0 <= #[trigger] vals[k] < 9,
        vals.no_duplicates(),
    ensures
        forall|v: int| 0 <= v < 9 ==> vals.contains(v),
{
    let range = set_int_range(0, 9);
    vals.unique_seq_to_set();
    lemma_int_range(0, 9);
    assert forall|a: int| vals.to_set().contains(a) implies range.contains(a) by {
        let k = choose|k: int| 0 <= k < vals.len() && vals[k] == a;
        assert(0 <= vals[k] < 9);
    }
    assert forall|v: int| 0 <= v < 9 implies vals.contains(v) by {
        if !vals.contains(v) {
            let smaller = range.remove(v);
            assert(vals.to_set().subset_of(smaller));
            assert(smaller.len() == 8);
            lemma_len_subset(vals.to_set(), smaller);
        }
    }
}

/// Scans nine cells with a 9-bit mask, one bit per digit, exactly as the
/// row, column and box checks do: a duplicate or an absent cell fails at
/// once, and afterwards the unit is correct when every bit is set.
pub fn unit_ok(vals: &Vec<Option<usize>>) -> (r: bool)
    requires
        vals@.len() == 9,
        forall|k: int| 0 <= k < 9 ==> ((#[trigger] vals@[k]) matches Some(v) ==> v < 9),
    ensures
        r == unit_valid(vals@),
{
    let mut tests: u16 = 0;
    proof {
        assert(forall|v: u16| v < 9 ==> ((0u16 >> v) & 1u16) == 0u16) by (bit_vector);
    }
    for k in 0..9usize
        invariant
            vals@.len() == 9,
            forall|k0: int| 0 <= k0 < 9 ==> ((#[trigger] vals@[k0]) matches Some(v) ==> v < 9),
            tests < 512,
            forall|k0: int| 0 <= k0 < k ==> (#[trigger] vals@[k0]) is Some,
            forall|k1: int, k2: int| 0 <= k1 < k2 < k ==> vals@[k1] != vals@[k2],
            forall|v: u16|
                0 <= v < 9 ==> (((tests >> v) & 1u16 == 1u16) <==> (exists|k0: int|
                    0 <= k0 < k && vals@[k0] == Some(v as usize))),
    {
        let pos_cell = vals[k];
        if let Some(value) = pos_cell {
            let value16: u16 = value as u16;
            let pos: u16 = 1u16 << value16;
            proof {
                assert(((tests & (1u16 << value16)) >> value16 == 1u16) <==> ((tests >> value16)
                    & 1u16 == 1u16)) by (bit_vector)
                    requires
                        value16 < 9,
                ;
            }
            if ((tests & pos) >> value16) != 1 {
                let ghost old_tests = tests;
                tests = tests | pos;
                proof {
                    assert(tests < 512 && forall|v: u16|
                        v < 9 ==> (((tests >> v) & 1u16 == 1u16) <==> ((old_tests >> v) & 1u16
                            == 1u16 || v == value16))) by (bit_vector)
                        requires
                            tests == old_tests | (1u16 << value16),
                            old_tests < 512,
                            value16 < 9,
                    ;
                    assert forall|k1: int, k2: int|
                        0 <= k1 < k2 < k + 1 implies vals@[k1] != vals@[k2] by {
                        if k2 == k as int && vals@[k1] == vals@[k2] {
                            assert((old_tests >> value16) & 1u16 == 1u16);
                        }
                    }
                }
            } else {
                proof {
                    let k0 = choose|k0: int| 0 <= k0 < k && vals@[k0] == Some(value16 as usize);
                    assert(vals@[k0] == vals@[k as int]);
                    assert(!unit_valid(vals@));
                }
                return false;
            }
        } else {
            assert(!unit_valid(vals@));
            return false;
        }
    }
    proof {
        let ghost vseq = Seq::new(9, |k: int| vals@[k]->Some_0 as int);
        assert(vseq.no_duplicates()) by {
            assert forall|i: int, j: int|
                0 <= i < 9 && 0 <= j < 9 && i != j implies vseq[i] != vseq[j] by {
                assert(vals@[i] != vals@[j]);
                assert(vals@[i] is Some && vals@[j] is Some);
            }
        }
        lemma_distinct_nine_covers(vseq);
        assert forall|v: u16| 0 <= v < 9 implies (tests >> v) & 1u16 == 1u16 by {
            assert(vseq.contains(v as int));
            let k0 = choose|k0: int| 0 <= k0 < 9 && vseq[k0] == v as int;
            assert(vals@[k0] == Some(v as usize));
        }
        assert((tests >> 0u16) & 1u16 == 1u16);
        assert((tests >> 1u16) & 1u16 == 1u16);
        assert((tests >> 2u16) & 1u16 == 1u16);
        assert((tests >> 3u16) & 1u16 == 1u16);
        assert((tests >> 4u16) & 1u16 == 1u16);
        assert((tests >> 5u16) & 1u16 == 1u16);
        assert((tests >> 6u16) & 1u16 == 1u16);
        assert((tests >> 7u16) & 1u16 == 1u16);
        assert((tests >> 8u16) & 1u16 == 1u16);
        assert(tests == 0b111111111u16) by (bit_vector)
            requires
                tests < 512,
                (tests >> 0u16) & 1u16 == 1u16,
                (tests >> 1u16) & 1u16 == 1u16,
                (tests >> 2u16) & 1u16 == 1u16,
                (tests >> 3u16) & 1u16 == 1u16,
                (tests >> 4u16) & 1u16 == 1u16,
                (tests >> 5u16) & 1u16 == 1u16,
                (tests >> 6u16) & 1u16 == 1u16,
                (tests >> 7u16) & 1u16 == 1u16,
                (tests >> 8u16) & 1u16 == 1u16,
        ;
        assert(unit_valid(vals@));
    }
    0b111111111 == tests
}

} // verus!
