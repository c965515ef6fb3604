//! The pulses that travel along a stroke: in what order its points are laid out, and which of its
//! pieces are painted in one go.

use vstd::prelude::*;

verus! {

/// The points of a stroke but the first, on a lap: the number of each point and of the lap.
pub open spec fn lap_of(n: int, lap: u32) -> Seq<(usize, u32)> {
    Seq::new((n - 1) as nat, |i: int| ((i + 1) as usize, lap))
}

/// The points in the order in which they are laid out. A closed stroke is laid out three times end
/// to end, each time from the point where the last one ended.
pub open spec fn laid_out(n: int, closed: bool) -> Seq<(usize, u32)> {
    if closed {
        seq![(0usize, 0u32)] + lap_of(n, 0) + lap_of(n, 1) + lap_of(n, 2)
    } else {
        seq![(0usize, 0u32)] + lap_of(n, 0)
    }
}

/// Lays out a lap.
fn push_lap(out: &mut Vec<(usize, u32)>, n: usize, lap: u32)
    requires
        n > 0,
    ensures
        final(out)@ == old(out)@ + lap_of(n as int, lap),
{
    let ghost before = out@;
    let mut i: usize = 1;
    while i < n
        invariant
            1 <= i <= n,
            out@ == before + lap_of(i as int, lap),
        decreases n - i,
    {
        out.push((i, lap));
        i = i + 1;
        assert(out@ =~= before + lap_of(i as int, lap));
    }
}

/// The order in which the `n` points of a stroke are laid out: the number of each point and of the
/// lap it stands on.
pub fn laps(n: usize, closed: bool) -> (r: Vec<(usize, u32)>)
    requires
        n > 0,
    ensures
        r@ == laid_out(n as int, closed),
{
    let mut out: Vec<(usize, u32)> = Vec::new();
    out.push((0, 0));
    push_lap(&mut out, n, 0);
    if closed {
        push_lap(&mut out, n, 1);
        push_lap(&mut out, n, 2);
    }
    out
}

/// Are the pieces from `a` up to `b` lit, and neither the one before nor the one after?
pub open spec fn is_run(lit: Seq<bool>, a: int, b: int) -> bool {
    &&& 0 <= a < b <= lit.len()
    &&& forall|i: int| a <= i < b ==> lit[i]
    &&& a > 0 ==> !lit[a - 1]
    &&& b < lit.len() ==> !lit[b]
}

/// Are these all the runs of lit pieces, in order?
pub open spec fn are_runs(lit: Seq<bool>, runs: Seq<(usize, usize)>) -> bool {
    &&& forall|k: int|
        0 <= k < runs.len() ==> is_run(lit, (#[trigger] runs[k]).0 as int, runs[k].1 as int)
    &&& forall|k: int, l: int|
        0 <= k < l < runs.len() ==> (#[trigger] runs[k]).1 < (#[trigger] runs[l]).0
    &&& forall|i: int|
        0 <= i < lit.len() && #[trigger] lit[i] ==> exists|k: int|
            0 <= k < runs.len() && (#[trigger] runs[k]).0 <= i < runs[k].1
}

/// The runs of lit pieces: where each begins, and where it has ended.
pub fn lit_runs(lit: &Vec<bool>) -> (r: Vec<(usize, usize)>)
    ensures
        are_runs(lit@, r@),
{
    let mut runs: Vec<(usize, usize)> = Vec::new();
    let mut i: usize = 0;
    while i < lit.len()
        invariant
            i <= lit.len(),
            i > 0 && i < lit.len() ==> !lit[i - 1],
            forall|k: int|
                0 <= k < runs.len() ==> is_run(
                    lit@,
                    (#[trigger] runs[k]).0 as int,
                    runs[k].1 as int,
                ) && runs[k].1 <= i && (runs[k].1 < i || i == lit.len()),
            forall|k: int, l: int|
                0 <= k < l < runs.len() ==> (#[trigger] runs[k]).1 < (#[trigger] runs[l]).0,
            forall|j: int|
                0 <= j < i && #[trigger] lit[j] ==> exists|k: int|
                    0 <= k < runs.len() && (#[trigger] runs[k]).0 <= j < runs[k].1,
        decreases lit.len() - i,
    {
        if !lit[i] {
            i = i + 1;
            continue;
        }
        let from: usize = i;
        while i < lit.len() && lit[i]
            invariant
                from <= i <= lit.len(),
                forall|j: int| from <= j < i ==> lit[j],
            decreases lit.len() - i,
        {
            i = i + 1;
        }
        let ghost before = runs@;
        runs.push((from, i));
        assert(runs[before.len() as int] == (from, i));
        if i < lit.len() {
            i = i + 1;
        }
        assert forall|j: int| 0 <= j < i && #[trigger] lit[j] implies exists|k: int|
            0 <= k < runs.len() && (#[trigger] runs[k]).0 <= j < runs[k].1 by {
            if j < from {
                let k = choose|k: int|
                    0 <= k < before.len() && (#[trigger] before[k]).0 <= j < before[k].1;
                assert(runs[k] == before[k]);
            } else {
                assert(runs[before.len() as int].0 <= j < runs[before.len() as int].1);
            }
        }
    }
    runs
}

/// There is only one list of all the runs.
pub proof fn runs_are_unique(lit: Seq<bool>, a: Seq<(usize, usize)>, b: Seq<(usize, usize)>)
    requires
        are_runs(lit, a),
        are_runs(lit, b),
    ensures
        a == b,
{
    lemma_same_prefix(lit, a, b, a.len() as int);
    lemma_same_prefix(lit, b, a, b.len() as int);
    assert(a =~= b);
}

/// The first `n` runs of one list are those of the other.
proof fn lemma_same_prefix(
    lit: Seq<bool>,
    a: Seq<(usize, usize)>,
    b: Seq<(usize, usize)>,
    n: int,
)
    requires
        are_runs(lit, a),
        are_runs(lit, b),
        0 <= n <= a.len(),
    ensures
        n <= b.len(),
        forall|k: int| 0 <= k < n ==> a[k] == b[k],
    decreases n,
{
    if n > 0 {
        let k = n - 1;
        lemma_same_prefix(lit, a, b, k);
        let p = a[k].0 as int;
        assert(lit[p]);
        let m = choose|m: int| 0 <= m < b.len() && (#[trigger] b[m]).0 <= p < b[m].1;
        assert(m >= k) by {
            if m < k {
                assert(a[m].1 < a[k].0);
            }
        }
        let q = b[k].0 as int;
        assert(lit[q]);
        let l = choose|l: int| 0 <= l < a.len() && (#[trigger] a[l]).0 <= q < a[l].1;
        assert(l >= k) by {
            if l < k {
                assert(b[l].1 < b[k].0);
            }
        }
        assert(p <= q) by {
            if l > k {
                assert(a[k].1 < a[l].0);
            }
        }
        assert(q <= p) by {
            if m > k {
                assert(b[k].1 < b[m].0);
            }
        }
        assert(a[k].1 == b[k].1) by {
            if a[k].1 < b[k].1 {
                assert(lit[a[k].1 as int]);
            } else if b[k].1 < a[k].1 {
                assert(lit[b[k].1 as int]);
            }
        }
    }
}

/// The points of a stroke are laid out one after the other. Those of a closed stroke are laid out on
/// three laps: on each the points but the first, which is where the lap before it ended.
pub proof fn laps_go_around_three_times(n: int, lap: int, j: int)
    requires
        0 < n <= usize::MAX,
        0 <= lap < 3,
        0 <= j < n - 1,
    ensures
        laid_out(n, false).len() == n,
        laid_out(n, true).len() == 3 * n - 2,
        laid_out(n, false)[0] == (0usize, 0u32),
        laid_out(n, true)[0] == (0usize, 0u32),
        laid_out(n, false)[1 + j] == ((j + 1) as usize, 0u32),
        laid_out(n, true)[1 + lap * (n - 1) + j] == ((j + 1) as usize, lap as u32),
{
    let all = laid_out(n, true);
    if lap == 1 {
        assert(lap * (n - 1) == n - 1) by (nonlinear_arith)
            requires
                lap == 1,
        ;
    } else if lap == 2 {
        assert(lap * (n - 1) == 2 * n - 2) by (nonlinear_arith)
            requires
                lap == 2,
        ;
    } else {
        assert(lap * (n - 1) == 0) by (nonlinear_arith)
            requires
                lap == 0,
        ;
    }
}

/// A piece is lit if and only if it lies in one of the runs.
pub proof fn runs_hold_the_lit_pieces(lit: Seq<bool>, runs: Seq<(usize, usize)>, i: int)
    requires
        are_runs(lit, runs),
        0 <= i < lit.len(),
    ensures
        lit[i] <==> exists|k: int|
            0 <= k < runs.len() && (#[trigger] runs[k]).0 <= i < runs[k].1,
{
    if exists|k: int| 0 <= k < runs.len() && (#[trigger] runs[k]).0 <= i < runs[k].1 {
        let k = choose|k: int| 0 <= k < runs.len() && (#[trigger] runs[k]).0 <= i < runs[k].1;
        assert(is_run(lit, runs[k].0 as int, runs[k].1 as int));
    }
}

/// Runs hold something, follow each other in order, and have a piece between them that is not lit.
pub proof fn runs_are_parted(lit: Seq<bool>, runs: Seq<(usize, usize)>, k: int, l: int)
    requires
        are_runs(lit, runs),
        0 <= k < l < runs.len(),
    ensures
        runs[k].0 < runs[k].1 < runs[l].0 < runs[l].1,
        runs[l].1 <= lit.len(),
        !lit[runs[k].1 as int],
{
    assert(is_run(lit, runs[k].0 as int, runs[k].1 as int));
    assert(is_run(lit, runs[l].0 as int, runs[l].1 as int));
}

} // verus!
