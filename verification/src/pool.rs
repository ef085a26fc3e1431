//! Command data buffers viewed as one or more physical segments, and the
//! per-queue arena they are leased from.
//!
//! A command's payload is either one contiguous run of pages leased from the
//! queue's [`BufPool`], a scatter list of such runs when the pool is
//! fragmented, a private allocation, or a region of a receive-ring sub-buffer.
//! Consumers go through the segment list ([`SlotData::segs`]) and the byte
//! accessors, and never name the backing.

use vstd::prelude::*;

verus! {

/// Allocation granule and minimum segment size.
pub const PAGE: usize = 4096;

/// Default size of an IO queue's data-buffer pool, in MiB.
pub const DEFAULT_POOL_MB: usize = 8;

/// Most physical segments one command buffer can span: the largest transfer
/// (128 KiB) divided by the page granule.
pub const MAX_SEGS: usize = 32;

/// A run of contiguous pages (page units, not bytes).
#[derive(Clone, Copy, Debug)]
pub struct Run {
    pub start: u32,
    pub len: u32,
}

/// Page `p` lies in `r`.
pub open spec fn run_has(r: Run, p: int) -> bool {
    r.start <= p < r.start + r.len
}

/// Page `p` lies in one of the runs.
pub open spec fn runs_have(s: Seq<Run>, p: int) -> bool {
    exists|i: int| 0 <= i < s.len() && #[trigger] run_has(s[i], p)
}

/// Number of pages over all runs.
pub open spec fn runs_total(s: Seq<Run>) -> nat
    decreases s.len(),
{
    if s.len() == 0 {
        0
    } else {
        runs_total(s.drop_last()) + s.last().len as nat
    }
}

/// The free list's normal form over `n` pages: every run is non-empty and
/// within the arena, runs ascend, and neighbours never touch.
pub open spec fn canonical(s: Seq<Run>, n: int) -> bool {
    &&& forall|i: int| 0 <= i < s.len() ==> 0 < (#[trigger] s[i]).len && s[i].start + s[i].len <= n
    &&& forall|i: int, j: int|
        0 <= i < j < s.len() ==> (#[trigger] s[i]).start + s[i].len < (#[trigger] s[j]).start
}

/// Two run lists share no page, and neither lists a page twice.
pub open spec fn apart(a: Run, b: Run) -> bool {
    a.start + a.len <= b.start || b.start + b.len <= a.start
}

proof fn lemma_total_update(s: Seq<Run>, i: int, r: Run)
    requires
        0 <= i < s.len(),
    ensures
        runs_total(s.update(i, r)) == runs_total(s) - s[i].len + r.len,
    decreases s.len(),
{
    let t = s.update(i, r);
    if i == s.len() - 1 {
        assert(t.drop_last() =~= s.drop_last());
    } else {
        lemma_total_update(s.drop_last(), i, r);
        assert(t.drop_last() =~= s.drop_last().update(i, r));
    }
}

proof fn lemma_total_insert(s: Seq<Run>, i: int, r: Run)
    requires
        0 <= i <= s.len(),
    ensures
        runs_total(s.insert(i, r)) == runs_total(s) + r.len,
    decreases s.len(),
{
    let t = s.insert(i, r);
    if i == s.len() {
        assert(t.drop_last() =~= s);
    } else {
        lemma_total_insert(s.drop_last(), i, r);
        assert(t.drop_last() =~= s.drop_last().insert(i, r));
        assert(t.last() == s.last());
    }
}

proof fn lemma_total_remove(s: Seq<Run>, i: int)
    requires
        0 <= i < s.len(),
    ensures
        runs_total(s.remove(i)) == runs_total(s) - s[i].len,
    decreases s.len(),
{
    let t = s.remove(i);
    if i == s.len() - 1 {
        assert(t =~= s.drop_last());
    } else {
        lemma_total_remove(s.drop_last(), i);
        assert(t.drop_last() =~= s.drop_last().remove(i));
        assert(t.last() == s.last());
    }
}

/// The pages of a canonical list number at most those of the arena.
pub proof fn lemma_total_bound(s: Seq<Run>, n: int)
    requires
        canonical(s, n),
        0 <= n,
    ensures
        runs_total(s) <= n,
        s.len() > 0 ==> runs_total(s) <= s.last().start + s.last().len,
    decreases s.len(),
{
    if s.len() > 0 {
        let t = s.drop_last();
        assert(canonical(t, s.last().start as int)) by {
            assert forall|i: int| 0 <= i < t.len() implies 0 < (#[trigger] t[i]).len && t[i].start
                + t[i].len <= s.last().start by {
                assert(s[i].start + s[i].len < s[s.len() - 1].start);
            }
            assert forall|i: int, j: int| 0 <= i < j < t.len() implies (#[trigger] t[i]).start
                + t[i].len < (#[trigger] t[j]).start by {
                assert(s[i].start + s[i].len < s[j].start);
            }
        }
        lemma_total_bound(t, s.last().start as int);
    }
}

/// As [`canonical`], but neighbours may touch.
spec fn ascending(s: Seq<Run>, n: int) -> bool {
    &&& forall|i: int| 0 <= i < s.len() ==> 0 < (#[trigger] s[i]).len && s[i].start + s[i].len <= n
    &&& forall|i: int, j: int|
        0 <= i < j < s.len() ==> (#[trigger] s[i]).start + s[i].len <= (#[trigger] s[j]).start
}

/// Run `i` and its successor do not touch.
spec fn gap(s: Seq<Run>, i: int) -> bool {
    s[i].start + s[i].len < s[i + 1].start
}

proof fn lemma_gaps_canonical(s: Seq<Run>, n: int)
    requires
        ascending(s, n),
        forall|i: int| 0 <= i < s.len() - 1 ==> #[trigger] gap(s, i),
    ensures
        canonical(s, n),
{
    assert forall|i: int, j: int| 0 <= i < j < s.len() implies (#[trigger] s[i]).start + s[i].len
        < (#[trigger] s[j]).start by {
        assert(gap(s, i));
        if i + 1 < j {
            assert(s[i + 1].start + s[i + 1].len <= s[j].start);
        }
    }
}

proof fn lemma_insert(s: Seq<Run>, pos: int, run: Run, n: int)
    requires
        canonical(s, n),
        0 <= pos <= s.len(),
        0 < run.len,
        run.start + run.len <= n,
        forall|i: int| 0 <= i < pos ==> (#[trigger] s[i]).start < run.start,
        pos < s.len() ==> s[pos].start >= run.start,
        forall|p: int| run_has(run, p) ==> !#[trigger] runs_have(s, p),
    ensures
        ascending(s.insert(pos, run), n),
        runs_total(s.insert(pos, run)) == runs_total(s) + run.len,
        forall|i: int|
            0 <= i < s.len() && i != pos && i != pos - 1 ==> #[trigger] gap(s.insert(pos, run), i),
        forall|p: int| #[trigger]
            runs_have(s.insert(pos, run), p) <==> (runs_have(s, p) || run_has(run, p)),
{
    let t = s.insert(pos, run);
    lemma_total_insert(s, pos, run);
    assert forall|i: int| 0 <= i < s.len() implies apart(#[trigger] s[i], run) by {
        if !apart(s[i], run) {
            let p = if s[i].start < run.start { run.start as int } else { s[i].start as int };
            assert(run_has(run, p));
            assert(run_has(s[i], p));
            assert(runs_have(s, p));
        }
    }
    assert forall|i: int| pos <= i < s.len() implies run.start + run.len <= (#[trigger] s[i]).start
        by {
        assert(apart(s[i], run));
        if i > pos {
            assert(s[pos].start + s[pos].len < s[i].start);
        }
    }
    assert forall|i: int| 0 <= i < pos implies (#[trigger] s[i]).start + s[i].len <= run.start by {
        assert(apart(s[i], run));
    }
    assert forall|i: int, j: int| 0 <= i < j < t.len() implies (#[trigger] t[i]).start + t[i].len
        <= (#[trigger] t[j]).start by {
        let i0 = if i < pos { i } else { i - 1 };
        let j0 = if j < pos { j } else { j - 1 };
        if i == pos {
            assert(t[j] == s[j - 1]);
        } else if j == pos {
            assert(t[i] == s[i]);
        } else {
            assert(t[i] == s[i0] && t[j] == s[j0]);
            assert(s[i0].start + s[i0].len < s[j0].start);
        }
    }
    assert forall|i: int| 0 <= i < s.len() && i != pos && i != pos - 1 implies #[trigger] gap(
        t,
        i,
    ) by {
        let i0 = if i < pos { i } else { i - 1 };
        assert(t[i] == s[i0] && t[i + 1] == s[i0 + 1]);
        assert(s[i0].start + s[i0].len < s[i0 + 1].start);
    }
    assert forall|p: int| #[trigger] runs_have(t, p) <==> (runs_have(s, p) || run_has(run, p)) by {
        if runs_have(t, p) {
            let i = choose|i: int| 0 <= i < t.len() && #[trigger] run_has(t[i], p);
            if i < pos {
                assert(run_has(s[i], p));
            } else if i > pos {
                assert(run_has(s[i - 1], p));
            }
        }
        if runs_have(s, p) {
            let i = choose|i: int| 0 <= i < s.len() && #[trigger] run_has(s[i], p);
            if i < pos {
                assert(run_has(t[i], p));
            } else {
                assert(run_has(t[i + 1], p));
            }
        }
        if run_has(run, p) {
            assert(run_has(t[pos], p));
        }
    }
}

/// Runs `k` and `k + 1` made one.
spec fn merged(s: Seq<Run>, k: int) -> Seq<Run> {
    s.update(k, Run { start: s[k].start, len: (s[k].len + s[k + 1].len) as u32 }).remove(k + 1)
}

proof fn lemma_merge(s: Seq<Run>, k: int, n: int)
    requires
        ascending(s, n),
        n <= u32::MAX,
        0 <= k < s.len() - 1,
        s[k].start + s[k].len == s[k + 1].start,
    ensures
        ascending(merged(s, k), n),
        runs_total(merged(s, k)) == runs_total(s),
        forall|i: int| 0 <= i < k ==> (gap(s, i) ==> #[trigger] gap(merged(s, k), i)),
        forall|i: int|
            k <= i < s.len() - 2 ==> (gap(s, i + 1) ==> #[trigger] gap(merged(s, k), i)),
        forall|p: int| #[trigger] runs_have(merged(s, k), p) <==> runs_have(s, p),
{
    let t = merged(s, k);
    let m = Run { start: s[k].start, len: (s[k].len + s[k + 1].len) as u32 };
    lemma_total_update(s, k, m);
    lemma_total_remove(s.update(k, m), k + 1);
    assert forall|i: int| 0 <= i < t.len() implies 0 < (#[trigger] t[i]).len && t[i].start
        + t[i].len <= n by {
        let i0 = if i <= k { i } else { i + 1 };
        assert(0 < s[i0].len && s[i0].start + s[i0].len <= n);
        assert(0 < s[k + 1].len && s[k + 1].start + s[k + 1].len <= n);
    }
    assert forall|i: int, j: int| 0 <= i < j < t.len() implies (#[trigger] t[i]).start + t[i].len
        <= (#[trigger] t[j]).start by {
        let i0 = if i < k { i } else { i + 1 };
        let j0 = if j <= k { j } else { j + 1 };
        assert(s[i0].start + s[i0].len <= s[j0].start);
    }
    assert forall|p: int| #[trigger] runs_have(t, p) <==> runs_have(s, p) by {
        if runs_have(t, p) {
            let i = choose|i: int| 0 <= i < t.len() && #[trigger] run_has(t[i], p);
            if i < k {
                assert(run_has(s[i], p));
            } else if i > k {
                assert(run_has(s[i + 1], p));
            } else if p < s[k].start + s[k].len {
                assert(run_has(s[k], p));
            } else {
                assert(run_has(s[k + 1], p));
            }
        }
        if runs_have(s, p) {
            let i = choose|i: int| 0 <= i < s.len() && #[trigger] run_has(s[i], p);
            if i <= k {
                assert(run_has(t[i], p));
            } else {
                assert(run_has(t[i - 1], p));
            }
        }
    }
}

/// Insert `run` into the sorted free list, coalescing with neighbours.
pub fn insert_run(free: &mut Vec<Run>, run: Run, npages: u32)
    requires
        canonical(old(free)@, npages as int),
        0 < run.len,
        run.start + run.len <= npages,
        forall|p: int| run_has(run, p) ==> !#[trigger] runs_have(old(free)@, p),
    ensures
        canonical(final(free)@, npages as int),
        forall|p: int| #[trigger]
            runs_have(final(free)@, p) <==> (runs_have(old(free)@, p) || run_has(run, p)),
        runs_total(final(free)@) == runs_total(old(free)@) + run.len,
{
    let ghost s0 = free@;
    let ghost n = npages as int;
    let mut pos: usize = 0;
    while pos < free.len() && free[pos].start < run.start
        invariant
            0 <= pos <= free.len(),
            free@ == s0,
            forall|i: int| 0 <= i < pos ==> (#[trigger] s0[i]).start < run.start,
        decreases free.len() - pos,
    {
        pos += 1;
    }
    free.insert(pos, run);
    let ghost s1 = free@;
    proof {
        lemma_insert(s0, pos as int, run, n);
    }
    // Merge with the following run, then the preceding one.
    if free.len() - pos > 1 && free[pos].start + free[pos].len == free[pos + 1].start {
        let next: Run = free[pos + 1];
        let cur: Run = free[pos];
        assert(s1[pos + 1].start + s1[pos + 1].len <= npages);
        free.set(pos, Run { start: cur.start, len: cur.len + next.len });
        free.remove(pos + 1);
        proof {
            lemma_merge(s1, pos as int, n);
            assert(free@ =~= merged(s1, pos as int));
        }
    } else {
        assert(pos + 1 < s1.len() ==> gap(s1, pos as int)) by {
            if pos + 1 < s1.len() {
                assert(s1[pos as int].start + s1[pos as int].len <= s1[pos + 1].start);
            }
        }
    }
    let ghost s2 = free@;
    assert forall|i: int| 0 <= i < s2.len() - 1 && i != pos - 1 implies #[trigger] gap(s2, i) by {
        if s2.len() < s1.len() {
            if i < pos {
                assert(gap(s1, i));
            } else {
                assert(gap(s1, i + 1));
            }
        }
    }
    if pos > 0 && free[pos - 1].start + free[pos - 1].len == free[pos].start {
        let prev: Run = free[pos - 1];
        let cur: Run = free[pos];
        assert(s2[pos as int].start + s2[pos as int].len <= npages);
        free.set(pos - 1, Run { start: prev.start, len: prev.len + cur.len });
        free.remove(pos);
        proof {
            lemma_merge(s2, pos - 1, n);
            assert(free@ =~= merged(s2, pos - 1));
            let s3 = free@;
            assert forall|i: int| 0 <= i < s3.len() - 1 implies #[trigger] gap(s3, i) by {
                if i < pos - 1 {
                    assert(gap(s2, i));
                } else {
                    assert(gap(s2, i + 1));
                }
            }
            lemma_gaps_canonical(s3, n);
        }
    } else {
        proof {
            assert(pos > 0 ==> gap(s2, pos - 1)) by {
                if pos > 0 {
                    assert(s2[pos - 1].start + s2[pos - 1].len <= s2[pos as int].start);
                }
            }
            lemma_gaps_canonical(s2, n);
        }
    }
}

/// Index of the first run of at least `pages` pages at or after `from`, or the
/// list's length when there is none.
pub open spec fn fit_index(s: Seq<Run>, pages: int, from: int) -> int
    decreases s.len() - from,
{
    if from >= s.len() {
        s.len() as int
    } else if s[from].len >= pages {
        from
    } else {
        fit_index(s, pages, from + 1)
    }
}

/// The list once `pages` pages have left the front of run `i`.
pub open spec fn shrunk(s: Seq<Run>, i: int, pages: int) -> Seq<Run> {
    if s[i].len == pages {
        s.remove(i)
    } else {
        s.update(i, Run { start: (s[i].start + pages) as u32, len: (s[i].len - pages) as u32 })
    }
}

/// The runs that make up `need` pages taken from the front of the list; every
/// one is a whole free run except perhaps the last.
pub open spec fn carved(s: Seq<Run>, need: int) -> Seq<Run>
    decreases s.len(),
{
    if need <= 0 || s.len() == 0 {
        seq![]
    } else if s[0].len >= need {
        seq![Run { start: s[0].start, len: need as u32 }]
    } else {
        seq![s[0]] + carved(s.drop_first(), need - s[0].len)
    }
}

/// What is left of the list once [`carved`] has been taken from it.
pub open spec fn uncarved(s: Seq<Run>, need: int) -> Seq<Run>
    decreases s.len(),
{
    if need <= 0 || s.len() == 0 {
        s
    } else if s[0].len >= need {
        shrunk(s, 0, need)
    } else {
        uncarved(s.drop_first(), need - s[0].len)
    }
}

/// How a request for `pages` pages is served from the free list `s`: the runs
/// handed out and the list that remains. The first run that is large enough
/// serves the request alone; otherwise it is scattered over the front of the
/// list; `None` when too few pages are free or more than [`MAX_SEGS`] runs
/// would be needed.
pub open spec fn alloc_plan(s: Seq<Run>, pages: int) -> Option<(Seq<Run>, Seq<Run>)> {
    if runs_total(s) < pages {
        None
    } else {
        let i = fit_index(s, pages, 0);
        if i < s.len() {
            Some((seq![Run { start: s[i].start, len: pages as u32 }], shrunk(s, i, pages)))
        } else if carved(s, pages).len() > MAX_SEGS {
            None
        } else {
            Some((carved(s, pages), uncarved(s, pages)))
        }
    }
}

/// Whole pages needed for `len` bytes, at least one.
pub open spec fn pages_for(len: int) -> int {
    let n = (len + PAGE - 1) / (PAGE as int);
    if n < 1 {
        1
    } else {
        n
    }
}

/// `taken` and `rest` split the pages of `s` between them, none listed twice.
pub open spec fn splits(s: Seq<Run>, taken: Seq<Run>, rest: Seq<Run>, n: int) -> bool {
    &&& canonical(rest, n)
    &&& forall|p: int| #[trigger] runs_have(s, p) <==> (runs_have(taken, p) || runs_have(rest, p))
    &&& forall|p: int| #[trigger] runs_have(taken, p) ==> !runs_have(rest, p)
    &&& runs_total(s) == runs_total(taken) + runs_total(rest)
    &&& canonical(taken, n)
}

proof fn lemma_fit_index(s: Seq<Run>, pages: int, from: int)
    requires
        0 <= from <= s.len(),
    ensures
        from <= fit_index(s, pages, from) <= s.len(),
        fit_index(s, pages, from) < s.len() ==> s[fit_index(s, pages, from)].len >= pages,
        forall|j: int| from <= j < fit_index(s, pages, from) ==> (#[trigger] s[j]).len < pages,
    decreases s.len() - from,
{
    if from < s.len() && s[from].len < pages {
        lemma_fit_index(s, pages, from + 1);
    }
}

proof fn lemma_single(r: Run, n: int)
    requires
        0 < r.len,
        r.start + r.len <= n,
    ensures
        canonical(seq![r], n),
        runs_total(seq![r]) == r.len,
        forall|p: int| #[trigger] runs_have(seq![r], p) <==> run_has(r, p),
{
    let s = seq![r];
    reveal_with_fuel(runs_total, 2);
    assert(s.drop_last() =~= seq![]);
    assert forall|p: int| #[trigger] runs_have(s, p) <==> run_has(r, p) by {
        if run_has(r, p) {
            assert(run_has(s[0], p));
        }
    }
}

proof fn lemma_shrunk(s: Seq<Run>, i: int, pages: int, n: int)
    requires
        canonical(s, n),
        n <= u32::MAX,
        0 <= i < s.len(),
        0 < pages <= s[i].len,
    ensures
        splits(s, seq![Run { start: s[i].start, len: pages as u32 }], shrunk(s, i, pages), n),
        runs_total(shrunk(s, i, pages)) == runs_total(s) - pages,
{
    let t = shrunk(s, i, pages);
    let r = Run { start: s[i].start, len: pages as u32 };
    assert(s[i].start + s[i].len <= n);
    lemma_single(r, n);
    if s[i].len == pages {
        lemma_total_remove(s, i);
        assert forall|a: int, b: int| 0 <= a < b < t.len() implies (#[trigger] t[a]).start
            + t[a].len < (#[trigger] t[b]).start by {
            let a0 = if a < i { a } else { a + 1 };
            let b0 = if b < i { b } else { b + 1 };
            assert(s[a0].start + s[a0].len < s[b0].start);
        }
        assert forall|a: int| 0 <= a < t.len() implies 0 < (#[trigger] t[a]).len && t[a].start
            + t[a].len <= n by {
            let a0 = if a < i { a } else { a + 1 };
            assert(0 < s[a0].len && s[a0].start + s[a0].len <= n);
        }
    } else {
        lemma_total_update(s, i, t[i]);
        assert forall|a: int, b: int| 0 <= a < b < t.len() implies (#[trigger] t[a]).start
            + t[a].len < (#[trigger] t[b]).start by {
            assert(s[a].start + s[a].len < s[b].start);
        }
    }
    assert forall|p: int| #[trigger] runs_have(s, p) <==> (run_has(r, p) || runs_have(t, p)) by {
        if runs_have(s, p) {
            let k = choose|k: int| 0 <= k < s.len() && #[trigger] run_has(s[k], p);
            if k == i {
                if p >= s[i].start + pages {
                    assert(run_has(t[i], p));
                }
            } else {
                let k1 = if s[i].len == pages && k > i { k - 1 } else { k };
                assert(run_has(t[k1], p));
            }
        }
        if run_has(r, p) {
            assert(run_has(s[i], p));
        }
        if runs_have(t, p) {
            let k = choose|k: int| 0 <= k < t.len() && #[trigger] run_has(t[k], p);
            let k0 = if s[i].len == pages && k >= i { k + 1 } else { k };
            assert(run_has(s[k0], p));
        }
    }
    assert forall|p: int| #[trigger] runs_have(seq![r], p) implies !runs_have(t, p) by {
        if runs_have(t, p) {
            let k = choose|k: int| 0 <= k < t.len() && #[trigger] run_has(t[k], p);
            let k0 = if s[i].len == pages && k >= i { k + 1 } else { k };
            if k0 < i {
                assert(s[k0].start + s[k0].len < s[i].start);
            } else if k0 > i {
                assert(s[i].start + s[i].len < s[k0].start);
            }
        }
    }
}

proof fn lemma_drop_first(s: Seq<Run>, n: int)
    requires
        canonical(s, n),
        0 < s.len(),
    ensures
        canonical(s.drop_first(), n),
        runs_total(s.drop_first()) == runs_total(s) - s[0].len,
        forall|p: int| #[trigger]
            runs_have(s, p) <==> (run_has(s[0], p) || runs_have(s.drop_first(), p)),
        forall|p: int| #[trigger]
            runs_have(s.drop_first(), p) ==> p > s[0].start + s[0].len,
{
    let t = s.drop_first();
    lemma_total_remove(s, 0);
    assert(s.remove(0) =~= t);
    assert forall|a: int, b: int| 0 <= a < b < t.len() implies (#[trigger] t[a]).start + t[a].len
        < (#[trigger] t[b]).start by {
        assert(s[a + 1].start + s[a + 1].len < s[b + 1].start);
    }
    assert forall|a: int| 0 <= a < t.len() implies 0 < (#[trigger] t[a]).len && t[a].start
        + t[a].len <= n by {
        assert(0 < s[a + 1].len && s[a + 1].start + s[a + 1].len <= n);
    }
    assert forall|p: int| #[trigger] runs_have(s, p) <==> (run_has(s[0], p) || runs_have(t, p)) by {
        if runs_have(s, p) {
            let k = choose|k: int| 0 <= k < s.len() && #[trigger] run_has(s[k], p);
            if k > 0 {
                assert(run_has(t[k - 1], p));
            }
        }
        if run_has(s[0], p) {
            assert(run_has(s[0], p));
        }
        if runs_have(t, p) {
            let k = choose|k: int| 0 <= k < t.len() && #[trigger] run_has(t[k], p);
            assert(run_has(s[k + 1], p));
        }
    }
    assert forall|p: int| #[trigger] runs_have(t, p) implies p > s[0].start + s[0].len by {
        let k = choose|k: int| 0 <= k < t.len() && #[trigger] run_has(t[k], p);
        assert(s[0].start + s[0].len < s[k + 1].start);
    }
}

/// A list with one more run in front.
proof fn lemma_cons(r: Run, s: Seq<Run>, n: int)
    requires
        canonical(s, n),
        0 < r.len,
        r.start + r.len <= n,
        forall|p: int| #[trigger] runs_have(s, p) ==> p > r.start + r.len,
    ensures
        canonical(seq![r] + s, n),
        runs_total(seq![r] + s) == r.len + runs_total(s),
        forall|p: int| #[trigger]
            runs_have(seq![r] + s, p) <==> (run_has(r, p) || runs_have(s, p)),
{
    let t = seq![r] + s;
    lemma_total_insert(s, 0, r);
    assert(s.insert(0, r) =~= t);
    assert forall|b: int| 0 <= b < s.len() implies r.start + r.len < (#[trigger] s[b]).start by {
        assert(run_has(s[b], s[b].start as int));
        assert(runs_have(s, s[b].start as int));
    }
    assert forall|a: int, b: int| 0 <= a < b < t.len() implies (#[trigger] t[a]).start + t[a].len
        < (#[trigger] t[b]).start by {
        if a > 0 {
            assert(s[a - 1].start + s[a - 1].len < s[b - 1].start);
        } else {
            assert(t[b] == s[b - 1]);
        }
    }
    assert forall|p: int| #[trigger] runs_have(t, p) <==> (run_has(r, p) || runs_have(s, p)) by {
        if runs_have(t, p) {
            let k = choose|k: int| 0 <= k < t.len() && #[trigger] run_has(t[k], p);
            if k > 0 {
                assert(run_has(s[k - 1], p));
            }
        }
        if run_has(r, p) {
            assert(run_has(t[0], p));
        }
        if runs_have(s, p) {
            let k = choose|k: int| 0 <= k < s.len() && #[trigger] run_has(s[k], p);
            assert(run_has(t[k + 1], p));
        }
    }
}

proof fn lemma_carved(s: Seq<Run>, need: int, n: int)
    requires
        canonical(s, n),
        n <= u32::MAX,
        0 < need <= runs_total(s),
    ensures
        splits(s, carved(s, need), uncarved(s, need), n),
        runs_total(carved(s, need)) == need,
        carved(s, need).len() > 0,
    decreases s.len(),
{
    if s[0].len >= need {
        lemma_shrunk(s, 0, need, n);
    } else {
        let t = s.drop_first();
        let c = carved(t, need - s[0].len);
        lemma_drop_first(s, n);
        lemma_carved(t, need - s[0].len, n);
        assert forall|p: int| #[trigger] runs_have(c, p) implies p > s[0].start + s[0].len by {
            assert(runs_have(t, p));
        }
        lemma_cons(s[0], c, n);
        let taken = carved(s, need);
        let rest = uncarved(s, need);
        assert forall|p: int| #[trigger] runs_have(s, p) <==> (runs_have(taken, p) || runs_have(
            rest,
            p,
        )) by {
            assert(runs_have(t, p) <==> (runs_have(c, p) || runs_have(rest, p)));
        }
        assert forall|p: int| #[trigger] runs_have(taken, p) implies !runs_have(rest, p) by {
            assert(runs_have(t, p) <==> (runs_have(c, p) || runs_have(rest, p)));
            if runs_have(rest, p) {
                assert(p > s[0].start + s[0].len);
            }
        }
    }
}

/// A served request takes exactly the pages it asked for out of the free list
/// and leaves the others, in normal form.
pub proof fn alloc_plan_splits(s: Seq<Run>, pages: int, n: int)
    requires
        canonical(s, n),
        n <= u32::MAX,
        0 < pages,
        alloc_plan(s, pages) is Some,
    ensures
        splits(s, alloc_plan(s, pages).unwrap().0, alloc_plan(s, pages).unwrap().1, n),
        runs_total(alloc_plan(s, pages).unwrap().0) == pages,
        1 <= alloc_plan(s, pages).unwrap().0.len() <= MAX_SEGS,
{
    let i = fit_index(s, pages, 0);
    lemma_fit_index(s, pages, 0);
    if i < s.len() {
        lemma_shrunk(s, i, pages, n);
        lemma_single(Run { start: s[i].start, len: pages as u32 }, n);
    } else {
        lemma_carved(s, pages, n);
    }
}

/// A free list in normal form is determined by the pages on it.
pub proof fn canonical_unique(s: Seq<Run>, t: Seq<Run>, n: int)
    requires
        canonical(s, n),
        canonical(t, n),
        forall|p: int| #[trigger] runs_have(s, p) <==> runs_have(t, p),
    ensures
        s == t,
    decreases s.len(),
{
    if s.len() == 0 {
        if t.len() > 0 {
            assert(run_has(t[0], t[0].start as int));
            assert(runs_have(t, t[0].start as int));
            assert(runs_have(s, t[0].start as int));
        }
        assert(s =~= t);
    } else {
        assert(run_has(s[0], s[0].start as int));
        assert(runs_have(s, s[0].start as int));
        assert(runs_have(t, s[0].start as int));
        lemma_drop_first(s, n);
        lemma_drop_first(t, n);
        assert(run_has(t[0], t[0].start as int));
        assert(runs_have(t, t[0].start as int));
        assert(runs_have(s, t[0].start as int));
        assert(s[0].start == t[0].start);
        let se = s[0].start + s[0].len;
        let te = t[0].start + t[0].len;
        if se < te {
            assert(run_has(t[0], se as int));
            assert(runs_have(t, se as int));
            assert(runs_have(s, se as int));
        }
        if te < se {
            assert(run_has(s[0], te as int));
            assert(runs_have(s, te as int));
            assert(runs_have(t, te as int));
        }
        let s1 = s.drop_first();
        let t1 = t.drop_first();
        assert forall|p: int| #[trigger] runs_have(s1, p) <==> runs_have(t1, p) by {
            assert(runs_have(s, p) <==> runs_have(t, p));
            assert(run_has(s[0], p) <==> run_has(t[0], p));
            if runs_have(s1, p) {
                assert(p > se);
            }
            if runs_have(t1, p) {
                assert(p > te);
            }
        }
        canonical_unique(s1, t1, n);
        assert(s =~= seq![s[0]] + s1);
        assert(t =~= seq![t[0]] + t1);
    }
}

/// One physically contiguous run of a command's data buffer: `len` bytes at
/// offset `off` of the backing memory (the arena, the private allocation, or
/// the ring sub-buffer).
#[derive(Clone, Copy, Debug, PartialEq, Eq, Structural)]
pub struct Seg {
    pub off: usize,
    pub len: usize,
}

/// The arena bytes of a run of pages.
pub open spec fn seg_of(r: Run) -> Seg {
    Seg { off: (r.start * PAGE) as usize, len: (r.len * PAGE) as usize }
}

/// The pages of an arena segment.
pub open spec fn run_of(s: Seg) -> Run {
    Run { start: (s.off / PAGE) as u32, len: (s.len / PAGE) as u32 }
}

/// The pages of each segment, in order.
pub open spec fn lease_runs(segs: Seq<Seg>) -> Seq<Run> {
    Seq::new(segs.len(), |i: int| run_of(segs[i]))
}

/// The arena bytes of each run, in order.
pub open spec fn lease_segs(runs: Seq<Run>) -> Seq<Seg> {
    Seq::new(runs.len(), |i: int| seg_of(runs[i]))
}

/// Bytes over all segments.
pub open spec fn segs_total(segs: Seq<Seg>) -> nat
    decreases segs.len(),
{
    if segs.len() == 0 {
        0
    } else {
        segs_total(segs.drop_last()) + segs.last().len as nat
    }
}

proof fn lemma_run_of_seg_of(r: Run, npages: u32)
    requires
        r.start + r.len <= npages,
        npages * PAGE <= usize::MAX,
    ensures
        run_of(seg_of(r)) == r,
        seg_of(r).off == r.start * PAGE,
        seg_of(r).len == r.len * PAGE,
        seg_of(r).off % PAGE == 0,
        seg_of(r).len % PAGE == 0,
{
}

/// A lease's runs and byte segments describe each other.
pub proof fn lemma_lease_segs(runs: Seq<Run>, npages: u32)
    requires
        canonical(runs, npages as int),
        npages * PAGE <= usize::MAX,
    ensures
        lease_runs(lease_segs(runs)) == runs,
        segs_total(lease_segs(runs)) == runs_total(runs) * PAGE,
        forall|i: int|
            0 <= i < runs.len() ==> {
                let s = #[trigger] lease_segs(runs)[i];
                &&& s.off == runs[i].start * PAGE
                &&& s.len == runs[i].len * PAGE
                &&& 0 < s.len
                &&& s.off % PAGE == 0
                &&& s.len % PAGE == 0
                &&& s.off + s.len <= npages * PAGE
            },
    decreases runs.len(),
{
    assert forall|i: int| 0 <= i < runs.len() implies {
        let s = #[trigger] lease_segs(runs)[i];
        &&& s.off == runs[i].start * PAGE
        &&& s.len == runs[i].len * PAGE
        &&& 0 < s.len
        &&& s.off % PAGE == 0
        &&& s.len % PAGE == 0
        &&& s.off + s.len <= npages * PAGE
        &&& run_of(s) == runs[i]
    } by {
        assert(0 < runs[i].len && runs[i].start + runs[i].len <= npages);
        lemma_run_of_seg_of(runs[i], npages);
    }
    assert(lease_runs(lease_segs(runs)) =~= runs);
    if runs.len() > 0 {
        let t = runs.drop_last();
        assert(canonical(t, npages as int)) by {
            assert forall|i: int, j: int| 0 <= i < j < t.len() implies (#[trigger] t[i]).start
                + t[i].len < (#[trigger] t[j]).start by {
                assert(runs[i].start + runs[i].len < runs[j].start);
            }
            assert forall|i: int| 0 <= i < t.len() implies 0 < (#[trigger] t[i]).len && t[i].start
                + t[i].len <= npages by {
                assert(0 < runs[i].len);
            }
        }
        lemma_lease_segs(t, npages);
        assert(lease_segs(runs).drop_last() =~= lease_segs(t));
        assert(lease_segs(runs).last() == lease_segs(runs)[runs.len() - 1]);
    }
}

proof fn lemma_skip_canonical(s: Seq<Run>, k: int, n: int)
    requires
        canonical(s, n),
        0 <= k <= s.len(),
    ensures
        canonical(s.skip(k), n),
{
    let t = s.skip(k);
    assert forall|i: int, j: int| 0 <= i < j < t.len() implies (#[trigger] t[i]).start + t[i].len
        < (#[trigger] t[j]).start by {
        assert(s[i + k].start + s[i + k].len < s[j + k].start);
    }
    assert forall|i: int| 0 <= i < t.len() implies 0 < (#[trigger] t[i]).len && t[i].start
        + t[i].len <= n by {
        assert(0 < s[i + k].len && s[i + k].start + s[i + k].len <= n);
    }
}

/// What keeps a command's data buffer alive.
pub enum Owner {
    /// No buffer leased (the resting state between commands).
    Empty,
    /// A private allocation.
    Owned(Vec<u8>),
    /// Pages leased from a [`BufPool`].
    Pool,
    /// A retained region of receive-ring sub-buffer `bid`.
    Ring { bid: u16 },
}

/// A command's data buffer, as a (possibly scattered) segment list over the
/// memory its owner keeps alive.
pub struct SlotData {
    pub segs: Vec<Seg>,
    pub len: usize,
    pub owner: Owner,
}

impl SlotData {
    /// The segments add up to `len` and suit the owner: nothing for an empty
    /// buffer, the whole of a private allocation, pages held by `pool`'s
    /// lessees for a lease, one region for a ring buffer.
    pub open spec fn wf(&self, pool: BufPool) -> bool {
        &&& self.len == segs_total(self.segs@)
        &&& match self.owner {
            Owner::Empty => self.segs@.len() == 0,
            Owner::Owned(buf) => self.segs@ == seq![Seg { off: 0, len: buf.len() }],
            Owner::Pool => 1 <= self.segs@.len() <= MAX_SEGS && pool.leased(self.segs@),
            Owner::Ring { bid } => self.segs@.len() == 1,
        }
    }
}

/// A per-queue data-buffer arena with a coalescing free-run allocator. Leases
/// are contiguous when a single free run fits, otherwise a scatter list of at
/// most [`MAX_SEGS`] runs.
pub struct BufPool {
    /// The arena.
    pub mem: Vec<u8>,
    pub npages: u32,
    /// Free runs, sorted by `start` and coalesced.
    pub free: Vec<Run>,
    pub free_pages: u32,
    /// Fixed-buffer index of the whole arena, once the transport registered it.
    pub buf_index: Option<u16>,
    /// Region set aside for the send path's headers; never returned to `free`.
    pub send_arena: Option<(usize, usize)>,
}

impl BufPool {
    /// The arena is whole pages and the free list is in normal form and
    /// counted; the send arena's pages are not on it.
    pub open spec fn wf(&self) -> bool {
        &&& 1 <= self.npages
        &&& self.mem.len() == self.npages * PAGE
        &&& canonical(self.free@, self.npages as int)
        &&& self.free_pages == runs_total(self.free@)
        &&& self.send_arena matches Some(r) ==> {
            &&& self.in_arena(Seg { off: r.0, len: r.1 })
            &&& forall|p: int|
                run_has(run_of(Seg { off: r.0, len: r.1 }), p) ==> !#[trigger] runs_have(
                    self.free@,
                    p,
                )
        }
    }

    /// A non-empty, page-aligned region of the arena.
    pub open spec fn in_arena(&self, s: Seg) -> bool {
        &&& s.off % PAGE == 0
        &&& s.len % PAGE == 0
        &&& 0 < s.len
        &&& s.off + s.len <= self.npages * PAGE
    }

    /// Page `p` belongs to the send arena.
    pub open spec fn reserved(&self, p: int) -> bool {
        self.send_arena matches Some(r) && run_has(run_of(Seg { off: r.0, len: r.1 }), p)
    }

    /// `segs` is a lease this pool could have handed out and not yet taken
    /// back: ascending page-aligned regions, none of whose pages is free or
    /// reserved.
    pub open spec fn leased(&self, segs: Seq<Seg>) -> bool {
        &&& forall|i: int| 0 <= i < segs.len() ==> self.in_arena(#[trigger] segs[i])
        &&& canonical(lease_runs(segs), self.npages as int)
        &&& forall|p: int| #[trigger]
            runs_have(lease_runs(segs), p) ==> !runs_have(self.free@, p) && !self.reserved(p)
    }

    /// Everything but the free list and its count is as in `other`.
    pub open spec fn same_but_free(&self, other: &BufPool) -> bool {
        &&& self.mem@ == other.mem@
        &&& self.npages == other.npages
        &&& self.buf_index == other.buf_index
        &&& self.send_arena == other.send_arena
    }

    /// A pool of `bytes` rounded up to a whole number of pages (at least one),
    /// all of them free.
    pub fn new(bytes: usize) -> (pool: BufPool)
        requires
            bytes + PAGE - 1 <= usize::MAX,
            pages_for(bytes as int) <= u32::MAX,
        ensures
            pool.wf(),
            pool.npages == pages_for(bytes as int),
            pool.free@ == seq![Run { start: 0, len: pool.npages }],
            pool.free_pages == pool.npages,
            pool.mem@ == Seq::new((pool.npages * PAGE) as nat, |i: int| 0u8),
            pool.buf_index is None,
            pool.send_arena is None,
    {
        let mut pages: usize = (bytes + (PAGE - 1)) / PAGE;
        if pages < 1 {
            pages = 1;
        }
        let npages: u32 = pages as u32;
        let mem: Vec<u8> = vec![0u8; npages as usize * PAGE];
        let first: Run = Run { start: 0, len: npages };
        let mut free: Vec<Run> = Vec::new();
        free.push(first);
        proof {
            lemma_single(first, npages as int);
            assert(free@ =~= seq![first]);
            assert(mem@ =~= Seq::new((npages * PAGE) as nat, |i: int| 0u8));
        }
        BufPool { mem, npages, free, free_pages: npages, buf_index: None, send_arena: None }
    }

    /// The whole arena: what the transport registers as one fixed buffer.
    pub fn arena(&self) -> (mem: &[u8])
        ensures
            mem@ == self.mem@,
    {
        self.mem.as_slice()
    }

    /// Record the fixed-buffer index the transport registered the arena under.
    pub fn set_buf_index(&mut self, idx: u16)
        ensures
            *final(self) == (BufPool { buf_index: Some(idx), ..*old(self) }),
    {
        self.buf_index = Some(idx);
    }

    /// The arena's fixed-buffer index, if registered.
    pub fn buf_index(&self) -> (idx: Option<u16>)
        ensures
            idx == self.buf_index,
    {
        self.buf_index
    }

    /// Clear and return the fixed-buffer index (teardown, before unregistering).
    pub fn take_buf_index(&mut self) -> (idx: Option<u16>)
        ensures
            idx == old(self).buf_index,
            *final(self) == (BufPool { buf_index: None, ..*old(self) }),
    {
        let idx = self.buf_index;
        self.buf_index = None;
        idx
    }

    pub fn capacity_pages(&self) -> (n: u32)
        ensures
            n == self.npages,
    {
        self.npages
    }

    pub fn free_pages(&self) -> (n: u32)
        ensures
            n == self.free_pages,
    {
        self.free_pages
    }

    /// The reserved send-arena region `(offset, length)`, if any.
    pub fn send_arena(&self) -> (r: Option<(usize, usize)>)
        ensures
            r == self.send_arena,
    {
        self.send_arena
    }

    spec fn wf_arena(&self) -> bool {
        &&& 1 <= self.npages
        &&& self.mem.len() == self.npages * PAGE
    }

    /// Account for `pages` pages already taken off the free list and wrap
    /// their segments as a lease.
    fn make_lease(
        &mut self,
        segs: Vec<Seg>,
        pages: u32,
        Ghost(taken): Ghost<Seq<Run>>,
        Ghost(before): Ghost<Seq<Run>>,
    ) -> (d: SlotData)
        requires
            old(self).wf_arena(),
            splits(before, taken, old(self).free@, old(self).npages as int),
            runs_total(taken) == pages,
            old(self).free_pages == runs_total(before),
            segs@ == lease_segs(taken),
            1 <= taken.len() <= MAX_SEGS,
            old(self).send_arena matches Some(r) ==> {
                &&& old(self).in_arena(Seg { off: r.0, len: r.1 })
                &&& forall|p: int|
                    run_has(run_of(Seg { off: r.0, len: r.1 }), p) ==> !#[trigger] runs_have(
                        before,
                        p,
                    )
            },
        ensures
            final(self).wf(),
            final(self).same_but_free(old(self)),
            final(self).free@ == old(self).free@,
            final(self).free_pages == old(self).free_pages - pages,
            d.owner is Pool,
            d.segs@ == segs@,
            d.len == pages * PAGE,
            d.wf(*final(self)),
    {
        self.free_pages = self.free_pages - pages;
        proof {
            lemma_lease_segs(taken, self.npages);
            lemma_total_bound(taken, self.npages as int);
            assert forall|p: int| self.reserved(p) implies !#[trigger] runs_have(self.free@, p) by {
                assert(!runs_have(before, p));
            }
            assert forall|p: int| #[trigger] runs_have(lease_runs(segs@), p) implies !runs_have(
                self.free@,
                p,
            ) && !self.reserved(p) by {
                assert(runs_have(before, p));
            }
        }
        SlotData { segs, len: pages as usize * PAGE, owner: Owner::Pool }
    }

    /// First free run of at least `pages` pages.
    fn find_fit(&self, pages: u32) -> (i: usize)
        ensures
            i == fit_index(self.free@, pages as int, 0),
            i <= self.free@.len(),
            i < self.free@.len() ==> self.free@[i as int].len >= pages,
    {
        let mut i: usize = 0;
        while i < self.free.len() && self.free[i].len < pages
            invariant
                i <= self.free@.len(),
                fit_index(self.free@, pages as int, 0) == fit_index(
                    self.free@,
                    pages as int,
                    i as int,
                ),
            decreases self.free@.len() - i,
        {
            i += 1;
        }
        i
    }

    /// Take `pages` pages off the front of free run `i`; returns the first.
    fn take_front(&mut self, i: usize, pages: u32) -> (start: u32)
        requires
            old(self).wf(),
            i < old(self).free@.len(),
            0 < pages <= old(self).free@[i as int].len,
        ensures
            start == old(self).free@[i as int].start,
            final(self).free@ == shrunk(old(self).free@, i as int, pages as int),
            final(self).free_pages == old(self).free_pages,
            final(self).same_but_free(old(self)),
    {
        let r: Run = self.free[i];
        if r.len == pages {
            self.free.remove(i);
        } else {
            assert(r.start + r.len <= self.npages);
            self.free.set(i, Run { start: r.start + pages, len: r.len - pages });
        }
        r.start
    }

    /// The outcome `r` of reserving `bytes` of arena on `pre`: `None`, and
    /// nothing changed, when the arena is not registered or no free run is that
    /// large; otherwise the front of the first run that is.
    pub open spec fn arena_reserved(
        pre: BufPool,
        post: BufPool,
        bytes: int,
        r: Option<(usize, usize)>,
    ) -> bool {
        let pages = pages_for(bytes);
        let i = fit_index(pre.free@, pages, 0);
        if pre.buf_index is None || i >= pre.free@.len() {
            r is None && post == pre
        } else {
            &&& r == Some(((pre.free@[i].start * PAGE) as usize, (pages * PAGE) as usize))
            &&& post.send_arena == r
            &&& post.free@ == shrunk(pre.free@, i, pages)
            &&& post.free_pages == pre.free_pages - pages
            &&& post.mem@ == pre.mem@
            &&& post.npages == pre.npages
            &&& post.buf_index == pre.buf_index
        }
    }

    /// Permanently reserve `bytes` (rounded up to whole pages) of contiguous
    /// arena for the send path's headers; returns its `(offset, length)`. The
    /// pages never return to the free list. `None` when the arena is not
    /// registered or no free run is that large.
    pub fn reserve_arena(&mut self, bytes: usize) -> (r: Option<(usize, usize)>)
        requires
            old(self).wf(),
            bytes + PAGE - 1 <= usize::MAX,
        ensures
            final(self).wf(),
            BufPool::arena_reserved(*old(self), *final(self), bytes as int, r),
    {
        proof {
            lemma_fit_index(self.free@, pages_for(bytes as int), 0);
        }
        if self.buf_index.is_none() {
            return None;
        }
        let mut pages: usize = (bytes + (PAGE - 1)) / PAGE;
        if pages < 1 {
            pages = 1;
        }
        if pages > u32::MAX as usize {
            return None;
        }
        let want: u32 = pages as u32;
        let i: usize = self.find_fit(want);
        if i >= self.free.len() {
            return None;
        }
        proof {
            lemma_shrunk(self.free@, i as int, want as int, self.npages as int);
            lemma_total_bound(self.free@, self.npages as int);
            let f = self.free@[i as int];
            assert(f.start + f.len <= self.npages);
            lemma_run_of_seg_of(Run { start: f.start, len: want }, self.npages);
        }
        let start: u32 = self.take_front(i, want);
        self.free_pages = self.free_pages - want;
        let region: (usize, usize) = (start as usize * PAGE, want as usize * PAGE);
        self.send_arena = Some(region);
        proof {
            let r = Run { start, len: want };
            assert(run_of(Seg { off: region.0, len: region.1 }) == r);
            assert forall|p: int| run_has(r, p) implies !#[trigger] runs_have(self.free@, p) by {
                assert(run_has(seq![r][0], p));
                assert(runs_have(seq![r], p));
            }
        }
        Some(region)
    }

    /// The outcome `r` of leasing `len` bytes on `pre`: what [`alloc_plan`]
    /// takes off the free list; `None`, and nothing changed, where it finds no
    /// plan.
    pub open spec fn leased_out(
        pre: BufPool,
        post: BufPool,
        len: int,
        r: Option<SlotData>,
    ) -> bool {
        &&& post.same_but_free(&pre)
        &&& match alloc_plan(pre.free@, pages_for(len)) {
            None => r is None && post == pre,
            Some((taken, rest)) => {
                &&& r matches Some(d)
                &&& d.owner is Pool
                &&& d.segs@ == lease_segs(taken)
                &&& d.len == pages_for(len) * PAGE
                &&& d.wf(post)
                &&& post.free@ == rest
                &&& post.free_pages == pre.free_pages - pages_for(len)
            },
        }
    }

    /// Lease `len` bytes (rounded up to whole pages): one contiguous run if
    /// one is free, else a scatter list, else `None` (too few free pages, or
    /// more than [`MAX_SEGS`] runs needed). See [`alloc_plan`].
    pub fn lease(&mut self, len: usize) -> (r: Option<SlotData>)
        requires
            old(self).wf(),
            len + PAGE - 1 <= usize::MAX,
        ensures
            final(self).wf(),
            BufPool::leased_out(*old(self), *final(self), len as int, r),
    {
        let ghost s0 = self.free@;
        let ghost n = self.npages as int;
        let mut pages: usize = (len + (PAGE - 1)) / PAGE;
        if pages < 1 {
            pages = 1;
        }
        proof {
            lemma_total_bound(s0, n);
            lemma_fit_index(s0, pages as int, 0);
        }
        if pages > u32::MAX as usize {
            return None;
        }
        let want: u32 = pages as u32;
        if self.free_pages < want {
            return None;
        }
        let mut segs: Vec<Seg> = Vec::new();

        // Fast path: a single run that fits (keeps the buffer contiguous).
        let i: usize = self.find_fit(want);
        if i < self.free.len() {
            proof {
                alloc_plan_splits(s0, want as int, n);
                assert(s0[i as int].start + s0[i as int].len <= n);
            }
            let start: u32 = self.take_front(i, want);
            segs.push(Seg { off: start as usize * PAGE, len: want as usize * PAGE });
            let ghost taken = seq![Run { start, len: want }];
            assert(segs@ =~= lease_segs(taken));
            return Some(self.make_lease(segs, want, Ghost(taken), Ghost(s0)));
        }
        // Scatter path: confirm it fits in MAX_SEGS runs before mutating.

        proof {
            lemma_carved(s0, want as int, n);
        }
        let mut need: u32 = want;
        let mut count: usize = 0;
        assert(s0.skip(0) =~= s0);
        while count < self.free.len() && need > 0
            invariant
                *self == *old(self),
                self.wf(),
                self.free@ == s0,
                runs_total(s0) >= want,
                fit_index(s0, want as int, 0) >= s0.len(),
                want == pages_for(len as int),
                canonical(s0, n),
                count <= s0.len(),
                count <= MAX_SEGS,
                count <= carved(s0, want as int).len(),
                carved(s0, want as int).len() == count + carved(
                    s0.skip(count as int),
                    need as int,
                ).len(),
                runs_total(s0.skip(count as int)) >= need,
            decreases s0.len() - count,
        {
            proof {
                let t = s0.skip(count as int);
                assert(t[0] == s0[count as int]);
                assert(t.drop_first() =~= s0.skip(count + 1));
                lemma_skip_canonical(s0, count as int, n);
                lemma_drop_first(t, n);
                assert(carved(t, need as int).len() >= 1);
            }
            if count == MAX_SEGS {
                return None;
            }
            let have: u32 = self.free[count].len;
            proof {
                if have >= need {
                    assert(carved(s0.skip(count + 1), 0) =~= seq![]);
                }
            }
            count += 1;
            need = if need > have { need - have } else { 0 };
        }
        proof {
            if need > 0 {
                assert(s0.skip(count as int) =~= seq![]);
            }
            assert(carved(s0.skip(count as int), 0) =~= seq![]);
            assert(carved(s0, want as int).len() == count);
        }
        // Carve from the front; every taken run is whole except the last.
        let mut need: u32 = want;
        while need > 0
            invariant
                self.wf_arena(),
                canonical(self.free@, n),
                n == self.npages,
                need <= runs_total(self.free@),
                need <= want,
                lease_segs(carved(s0, want as int)) == segs@ + lease_segs(
                    carved(self.free@, need as int),
                ),
                uncarved(s0, want as int) == uncarved(self.free@, need as int),
                self.mem@ == old(self).mem@,
                self.npages == old(self).npages,
                self.buf_index == old(self).buf_index,
                self.send_arena == old(self).send_arena,
                self.free_pages == old(self).free_pages,
                need < want ==> segs@.len() > 0,
                segs@.len() <= lease_segs(carved(s0, want as int)).len(),
            decreases need,
        {
            let ghost s = self.free@;
            let r: Run = self.free[0];
            assert(r.start + r.len <= n);
            let take: u32 = if need < r.len { need } else { r.len };
            segs.push(Seg { off: r.start as usize * PAGE, len: take as usize * PAGE });
            if r.len == take {
                self.free.remove(0);
            } else {
                self.free.set(0, Run { start: r.start + take, len: r.len - take });
            }
            need = need - take;
            proof {
                let ghost piece = Run { start: r.start, len: take };
                lemma_shrunk(s, 0, take as int, n);
                if r.len == take {
                    assert(s.remove(0) =~= s.drop_first());
                    lemma_drop_first(s, n);
                }
                if need == 0 {
                    assert(carved(self.free@, 0) =~= seq![]);
                    assert(carved(s, take as int) =~= seq![piece]);
                    assert(lease_segs(seq![piece]) =~= seq![seg_of(piece)]);
                    assert(self.free@ =~= uncarved(s, take as int));
                } else {
                    assert(self.free@ =~= s.drop_first());
                    let c = carved(s.drop_first(), need as int);
                    assert(lease_segs(seq![piece] + c) =~= seq![seg_of(piece)] + lease_segs(c));
                }
                assert(lease_segs(carved(s0, want as int)) =~= segs@ + lease_segs(
                    carved(self.free@, need as int),
                ));
            }
        }
        proof {
            assert(carved(self.free@, 0) =~= seq![]);
            assert(segs@ =~= lease_segs(carved(s0, want as int)));
        }
        Some(self.make_lease(segs, want, Ghost(carved(s0, want as int)), Ghost(s0)))
    }
}

/// No page is in both segment lists.
pub open spec fn disjoint(a: Seq<Seg>, b: Seq<Seg>) -> bool {
    forall|p: int| #[trigger] runs_have(lease_runs(a), p) ==> !runs_have(lease_runs(b), p)
}

/// Taking pages off the free list leaves every lease already out in force,
/// and shares no page with it.
pub proof fn lease_keeps_others(before: BufPool, after: BufPool, new: Seq<Seg>, other: Seq<Seg>)
    requires
        after.same_but_free(&before),
        forall|p: int| #[trigger]
            runs_have(before.free@, p) <==> (runs_have(lease_runs(new), p) || runs_have(
                after.free@,
                p,
            )),
        before.leased(other),
    ensures
        after.leased(other),
        disjoint(other, new),
        disjoint(new, other),
{
    assert forall|p: int| #[trigger] runs_have(lease_runs(other), p) implies !runs_have(
        after.free@,
        p,
    ) && !after.reserved(p) by {
        assert(!runs_have(before.free@, p));
    }
    assert forall|p: int| #[trigger] runs_have(lease_runs(other), p) implies !runs_have(
        lease_runs(new),
        p,
    ) by {
        assert(!runs_have(before.free@, p));
    }
    assert forall|p: int| #[trigger] runs_have(lease_runs(new), p) implies !runs_have(
        lease_runs(other),
        p,
    ) by {
        assert(runs_have(before.free@, p));
    }
}

/// Giving a lease's pages back leaves every other lease in force.
pub proof fn release_keeps_others(before: BufPool, after: BufPool, gone: Seq<Seg>, other: Seq<Seg>)
    requires
        after.same_but_free(&before),
        forall|p: int| #[trigger]
            runs_have(after.free@, p) <==> (runs_have(before.free@, p) || runs_have(
                lease_runs(gone),
                p,
            )),
        before.leased(other),
        disjoint(other, gone),
    ensures
        after.leased(other),
{
    assert forall|p: int| #[trigger] runs_have(lease_runs(other), p) implies !runs_have(
        after.free@,
        p,
    ) && !after.reserved(p) by {
        assert(!runs_have(before.free@, p));
    }
}

/// Giving a lease back restores the free list to what it was before the lease,
/// run for run.
pub proof fn release_undoes_lease(s: Seq<Run>, pages: int, back: Seq<Run>, n: int)
    requires
        canonical(s, n),
        n <= u32::MAX,
        0 < pages,
        alloc_plan(s, pages) is Some,
        canonical(back, n),
        forall|p: int| #[trigger]
            runs_have(back, p) <==> (runs_have(alloc_plan(s, pages).unwrap().1, p) || runs_have(
                alloc_plan(s, pages).unwrap().0,
                p,
            )),
    ensures
        back == s,
{
    alloc_plan_splits(s, pages, n);
    assert forall|p: int| #[trigger] runs_have(back, p) <==> runs_have(s, p) by {
    }
    canonical_unique(back, s, n);
}

proof fn lemma_take_push(s: Seq<Run>, i: int)
    requires
        0 <= i < s.len(),
    ensures
        runs_total(s.take(i + 1)) == runs_total(s.take(i)) + s[i].len,
        forall|p: int| #[trigger]
            runs_have(s.take(i + 1), p) <==> (runs_have(s.take(i), p) || run_has(s[i], p)),
{
    let a = s.take(i);
    let b = s.take(i + 1);
    assert(b.drop_last() =~= a);
    assert forall|p: int| #[trigger] runs_have(b, p) <==> (runs_have(a, p) || run_has(s[i], p)) by {
        if runs_have(b, p) {
            let k = choose|k: int| 0 <= k < b.len() && #[trigger] run_has(b[k], p);
            if k < i {
                assert(run_has(a[k], p));
            }
        }
        if runs_have(a, p) {
            let k = choose|k: int| 0 <= k < a.len() && #[trigger] run_has(a[k], p);
            assert(run_has(b[k], p));
        }
        if run_has(s[i], p) {
            assert(run_has(b[i], p));
        }
    }
}

impl BufPool {
    /// Return leased pages to the free list.
    pub fn free_segs(&mut self, segs: &Vec<Seg>)
        requires
            old(self).wf(),
            old(self).leased(segs@),
        ensures
            final(self).wf(),
            final(self).same_but_free(old(self)),
            forall|p: int| #[trigger]
                runs_have(final(self).free@, p) <==> (runs_have(old(self).free@, p) || runs_have(
                    lease_runs(segs@),
                    p,
                )),
            final(self).free_pages == old(self).free_pages + runs_total(lease_runs(segs@)),
    {
        let ghost s0 = self.free@;
        let ghost runs = lease_runs(segs@);
        let ghost n = self.npages as int;
        let mut i: usize = 0;
        let mut freed: u32 = 0;
        proof {
            assert(runs.take(0) =~= seq![]);
            lemma_total_bound(runs, n);
        }
        while i < segs.len()
            invariant
                i <= segs@.len(),
                runs == lease_runs(segs@),
                n == self.npages,
                freed == runs_total(runs.take(i as int)),
                runs_total(runs) <= n,
                old(self).leased(segs@),
                old(self).free@ == s0,
                canonical(self.free@, n),
                canonical(runs, n),
                self.same_but_free(old(self)),
                self.free_pages == old(self).free_pages,
                old(self).wf(),
                forall|p: int| #[trigger]
                    runs_have(self.free@, p) <==> (runs_have(s0, p) || runs_have(
                        runs.take(i as int),
                        p,
                    )),
                runs_total(self.free@) == runs_total(s0) + runs_total(runs.take(i as int)),
            decreases segs@.len() - i,
        {
            let seg: Seg = segs[i];
            let run: Run = Run { start: (seg.off / PAGE) as u32, len: (seg.len / PAGE) as u32 };
            proof {
                assert(old(self).in_arena(segs@[i as int]));
                assert(runs[i as int] == run);
                lemma_take_push(runs, i as int);
                lemma_take_total(runs, i + 1);
                assert forall|p: int| run_has(run, p) implies !#[trigger] runs_have(self.free@, p) by {
                    assert(run_has(runs[i as int], p));
                    assert(runs_have(runs, p));
                    if runs_have(runs.take(i as int), p) {
                        let k = choose|k: int|
                            0 <= k < runs.take(i as int).len() && #[trigger] run_has(
                                runs.take(i as int)[k],
                                p,
                            );
                        assert(runs[k].start + runs[k].len < runs[i as int].start);
                    }
                }
            }
            insert_run(&mut self.free, run, self.npages);
            freed = freed + run.len;
            i += 1;
        }
        proof {
            assert(runs.take(i as int) =~= runs);
            lemma_total_bound(self.free@, n);
        }
        self.free_pages = self.free_pages + freed;
        proof {
            assert forall|p: int| self.reserved(p) implies !#[trigger] runs_have(self.free@, p) by {
                assert(!runs_have(s0, p));
                if runs_have(runs, p) {
                    assert(!old(self).reserved(p));
                }
            }
        }
    }
}

proof fn lemma_take_total(s: Seq<Run>, k: int)
    requires
        0 <= k <= s.len(),
    ensures
        runs_total(s.take(k)) <= runs_total(s),
    decreases s.len() - k,
{
    if k < s.len() {
        lemma_take_push(s, k);
        lemma_take_total(s, k + 1);
    } else {
        assert(s.take(k) =~= s);
    }
}

/// The bytes a segment list covers, in order.
pub open spec fn seg_bytes(mem: Seq<u8>, segs: Seq<Seg>) -> Seq<u8>
    decreases segs.len(),
{
    if segs.len() == 0 {
        seq![]
    } else {
        seg_bytes(mem, segs.drop_last()) + mem.subrange(
            segs.last().off as int,
            segs.last().off + segs.last().len,
        )
    }
}

/// Every segment lies within `n` bytes of backing, and none starts before the
/// previous one ends.
pub open spec fn laid_out(segs: Seq<Seg>, n: int) -> bool {
    &&& forall|i: int| 0 <= i < segs.len() ==> (#[trigger] segs[i]).off + segs[i].len <= n
    &&& forall|i: int, j: int|
        0 <= i < j < segs.len() ==> (#[trigger] segs[i]).off + segs[i].len <= (
        #[trigger] segs[j]).off
}

/// Backing byte `q` belongs to one of the segments.
pub open spec fn covers(segs: Seq<Seg>, q: int) -> bool {
    exists|i: int| 0 <= i < segs.len() && (#[trigger] segs[i]).off <= q < segs[i].off + segs[i].len
}

/// `s` with `src` written over it from `off` on.
pub open spec fn overwritten(s: Seq<u8>, off: int, src: Seq<u8>) -> Seq<u8> {
    Seq::new(
        s.len(),
        |k: int|
            if off <= k < off + src.len() {
                src[k - off]
            } else {
                s[k]
            },
    )
}

/// Logical offset at which segment `i` begins.
pub open spec fn seg_start(segs: Seq<Seg>, i: int) -> nat {
    segs_total(segs.take(i))
}

proof fn lemma_seg_start(segs: Seq<Seg>, i: int)
    requires
        0 <= i < segs.len(),
    ensures
        seg_start(segs, i + 1) == seg_start(segs, i) + segs[i].len,
        seg_start(segs, i + 1) <= segs_total(segs),
        seg_start(segs, 0) == 0,
        seg_start(segs, segs.len() as int) == segs_total(segs),
    decreases segs.len() - i,
{
    assert(segs.take(i + 1).drop_last() =~= segs.take(i));
    assert(segs.take(segs.len() as int) =~= segs);
    if i + 1 < segs.len() {
        lemma_seg_start(segs, i + 1);
    }
}

/// Byte `j` of segment `i`.
pub open spec fn seg_byte(mem: Seq<u8>, segs: Seq<Seg>, i: int, j: int) -> u8 {
    mem[segs[i].off + j]
}

proof fn lemma_seg_bytes_len(mem: Seq<u8>, segs: Seq<Seg>)
    requires
        forall|i: int| 0 <= i < segs.len() ==> (#[trigger] segs[i]).off + segs[i].len <= mem.len(),
    ensures
        seg_bytes(mem, segs).len() == segs_total(segs),
    decreases segs.len(),
{
    if segs.len() > 0 {
        lemma_seg_bytes_len(mem, segs.drop_last());
        assert(segs[segs.len() - 1].off + segs[segs.len() - 1].len <= mem.len());
    }
}

/// Byte `j` of segment `i`, seen through [`seg_bytes`].
proof fn lemma_seg_byte(mem: Seq<u8>, segs: Seq<Seg>, i: int, j: int)
    requires
        forall|i: int| 0 <= i < segs.len() ==> (#[trigger] segs[i]).off + segs[i].len <= mem.len(),
        0 <= i < segs.len(),
        0 <= j < segs[i].len,
    ensures
        seg_start(segs, i) + j < segs_total(segs),
        seg_bytes(mem, segs)[seg_start(segs, i) + j] == seg_byte(mem, segs, i, j),
    decreases segs.len(),
{
    let t = segs.drop_last();
    lemma_seg_bytes_len(mem, t);
    lemma_seg_start(segs, i);
    if i < segs.len() - 1 {
        assert(segs.take(i) =~= t.take(i));
        lemma_seg_byte(mem, t, i, j);
    } else {
        assert(segs.take(i) =~= t);
    }
}

/// The segment and inner offset of logical byte `k`.
proof fn lemma_find_byte(segs: Seq<Seg>, k: int) -> (r: (int, int))
    requires
        0 <= k < segs_total(segs),
    ensures
        0 <= r.0 < segs.len(),
        0 <= r.1 < segs[r.0].len,
        k == seg_start(segs, r.0) + r.1,
    decreases segs.len(),
{
    let t = segs.drop_last();
    let last = segs.len() - 1;
    if k < segs_total(t) {
        let r = lemma_find_byte(t, k);
        assert(segs.take(r.0) =~= t.take(r.0));
        r
    } else {
        assert(segs.take(last) =~= t);
        (last as int, k - segs_total(t))
    }
}

/// Writing through a segment list writes the logical bytes.
proof fn lemma_scattered(old_mem: Seq<u8>, mem: Seq<u8>, segs: Seq<Seg>, off: int, src: Seq<u8>)
    requires
        old_mem.len() == mem.len(),
        laid_out(segs, mem.len() as int),
        0 <= off,
        off + src.len() <= segs_total(segs),
        forall|i: int, j: int|
            #![trigger seg_byte(mem, segs, i, j)]
            0 <= i < segs.len() && 0 <= j < segs[i].len ==> seg_byte(mem, segs, i, j) == ({
                let k = seg_start(segs, i) + j;
                if off <= k < off + src.len() {
                    src[k - off]
                } else {
                    seg_byte(old_mem, segs, i, j)
                }
            }),
    ensures
        seg_bytes(mem, segs) == overwritten(seg_bytes(old_mem, segs), off, src),
{
    lemma_seg_bytes_len(mem, segs);
    lemma_seg_bytes_len(old_mem, segs);
    let a = seg_bytes(mem, segs);
    let b = overwritten(seg_bytes(old_mem, segs), off, src);
    assert forall|k: int| 0 <= k < a.len() implies a[k] == b[k] by {
        let (i, j) = lemma_find_byte(segs, k);
        lemma_seg_byte(mem, segs, i, j);
        lemma_seg_byte(old_mem, segs, i, j);
    }
    assert(a =~= b);
}

/// Copy `src` into the memory under `segs` at logical offset `off`, crossing
/// segment boundaries as needed.
fn scatter(mem: &mut Vec<u8>, segs: &Vec<Seg>, off: usize, src: &[u8])
    requires
        laid_out(segs@, old(mem)@.len() as int),
        off + src@.len() <= segs_total(segs@),
    ensures
        final(mem)@.len() == old(mem)@.len(),
        seg_bytes(final(mem)@, segs@) == overwritten(
            seg_bytes(old(mem)@, segs@),
            off as int,
            src@,
        ),
        forall|q: int|
            0 <= q < old(mem)@.len() && !covers(segs@, q) ==> #[trigger] final(mem)@[q] == old(
                mem,
            )@[q],
{
    let ghost m0 = mem@;
    let ghost ss = segs@;
    let mut skip: usize = off;
    let mut done: usize = 0;
    let mut i: usize = 0;
    while i < segs.len() && done < src.len()
        invariant
            i <= ss.len(),
            ss == segs@,
            done <= src@.len(),
            mem@.len() == m0.len(),
            laid_out(ss, m0.len() as int),
            laid_out(ss, mem.len() as int),
            off + src@.len() <= segs_total(ss),
            seg_start(ss, i as int) + skip == off + done || done == src@.len(),
            done > 0 ==> skip == 0 && seg_start(ss, i as int) >= off + done,
            forall|a: int, b: int|
                #![trigger seg_byte(mem@, ss, a, b)]
                0 <= a < i && 0 <= b < ss[a].len ==> seg_byte(mem@, ss, a, b) == ({
                    let k = seg_start(ss, a) + b;
                    if off <= k < off + done {
                        src@[k - off]
                    } else {
                        seg_byte(m0, ss, a, b)
                    }
                }),
            forall|a: int| 0 <= a < i ==> #[trigger] seg_start(ss, a + 1) <= seg_start(ss, i as int),
            forall|q: int|
                0 <= q < m0.len() && !covers(ss.take(i as int), q) ==> #[trigger] mem@[q] == m0[q],
        decreases ss.len() - i,
    {
        let seg: Seg = segs[i];
        let ghost m1 = mem@;
        proof {
            lemma_seg_start(ss, i as int);
            assert(seg == ss[i as int]);
        }
        let ghost base = seg_start(ss, i as int);
        let ghost done0 = done;
        let ghost skip0 = skip;
        if skip >= seg.len {
            skip = skip - seg.len;
        } else {
            let room: usize = seg.len - skip;
            let left: usize = src.len() - done;
            let take: usize = if room < left { room } else { left };
            let mut b: usize = 0;
            while b < take
                invariant
                    b <= take,
                    take <= seg.len - skip,
                    take <= src.len() - done,
                    skip < seg.len,
                    seg.off + seg.len <= mem.len(),
                    mem@.len() == m1.len(),
                    done <= src.len(),
                    forall|q: int|
                        0 <= q < m1.len() ==> #[trigger] mem@[q] == (if seg.off + skip <= q
                            < seg.off + skip + b {
                            src@[done + (q - (seg.off + skip))]
                        } else {
                            m1[q]
                        }),
                decreases take - b,
            {
                mem.set(seg.off + skip + b, src[done + b]);
                b += 1;
            }
            done = done + take;
            skip = 0;
        }
        proof {
            let m2 = mem@;
            assert forall|q: int| 0 <= q < m0.len() && !covers(ss.take(i + 1), q) implies
                #[trigger] m2[q] == m0[q] by {
                assert(ss.take(i + 1)[i as int] == seg);
                assert(!(seg.off <= q < seg.off + seg.len));
                if covers(ss.take(i as int), q) {
                    let a = choose|a: int|
                        0 <= a < ss.take(i as int).len() && (#[trigger] ss.take(i as int)[a]).off
                            <= q < ss.take(i as int)[a].off + ss.take(i as int)[a].len;
                    assert(ss.take(i + 1)[a] == ss[a]);
                }
            }
            assert forall|a: int, b: int|
                #![trigger seg_byte(m2, ss, a, b)]
                0 <= a < i + 1 && 0 <= b < ss[a].len implies seg_byte(m2, ss, a, b) == ({
                let k = seg_start(ss, a) + b;
                if off <= k < off + done {
                    src@[k - off]
                } else {
                    seg_byte(m0, ss, a, b)
                }
            }) by {
                let q = ss[a].off + b;
                if a < i {
                    assert(ss[a].off + ss[a].len <= ss[i as int].off);
                    assert(seg_byte(m1, ss, a, b) == m2[q]);
                    lemma_seg_start(ss, a);
                    assert(seg_start(ss, a + 1) <= base);
                } else {
                    assert(m1[q] == m0[q]) by {
                        if covers(ss.take(i as int), q) {
                            let c = choose|c: int|
                                0 <= c < ss.take(i as int).len() && (
                                #[trigger] ss.take(i as int)[c]).off <= q < ss.take(
                                    i as int,
                                )[c].off + ss.take(i as int)[c].len;
                            assert(ss[c].off + ss[c].len <= ss[i as int].off);
                        }
                    }
                }
            }
        }
        i += 1;
    }
    proof {
        if done < src@.len() {
            assert(ss.take(i as int) =~= ss);
        }
        assert(done == src@.len());
        assert forall|a: int, b: int|
            #![trigger seg_byte(mem@, ss, a, b)]
            0 <= a < ss.len() && 0 <= b < ss[a].len implies seg_byte(mem@, ss, a, b) == ({
            let k = seg_start(ss, a) + b;
            if off <= k < off + src@.len() {
                src@[k - off]
            } else {
                seg_byte(m0, ss, a, b)
            }
        }) by {
            let q = ss[a].off + b;
            if a < i {
                lemma_start_monotone(ss, a + 1, i as int);
                lemma_seg_start(ss, a);
                assert(seg_byte(mem@, ss, a, b) == mem@[q]);
            } else {
                lemma_start_monotone(ss, i as int, a);
                if covers(ss.take(i as int), q) {
                    let c = choose|c: int|
                        0 <= c < ss.take(i as int).len() && (#[trigger] ss.take(i as int)[c]).off
                            <= q < ss.take(i as int)[c].off + ss.take(i as int)[c].len;
                    assert(ss[c].off + ss[c].len <= ss[a].off);
                }
            }
        }
        lemma_scattered(m0, mem@, ss, off as int, src@);
        assert forall|q: int| 0 <= q < m0.len() && !covers(ss, q) implies #[trigger] mem@[q]
            == m0[q] by {
            if covers(ss.take(i as int), q) {
                let c = choose|c: int|
                    0 <= c < ss.take(i as int).len() && (#[trigger] ss.take(i as int)[c]).off <= q
                        < ss.take(i as int)[c].off + ss.take(i as int)[c].len;
                assert(ss[c].off <= q < ss[c].off + ss[c].len);
            }
        }
    }
}

proof fn lemma_start_monotone(segs: Seq<Seg>, i: int, j: int)
    requires
        0 <= i <= j <= segs.len(),
    ensures
        seg_start(segs, i) <= seg_start(segs, j),
    decreases j - i,
{
    if i < j {
        lemma_seg_start(segs, j - 1);
        lemma_start_monotone(segs, i, j - 1);
    }
}

/// The parts of `segs` that hold the logical range `[off, off + len)`, in order.
pub open spec fn subsegs(segs: Seq<Seg>, off: int, len: int) -> Seq<Seg>
    decreases segs.len(),
{
    if segs.len() == 0 || len <= 0 {
        seq![]
    } else if off >= segs[0].len {
        subsegs(segs.drop_first(), off - segs[0].len, len)
    } else {
        let room = segs[0].len - off;
        let take = if room < len { room } else { len };
        seq![Seg { off: (segs[0].off + off) as usize, len: take as usize }] + subsegs(
            segs.drop_first(),
            0,
            len - take,
        )
    }
}

/// A segment in front of others: their lengths and their bytes add up.
pub proof fn lemma_segs_cons(mem: Seq<u8>, s: Seg, rest: Seq<Seg>)
    ensures
        segs_total(seq![s] + rest) == s.len + segs_total(rest),
        seg_bytes(mem, seq![s] + rest) == mem.subrange(s.off as int, s.off + s.len) + seg_bytes(
            mem,
            rest,
        ),
    decreases rest.len(),
{
    let all = seq![s] + rest;
    reveal_with_fuel(segs_total, 2);
    reveal_with_fuel(seg_bytes, 2);
    if rest.len() == 0 {
        assert(all.last() == s);
        assert(all.drop_last() =~= seq![]);
        assert(seg_bytes(mem, all) =~= mem.subrange(s.off as int, s.off + s.len) + seg_bytes(
            mem,
            rest,
        ));
    } else {
        lemma_segs_cons(mem, s, rest.drop_last());
        assert(all.drop_last() =~= seq![s] + rest.drop_last());
        assert(all.last() == rest.last());
        assert(seg_bytes(mem, all) =~= mem.subrange(s.off as int, s.off + s.len) + seg_bytes(
            mem,
            rest,
        ));
    }
}

/// The sub-segments of a range hold exactly the range's bytes.
pub proof fn subsegs_bytes(mem: Seq<u8>, segs: Seq<Seg>, off: int, len: int)
    requires
        forall|i: int| 0 <= i < segs.len() ==> (#[trigger] segs[i]).off + segs[i].len <= mem.len(),
        mem.len() <= usize::MAX,
        0 <= off,
        0 <= len,
        off + len <= segs_total(segs),
    ensures
        seg_bytes(mem, subsegs(segs, off, len)) == seg_bytes(mem, segs).subrange(off, off + len),
        segs_total(subsegs(segs, off, len)) == len,
        forall|i: int|
            0 <= i < subsegs(segs, off, len).len() ==> {
                let s = #[trigger] subsegs(segs, off, len)[i];
                s.off + s.len <= mem.len() && 0 < s.len
            },
    decreases segs.len(),
{
    let sub = subsegs(segs, off, len);
    lemma_seg_bytes_len(mem, segs);
    if segs.len() == 0 || len == 0 {
        assert(seg_bytes(mem, sub) =~= seg_bytes(mem, segs).subrange(off, off + len));
    } else {
        let s = segs[0];
        let rest = segs.drop_first();
        assert(segs =~= seq![s] + rest);
        lemma_segs_cons(mem, s, rest);
        assert forall|i: int| 0 <= i < rest.len() implies (#[trigger] rest[i]).off + rest[i].len
            <= mem.len() by {
            assert(segs[i + 1].off + segs[i + 1].len <= mem.len());
        }
        lemma_seg_bytes_len(mem, rest);
        let whole = mem.subrange(s.off as int, s.off + s.len) + seg_bytes(mem, rest);
        if off >= s.len {
            subsegs_bytes(mem, rest, off - s.len, len);
            assert(seg_bytes(mem, rest).subrange(off - s.len, off - s.len + len)
                =~= whole.subrange(off, off + len));
        } else {
            let room = s.len - off;
            let take = if room < len { room } else { len };
            let piece = Seg { off: (s.off + off) as usize, len: take as usize };
            let tail = subsegs(rest, 0, len - take);
            subsegs_bytes(mem, rest, 0, len - take);
            lemma_segs_cons(mem, piece, tail);
            assert(seg_bytes(mem, sub) =~= whole.subrange(off, off + len));
            assert forall|i: int| 0 <= i < sub.len() implies {
                let q = #[trigger] sub[i];
                q.off + q.len <= mem.len() && 0 < q.len
            } by {
                if i > 0 {
                    assert(sub[i] == tail[i - 1]);
                }
            }
        }
    }
}

/// Split the segments covering the logical range `[off, off + len)` into
/// sub-segments, in order: one for a contiguous buffer, several for a
/// scattered one.
pub fn fill_subsegs(segs: &Vec<Seg>, off: usize, len: usize) -> (out: Vec<Seg>)
    requires
        forall|i: int|
            0 <= i < segs@.len() ==> (#[trigger] segs@[i]).off + segs@[i].len <= usize::MAX,
    ensures
        out@ == subsegs(segs@, off as int, len as int),
{
    let mut out: Vec<Seg> = Vec::new();
    let mut skip: usize = off;
    let mut left: usize = len;
    let mut i: usize = 0;
    assert(segs@.skip(0) =~= segs@);
    while i < segs.len() && left > 0
        invariant
            i <= segs@.len(),
            forall|i: int|
                0 <= i < segs@.len() ==> (#[trigger] segs@[i]).off + segs@[i].len <= usize::MAX,
            subsegs(segs@, off as int, len as int) == out@ + subsegs(
                segs@.skip(i as int),
                skip as int,
                left as int,
            ),
        decreases segs@.len() - i,
    {
        let seg: Seg = segs[i];
        proof {
            assert(segs@.skip(i as int)[0] == seg);
            assert(segs@.skip(i as int).drop_first() =~= segs@.skip(i + 1));
        }
        if skip >= seg.len {
            skip = skip - seg.len;
        } else {
            let room: usize = seg.len - skip;
            let take: usize = if room < left { room } else { left };
            let ghost before = out@;
            let piece: Seg = Seg { off: seg.off + skip, len: take };
            out.push(piece);
            proof {
                let rest = subsegs(segs@.skip(i + 1), 0, left - take);
                assert(before + (seq![piece] + rest) =~= out@ + rest);
            }
            left = left - take;
            skip = 0;
        }
        i += 1;
    }
    proof {
        assert(out@ + subsegs(segs@.skip(i as int), skip as int, left as int) =~= out@);
    }
    out
}

/// A consumer of bytes handed over chunk by chunk.
pub trait SegSink {
    /// Every byte handed over so far, in order.
    spec fn seen(&self) -> Seq<u8>;

    /// What the consumer started from; no chunk changes it.
    spec fn origin(&self) -> int;

    /// Take the next chunk; an empty one is never handed over.
    fn visit(&mut self, chunk: &[u8])
        requires
            0 < chunk@.len(),
        ensures
            final(self).seen() == old(self).seen() + chunk@,
            final(self).origin() == old(self).origin(),
    ;
}

impl SegSink for Vec<u8> {
    open spec fn seen(&self) -> Seq<u8> {
        self@
    }

    open spec fn origin(&self) -> int {
        0
    }

    fn visit(&mut self, chunk: &[u8]) {
        let ghost before = self@;
        let mut i: usize = 0;
        while i < chunk.len()
            invariant
                i <= chunk@.len(),
                self@ == before + chunk@.take(i as int),
            decreases chunk@.len() - i,
        {
            self.push(chunk[i]);
            i += 1;
            assert(before + chunk@.take(i as int) =~= (before + chunk@.take(i - 1)).push(
                chunk@[i - 1],
            ));
        }
        assert(chunk@.take(i as int) =~= chunk@);
    }
}

/// A provider of receive-ring sub-buffers, implemented by the transport that
/// owns the ring.
pub trait RingProvider {
    /// The fixed-buffer index of sub-buffer `bid`, if registered.
    spec fn index_of(&self, bid: u16) -> Option<u16>;

    /// Borrows handed back so far, in order.
    spec fn released(&self) -> Seq<u16>;

    fn buf_index(&self, bid: u16) -> (idx: Option<u16>)
        ensures
            idx == self.index_of(bid),
    ;

    /// Release one borrow of sub-buffer `bid`.
    fn release(&mut self, bid: u16)
        ensures
            final(self).released() == old(self).released().push(bid),
    ;
}

/// The sub-buffers of one receive ring: their fixed-buffer indexes, and those
/// whose borrow has ended, oldest first.
pub struct RingTable {
    pub index: Vec<Option<u16>>,
    pub done: Vec<u16>,
}

impl RingProvider for RingTable {
    open spec fn index_of(&self, bid: u16) -> Option<u16> {
        if bid < self.index@.len() {
            self.index@[bid as int]
        } else {
            None
        }
    }

    open spec fn released(&self) -> Seq<u16> {
        self.done@
    }

    fn buf_index(&self, bid: u16) -> (idx: Option<u16>) {
        if (bid as usize) < self.index.len() {
            self.index[bid as usize]
        } else {
            None
        }
    }

    fn release(&mut self, bid: u16) {
        self.done.push(bid);
    }
}

/// What ending the life of buffer `d` does to its pool: a lease's pages return
/// to the free list, any other buffer leaves the pool as it was.
pub open spec fn gave_back(d: SlotData, before: BufPool, after: BufPool) -> bool {
    &&& after.wf()
    &&& !(d.owner is Pool) ==> after == before
    &&& d.owner is Pool ==> {
        &&& after.same_but_free(&before)
        &&& forall|p: int| #[trigger]
            runs_have(after.free@, p) <==> (runs_have(before.free@, p) || runs_have(
                lease_runs(d.segs@),
                p,
            ))
        &&& after.free_pages == before.free_pages + runs_total(lease_runs(d.segs@))
    }
}

/// The sub-buffer whose borrow ends with `d`, if `d` is a ring buffer.
pub open spec fn ring_borrow(d: SlotData) -> Seq<u16> {
    match d.owner {
        Owner::Ring { bid } => seq![bid],
        _ => seq![],
    }
}

impl SlotData {
    /// The memory the segments point into. A ring buffer's memory belongs to
    /// the ring's provider.
    pub open spec fn backing(&self, pool: BufPool) -> Seq<u8> {
        match self.owner {
            Owner::Owned(buf) => buf@,
            Owner::Pool => pool.mem@,
            _ => seq![],
        }
    }

    /// The buffer's bytes, in logical order.
    pub open spec fn bytes(&self, pool: BufPool) -> Seq<u8> {
        seg_bytes(self.backing(pool), self.segs@)
    }

    /// The memory the segments point into, where `ring` is the receive ring's.
    pub open spec fn backing_in(&self, pool: BufPool, ring: Seq<u8>) -> Seq<u8> {
        match self.owner {
            Owner::Ring { .. } => ring,
            _ => self.backing(pool),
        }
    }

    /// The buffer's bytes, in logical order, where `ring` is the receive ring's
    /// memory.
    pub open spec fn bytes_in(&self, pool: BufPool, ring: Seq<u8>) -> Seq<u8> {
        seg_bytes(self.backing_in(pool, ring), self.segs@)
    }

    /// A ring buffer's region lies within the ring's memory.
    pub open spec fn ring_holds(&self, ring: Seq<u8>) -> bool {
        self.owner is Ring ==> self.segs@[0].off + self.segs@[0].len <= ring.len()
    }

    /// The segments lie within the memory they point into.
    pub proof fn wf_laid_in(&self, pool: BufPool, ring: Seq<u8>)
        requires
            self.wf(pool),
            pool.wf(),
            self.ring_holds(ring),
        ensures
            laid_out(self.segs@, self.backing_in(pool, ring).len() as int),
            self.bytes_in(pool, ring).len() == self.len,
            !(self.owner is Ring) ==> self.backing_in(pool, ring).len() <= usize::MAX,
    {
        if self.owner is Ring {
            lemma_seg_bytes_len(ring, self.segs@);
        } else {
            self.wf_laid_out(pool);
        }
    }

    /// The memory the segments point into.
    fn memory<'a>(&'a self, pool: &'a BufPool, ring: &'a [u8]) -> (m: &'a [u8])
        ensures
            m@ == self.backing_in(*pool, ring@),
    {
        match &self.owner {
            Owner::Owned(buf) => buf.as_slice(),
            Owner::Pool => pool.mem.as_slice(),
            Owner::Ring { .. } => ring,
            Owner::Empty => {
                let none = vstd::slice::slice_subrange(ring, 0, 0);
                assert(none@ =~= seq![]);
                none
            },
        }
    }

    /// The segments of a buffer whose memory is at hand lie within it.
    pub proof fn wf_laid_out(&self, pool: BufPool)
        requires
            self.wf(pool),
            pool.wf(),
            !(self.owner is Ring),
        ensures
            laid_out(self.segs@, self.backing(pool).len() as int),
            self.bytes(pool).len() == self.len,
            self.backing(pool).len() <= usize::MAX,
    {
        let segs = self.segs@;
        let n = self.backing(pool).len() as int;
        match self.owner {
            Owner::Pool => {
                assert(pool.mem.len() == pool.mem@.len());
                assert forall|i: int, j: int| 0 <= i < j < segs.len() implies (
                #[trigger] segs[i]).off + segs[i].len <= (#[trigger] segs[j]).off by {
                    assert(pool.in_arena(segs[i]) && pool.in_arena(segs[j]));
                    let a = lease_runs(segs)[i];
                    let b = lease_runs(segs)[j];
                    assert(a.start + a.len < b.start);
                }
                assert forall|i: int| 0 <= i < segs.len() implies (#[trigger] segs[i]).off
                    + segs[i].len <= n by {
                    assert(pool.in_arena(segs[i]));
                }
            },
            Owner::Owned(buf) => {
                assert(buf.len() == buf@.len());
            },
            _ => {},
        }
        lemma_seg_bytes_len(self.backing(pool), segs);
    }

    /// No buffer leased.
    pub fn empty() -> (d: SlotData)
        ensures
            d.owner is Empty,
            d.segs@.len() == 0,
            d.len == 0,
            forall|pool: BufPool| #[trigger] d.wf(pool),
    {
        SlotData { segs: Vec::new(), len: 0, owner: Owner::Empty }
    }

    /// A private zeroed buffer of `len` bytes, rounded up to a page.
    pub fn owned(len: usize) -> (d: SlotData)
        requires
            len + PAGE - 1 <= usize::MAX,
        ensures
            d.owner is Owned,
            d.len == (len + PAGE - 1) / PAGE as int * PAGE,
            d.segs@ == seq![Seg { off: 0, len: d.len }],
            forall|pool: BufPool| #[trigger] d.wf(pool),
            forall|pool: BufPool|
                #[trigger] d.bytes(pool) == Seq::new(d.len as nat, |i: int| 0u8),
    {
        let n: usize = (len + (PAGE - 1)) / PAGE * PAGE;
        let buf: Vec<u8> = vec![0u8; n];
        let mut segs: Vec<Seg> = Vec::new();
        segs.push(Seg { off: 0, len: n });
        proof {
            assert(segs@ =~= seq![Seg { off: 0, len: n }]);
            assert(segs@ =~= seq![segs@[0]] + seq![]);
            lemma_segs_cons(buf@, segs@[0], seq![]);
            assert(segs_total(seq![]) == 0);
            assert(seg_bytes(buf@, segs@) =~= Seq::new(n as nat, |i: int| 0u8));
        }
        SlotData { segs, len: n, owner: Owner::Owned(buf) }
    }

    /// A zero-copy lease of the region `[off, off + len)` of receive-ring
    /// sub-buffer `bid`, whose borrow the caller has taken.
    pub fn ring(bid: u16, off: usize, len: usize) -> (d: SlotData)
        ensures
            d.owner == (Owner::Ring { bid }),
            d.segs@ == seq![Seg { off, len }],
            d.len == len,
            forall|pool: BufPool| #[trigger] d.wf(pool),
    {
        let mut segs: Vec<Seg> = Vec::new();
        segs.push(Seg { off, len });
        proof {
            assert(segs@ =~= seq![Seg { off, len }]);
            assert(segs@ =~= seq![segs@[0]] + seq![]);
            lemma_segs_cons(seq![], segs@[0], seq![]);
            assert(segs_total(seq![]) == 0);
        }
        SlotData { segs, len, owner: Owner::Ring { bid } }
    }

    /// Logical capacity in bytes (sum of segment lengths).
    pub fn len(&self) -> (n: usize)
        ensures
            n == self.len,
    {
        self.len
    }

    pub fn is_empty(&self) -> (b: bool)
        ensures
            b == (self.len == 0),
    {
        self.len == 0
    }

    /// True when the buffer is one contiguous run.
    pub fn is_contiguous(&self) -> (b: bool)
        ensures
            b == (self.segs@.len() == 1),
    {
        self.segs.len() == 1
    }

    /// The physical segments backing this buffer.
    pub fn segs(&self) -> (s: &Vec<Seg>)
        ensures
            s@ == self.segs@,
    {
        &self.segs
    }

    /// Whether the buffer is leased from the pool's arena.
    pub fn is_pool(&self) -> (b: bool)
        ensures
            b == (self.owner is Pool),
    {
        matches!(self.owner, Owner::Pool)
    }

    /// The fixed-buffer index covering these segments: the arena's for a
    /// lease, the sub-buffer's for a ring buffer, none otherwise.
    pub fn buf_index<R: RingProvider>(&self, pool: &BufPool, ring: &R) -> (idx: Option<u16>)
        ensures
            idx == (match self.owner {
                Owner::Pool => pool.buf_index,
                Owner::Ring { bid } => ring.index_of(bid),
                _ => None,
            }),
    {
        match &self.owner {
            Owner::Pool => pool.buf_index(),
            Owner::Ring { bid } => ring.buf_index(*bid),
            Owner::Owned(_) => None,
            Owner::Empty => None,
        }
    }

    /// Contiguous read view; `ring` is the receive ring's memory, empty where
    /// there is no ring.
    pub fn as_slice<'a>(&'a self, pool: &'a BufPool, ring: &'a [u8]) -> (s: &'a [u8])
        requires
            pool.wf(),
            self.wf(*pool),
            self.segs@.len() == 1,
            self.ring_holds(ring@),
        ensures
            s@ == self.bytes_in(*pool, ring@),
            !(self.owner is Ring) ==> s@ == self.bytes(*pool),
    {
        let seg: Seg = self.segs[0];
        proof {
            self.wf_laid_in(*pool, ring@);
            assert(self.segs@ =~= seq![seg]);
            lemma_one_seg(seg);
        }
        let mem = self.memory(pool, ring);
        assert(mem@.len() == mem.len());
        vstd::slice::slice_subrange(mem, seg.off, seg.off + seg.len)
    }

    /// Copy `src` into the buffer at logical offset `off`, crossing segment
    /// boundaries as needed; `ring` is the receive ring's memory, empty where
    /// there is no ring.
    pub fn write_at(&mut self, pool: &mut BufPool, ring: &mut Vec<u8>, off: usize, src: &[u8])
        requires
            old(pool).wf(),
            old(self).wf(*old(pool)),
            old(self).ring_holds(old(ring)@),
            off + src@.len() <= old(self).len,
        ensures
            final(pool).wf(),
            final(self).wf(*final(pool)),
            final(self).bytes_in(*final(pool), final(ring)@) == overwritten(
                old(self).bytes_in(*old(pool), old(ring)@),
                off as int,
                src@,
            ),
            final(self).segs@ == old(self).segs@,
            final(self).len == old(self).len,
            final(self).owner is Pool == old(self).owner is Pool,
            final(self).owner is Owned == old(self).owner is Owned,
            final(self).owner is Empty == old(self).owner is Empty,
            old(self).owner is Ring ==> final(self).owner == old(self).owner,
            final(pool).mem@.len() == old(pool).mem@.len(),
            forall|q: int|
                0 <= q < old(pool).mem@.len() && !(old(self).owner is Pool && covers(
                    old(self).segs@,
                    q,
                )) ==> #[trigger] final(pool).mem@[q] == old(pool).mem@[q],
            final(pool).free@ == old(pool).free@,
            final(pool).free_pages == old(pool).free_pages,
            final(pool).npages == old(pool).npages,
            final(pool).buf_index == old(pool).buf_index,
            final(pool).send_arena == old(pool).send_arena,
            final(ring)@.len() == old(ring)@.len(),
            forall|q: int|
                0 <= q < old(ring)@.len() && !(old(self).owner is Ring && covers(
                    old(self).segs@,
                    q,
                )) ==> #[trigger] final(ring)@[q] == old(ring)@[q],
    {
        proof {
            self.wf_laid_in(*pool, ring@);
        }
        match &mut self.owner {
            Owner::Pool => {
                scatter(&mut pool.mem, &self.segs, off, src);
            },
            Owner::Owned(buf) => {
                scatter(buf, &self.segs, off, src);
            },
            Owner::Ring { .. } => {
                scatter(ring, &self.segs, off, src);
            },
            Owner::Empty => {
                proof {
                    assert(overwritten(self.bytes(*pool), off as int, src@) =~= self.bytes(*pool));
                }
            },
        }
    }

    /// Hand `sink` each contiguous piece of the logical range
    /// `[off, off + len)`, in order; nothing when the range is empty. `ring` is
    /// the receive ring's memory, empty where there is no ring.
    pub fn for_each_seg<S: SegSink>(
        &self,
        pool: &BufPool,
        ring: &[u8],
        off: usize,
        len: usize,
        sink: &mut S,
    )
        requires
            pool.wf(),
            self.wf(*pool),
            self.ring_holds(ring@),
            off + len <= self.len,
        ensures
            final(sink).seen() == old(sink).seen() + self.bytes_in(*pool, ring@).subrange(
                off as int,
                off + len,
            ),
            final(sink).origin() == old(sink).origin(),
            len == 0 ==> *final(sink) == *old(sink),
    {
        let mem = self.memory(pool, ring);
        proof {
            assert(mem@.len() == mem.len());
            self.wf_laid_in(*pool, ring@);
            subsegs_bytes(mem@, self.segs@, off as int, len as int);
        }
        let parts: Vec<Seg> = fill_subsegs(&self.segs, off, len);
        let mut i: usize = 0;
        let ghost start = sink.seen();
        let ghost from = sink.origin();
        assert(parts@.take(0) =~= seq![]);
        assert(start + seg_bytes(mem@, parts@.take(0)) =~= start);
        while i < parts.len()
            invariant
                i <= parts@.len(),
                forall|k: int|
                    0 <= k < parts@.len() ==> (#[trigger] parts@[k]).off + parts@[k].len
                        <= mem@.len() && 0 < parts@[k].len,
                mem@.len() <= usize::MAX,
                sink.seen() == start + seg_bytes(mem@, parts@.take(i as int)),
                sink.origin() == from,
                parts@.len() == 0 ==> *sink == *old(sink),
            decreases parts@.len() - i,
        {
            let part: Seg = parts[i];
            proof {
                assert(parts@.take(i + 1).drop_last() =~= parts@.take(i as int));
                assert(seg_bytes(mem@, parts@.take(i + 1)) == seg_bytes(
                    mem@,
                    parts@.take(i as int),
                ) + mem@.subrange(part.off as int, part.off + part.len));
            }
            sink.visit(vstd::slice::slice_subrange(mem, part.off, part.off + part.len));
            i += 1;
            assert(sink.seen() =~= start + seg_bytes(mem@, parts@.take(i as int)));
        }
        assert(parts@.take(i as int) =~= parts@);
    }

    /// End the buffer's life: a lease's pages return to the pool, and the
    /// sub-buffer whose borrow ends with a ring buffer is returned for its
    /// provider to release.
    pub fn release(self, pool: &mut BufPool) -> (ring: Option<u16>)
        requires
            old(pool).wf(),
            self.wf(*old(pool)),
        ensures
            gave_back(self, *old(pool), *final(pool)),
            ring == (match self.owner {
                Owner::Ring { bid } => Some(bid),
                _ => None,
            }),
    {
        match &self.owner {
            Owner::Pool => {
                pool.free_segs(&self.segs);
                None
            },
            Owner::Ring { bid } => Some(*bid),
            Owner::Owned(_) => None,
            Owner::Empty => None,
        }
    }

    /// As [`Self::release`], handing a ring buffer's borrow back to `ring`.
    pub fn release_to<R: RingProvider>(self, pool: &mut BufPool, ring: &mut R)
        requires
            old(pool).wf(),
            self.wf(*old(pool)),
        ensures
            gave_back(self, *old(pool), *final(pool)),
            self.owner matches Owner::Ring { bid } ==> final(ring).released() == old(
                ring,
            ).released().push(bid),
            !(self.owner is Ring) ==> *final(ring) == *old(ring),
    {
        match self.release(pool) {
            Some(bid) => ring.release(bid),
            None => {},
        }
    }
}

/// One segment's bytes, also when its part of the memory is replaced.
proof fn lemma_one_seg(seg: Seg)
    ensures
        forall|m: Seq<u8>| #[trigger]
            seg_bytes(m, seq![seg]) == m.subrange(seg.off as int, seg.off + seg.len),
        forall|a: Seq<u8>, f: Seq<u8>, b: Seq<u8>|
            a.len() == seg.off && f.len() == seg.len ==> #[trigger] (a + (f + b)).subrange(
                seg.off as int,
                seg.off + seg.len,
            ) == f,
{
    assert forall|m: Seq<u8>| #[trigger] seg_bytes(m, seq![seg]) == m.subrange(
        seg.off as int,
        seg.off + seg.len,
    ) by {
        lemma_segs_cons(m, seg, seq![]);
        assert(seq![seg] + seq![] =~= seq![seg]);
        assert(m.subrange(seg.off as int, seg.off + seg.len) + seg_bytes(m, seq![]) =~= m.subrange(
            seg.off as int,
            seg.off + seg.len,
        ));
    }
    assert forall|a: Seq<u8>, f: Seq<u8>, b: Seq<u8>|
        a.len() == seg.off && f.len() == seg.len implies #[trigger] (a + (f + b)).subrange(
        seg.off as int,
        seg.off + seg.len,
    ) == f by {
        assert((a + (f + b)).subrange(seg.off as int, seg.off + seg.len) =~= f);
    }
}

impl SlotData {
    /// Contiguous write view; `ring` is the receive ring's memory, empty where
    /// there is no ring.
    pub fn as_mut_slice<'a>(
        &'a mut self,
        pool: &'a mut BufPool,
        ring: &'a mut Vec<u8>,
    ) -> (s: &'a mut [u8])
        requires
            old(pool).wf(),
            old(self).wf(*old(pool)),
            old(self).segs@.len() == 1,
            old(self).ring_holds(old(ring)@),
        ensures
            s@ == old(self).bytes_in(*old(pool), old(ring)@),
            final(self).segs@ == old(self).segs@,
            final(self).len == old(self).len,
            final(s)@.len() == s@.len() ==> {
                &&& final(self).bytes_in(*final(pool), final(ring)@) == final(s)@
                &&& final(pool).wf()
                &&& final(self).wf(*final(pool))
                &&& final(pool).mem@.len() == old(pool).mem@.len()
                &&& final(ring)@.len() == old(ring)@.len()
                &&& forall|q: int|
                    0 <= q < old(pool).mem@.len() && !(old(self).owner is Pool && covers(
                        old(self).segs@,
                        q,
                    )) ==> #[trigger] final(pool).mem@[q] == old(pool).mem@[q]
                &&& forall|q: int|
                    0 <= q < old(ring)@.len() && !(old(self).owner is Ring && covers(
                        old(self).segs@,
                        q,
                    )) ==> #[trigger] final(ring)@[q] == old(ring)@[q]
            },
            final(self).owner is Pool == old(self).owner is Pool,
            final(self).owner is Owned == old(self).owner is Owned,
            old(self).owner is Ring ==> final(self).owner == old(self).owner,
            final(pool).free@ == old(pool).free@,
            final(pool).free_pages == old(pool).free_pages,
            final(pool).npages == old(pool).npages,
            final(pool).buf_index == old(pool).buf_index,
            final(pool).send_arena == old(pool).send_arena,
    {
        let seg: Seg = self.segs[0];
        proof {
            self.wf_laid_in(*pool, ring@);
            assert(self.segs@ =~= seq![seg]);
            lemma_one_seg(seg);
            assert(forall|q: int| seg.off <= q < seg.off + seg.len ==> covers(self.segs@, q)) by {
                assert(self.segs@[0] == seg);
            }
        }
        let mem: &'a mut Vec<u8> = match &mut self.owner {
            Owner::Owned(buf) => buf,
            Owner::Ring { .. } => ring,
            _ => &mut pool.mem,
        };
        let (_, rest) = mem.as_mut_slice().split_at_mut(seg.off);
        let (mid, _) = rest.split_at_mut(seg.len);
        mid
    }
}

/// A pool in use: the leases that are out, and the pages set aside for good.
pub struct PoolUse {
    pub pool: BufPool,
    pub leases: Seq<SlotData>,
    pub reserved: int,
}

/// Pages over all `leases`.
pub open spec fn leased_pages(leases: Seq<SlotData>) -> int
    decreases leases.len(),
{
    if leases.len() == 0 {
        0
    } else {
        leased_pages(leases.drop_last()) + leases.last().len as int / PAGE as int
    }
}

impl PoolUse {
    /// A new pool, with nothing out.
    pub open spec fn fresh(self) -> bool {
        &&& self.pool.wf()
        &&& self.pool.free_pages == self.pool.npages
        &&& self.leases.len() == 0
        &&& self.reserved == 0
    }

    /// `next` comes of `self` by one lease of `len` bytes.
    pub open spec fn leases_one(self, next: PoolUse, len: int) -> bool {
        &&& 0 <= len
        &&& next.pool.wf()
        &&& next.reserved == self.reserved
        &&& exists|r: Option<SlotData>| #[trigger]
            BufPool::leased_out(self.pool, next.pool, len, r) && next.leases == (match r {
                Some(d) => self.leases.push(d),
                None => self.leases,
            })
    }

    /// `next` comes of `self` by setting `bytes` of arena aside.
    pub open spec fn reserves(self, next: PoolUse, bytes: int) -> bool {
        &&& 0 <= bytes
        &&& next.pool.wf()
        &&& next.leases == self.leases
        &&& exists|r: Option<(usize, usize)>| #[trigger]
            BufPool::arena_reserved(self.pool, next.pool, bytes, r) && next.reserved
                == self.reserved + (match r {
                Some(region) => region.1 as int / PAGE as int,
                None => 0,
            })
    }

    /// `next` comes of `self` by dropping lease `k`.
    pub open spec fn drops(self, next: PoolUse, k: int) -> bool {
        &&& 0 <= k < self.leases.len()
        &&& next.leases == self.leases.remove(k)
        &&& next.reserved == self.reserved
        &&& gave_back(self.leases[k], self.pool, next.pool)
    }

    /// `next` differs from `self` in the arena's bytes or its registration.
    pub open spec fn touches(self, next: PoolUse) -> bool {
        &&& next.pool.wf()
        &&& next.leases == self.leases
        &&& next.reserved == self.reserved
        &&& next.pool == (BufPool {
            mem: next.pool.mem,
            buf_index: next.pool.buf_index,
            ..self.pool
        })
    }

    /// One step in the use of a pool.
    pub open spec fn steps(self, next: PoolUse) -> bool {
        ||| exists|len: int| #[trigger] self.leases_one(next, len)
        ||| exists|bytes: int| #[trigger] self.reserves(next, bytes)
        ||| exists|k: int| #[trigger] self.drops(next, k)
        ||| self.touches(next)
    }

    /// Every lease that is out is in force, no two share a page, and free,
    /// leased and reserved pages add up to the capacity.
    pub open spec fn accounted(self) -> bool {
        &&& self.pool.wf()
        &&& forall|i: int|
            0 <= i < self.leases.len() ==> (#[trigger] self.leases[i]).owner is Pool
                && self.leases[i].wf(self.pool)
        &&& forall|i: int, j: int|
            0 <= i < self.leases.len() && 0 <= j < self.leases.len() && i != j ==> disjoint(
                (#[trigger] self.leases[i]).segs@,
                (#[trigger] self.leases[j]).segs@,
            )
        &&& self.pool.free_pages + leased_pages(self.leases) + self.reserved == self.pool.npages
    }
}

/// However a pool is used, free pages, the pages of the leases that are out and
/// the pages set aside add up to its capacity; and every lease that is out
/// stays in force and shares no page with another.
pub proof fn pages_conserved(trace: Seq<PoolUse>)
    requires
        trace.len() > 0,
        trace[0].fresh(),
        forall|i: int| 0 <= i < trace.len() - 1 ==> (#[trigger] trace[i]).steps(trace[i + 1]),
    ensures
        trace.last().accounted(),
    decreases trace.len(),
{
    if trace.len() > 1 {
        let front = trace.drop_last();
        assert forall|i: int| 0 <= i < front.len() - 1 implies (#[trigger] front[i]).steps(
            front[i + 1],
        ) by {
            assert(trace[i].steps(trace[i + 1]));
        }
        pages_conserved(front);
        let a = front.last();
        let b = trace.last();
        assert(a == trace[trace.len() - 2]);
        assert(trace[trace.len() - 2].steps(trace[trace.len() - 2 + 1]));
        if exists|len: int| #[trigger] a.leases_one(b, len) {
            let len = choose|len: int| #[trigger] a.leases_one(b, len);
            lemma_lease_accounted(a, b, len);
        } else if exists|bytes: int| #[trigger] a.reserves(b, bytes) {
            let bytes = choose|bytes: int| #[trigger] a.reserves(b, bytes);
            lemma_reserve_accounted(a, b, bytes);
        } else if exists|k: int| #[trigger] a.drops(b, k) {
            let k = choose|k: int| #[trigger] a.drops(b, k);
            lemma_drop_accounted(a, b, k);
        } else {
            assert forall|i: int| 0 <= i < b.leases.len() implies (
            #[trigger] b.leases[i]).owner is Pool && b.leases[i].wf(b.pool) by {
                assert(a.leases[i].wf(a.pool));
                lemma_same_leased(a.pool, b.pool, b.leases[i].segs@);
            }
        }
    }
}

/// A lease stays in force while neither the free list nor the reserved region
/// changes.
pub proof fn lemma_same_leased(before: BufPool, after: BufPool, segs: Seq<Seg>)
    requires
        before.leased(segs),
        after.npages == before.npages,
        after.free@ == before.free@,
        after.send_arena == before.send_arena,
    ensures
        after.leased(segs),
{
    assert forall|i: int| 0 <= i < segs.len() implies after.in_arena(#[trigger] segs[i]) by {
        assert(before.in_arena(segs[i]));
    }
    assert forall|p: int| #[trigger] runs_have(lease_runs(segs), p) implies !runs_have(
        after.free@,
        p,
    ) && !after.reserved(p) by {
        assert(!runs_have(before.free@, p) && !before.reserved(p));
    }
}

proof fn lemma_lease_accounted(a: PoolUse, b: PoolUse, len: int)
    requires
        a.accounted(),
        a.leases_one(b, len),
    ensures
        b.accounted(),
{
    let r = choose|r: Option<SlotData>| #[trigger]
        BufPool::leased_out(a.pool, b.pool, len, r) && b.leases == (match r {
            Some(d) => a.leases.push(d),
            None => a.leases,
        });
    if let Some(d) = r {
        let pages = pages_for(len);
        let n = a.pool.npages;
        alloc_plan_splits(a.pool.free@, pages, n as int);
        let taken = alloc_plan(a.pool.free@, pages).unwrap().0;
        assert(lease_runs(d.segs@) =~= taken) by {
            assert forall|i: int| 0 <= i < taken.len() implies lease_runs(d.segs@)[i]
                == taken[i] by {
                lemma_taken_in(a.pool.free@, taken, n as int, i);
                assert(a.pool.mem.len() == n * PAGE);
                lemma_run_of_seg_of(taken[i], n);
            }
        }
        assert forall|i: int| 0 <= i < a.leases.len() implies {
            let e = #[trigger] a.leases[i];
            e.wf(b.pool) && disjoint(e.segs@, d.segs@) && disjoint(d.segs@, e.segs@)
        } by {
            let e = a.leases[i];
            assert(e.owner is Pool && e.wf(a.pool));
            lease_keeps_others(a.pool, b.pool, d.segs@, e.segs@);
        }
        assert(b.leases.drop_last() =~= a.leases);
        assert(b.leases.last() == d);
        assert(d.len as int / PAGE as int == pages);
        assert forall|i: int| 0 <= i < b.leases.len() implies (
        #[trigger] b.leases[i]).owner is Pool && b.leases[i].wf(b.pool) by {
            if i < a.leases.len() {
                assert(b.leases[i] == a.leases[i]);
            }
        }
        assert forall|i: int, j: int|
            0 <= i < b.leases.len() && 0 <= j < b.leases.len() && i != j implies disjoint(
            (#[trigger] b.leases[i]).segs@,
            (#[trigger] b.leases[j]).segs@,
        ) by {
            if i < a.leases.len() {
                assert(b.leases[i] == a.leases[i]);
            }
            if j < a.leases.len() {
                assert(b.leases[j] == a.leases[j]);
            }
        }
    }
}

/// A run that a request takes lies within the arena.
proof fn lemma_taken_in(s: Seq<Run>, taken: Seq<Run>, n: int, i: int)
    requires
        canonical(s, n),
        0 <= i < taken.len(),
        forall|k: int| 0 <= k < taken.len() ==> 0 < (#[trigger] taken[k]).len,
        forall|p: int| #[trigger] runs_have(taken, p) ==> runs_have(s, p),
    ensures
        taken[i].start + taken[i].len <= n,
{
    let p = taken[i].start + taken[i].len - 1;
    assert(run_has(taken[i], p));
    assert(runs_have(taken, p));
    let k = choose|k: int| 0 <= k < s.len() && run_has(#[trigger] s[k], p);
    assert(s[k].start + s[k].len <= n);
}

proof fn lemma_reserve_accounted(a: PoolUse, b: PoolUse, bytes: int)
    requires
        a.accounted(),
        a.reserves(b, bytes),
    ensures
        b.accounted(),
{
    let r = choose|r: Option<(usize, usize)>| #[trigger]
        BufPool::arena_reserved(a.pool, b.pool, bytes, r) && b.reserved == a.reserved + (match r {
            Some(region) => region.1 as int / PAGE as int,
            None => 0,
        });
    if let Some(region) = r {
        let pages = pages_for(bytes);
        let n = a.pool.npages;
        let i = fit_index(a.pool.free@, pages, 0);
        lemma_fit_index(a.pool.free@, pages, 0);
        lemma_shrunk(a.pool.free@, i, pages, n as int);
        let f = a.pool.free@[i];
        assert(f.start + f.len <= n);
        let front = Run { start: f.start, len: pages as u32 };
        assert(a.pool.mem.len() == n * PAGE);
        lemma_run_of_seg_of(front, n);
        assert(region.1 == pages * PAGE);
        assert(region.1 as int / PAGE as int == pages);
        assert(run_of(Seg { off: region.0, len: region.1 }) == front);
        assert forall|k: int| 0 <= k < b.leases.len() implies (
        #[trigger] b.leases[k]).owner is Pool && b.leases[k].wf(b.pool) by {
            let e = b.leases[k];
            assert(e.wf(a.pool));
            assert forall|j: int| 0 <= j < e.segs@.len() implies b.pool.in_arena(
                #[trigger] e.segs@[j],
            ) by {
                assert(a.pool.in_arena(e.segs@[j]));
            }
            assert forall|p: int| #[trigger] runs_have(lease_runs(e.segs@), p) implies !runs_have(
                b.pool.free@,
                p,
            ) && !b.pool.reserved(p) by {
                assert(!runs_have(a.pool.free@, p));
                if runs_have(b.pool.free@, p) {
                    assert(runs_have(a.pool.free@, p));
                }
                if b.pool.reserved(p) {
                    assert(run_has(f, p));
                    assert(runs_have(a.pool.free@, p));
                }
            }
        }
    }
}

proof fn lemma_drop_accounted(a: PoolUse, b: PoolUse, k: int)
    requires
        a.accounted(),
        a.drops(b, k),
    ensures
        b.accounted(),
{
    let d = a.leases[k];
    assert(d.owner is Pool && d.wf(a.pool));
    lemma_lease_total(a.pool, d.segs@);
    lemma_leased_remove(a.leases, k);
    assert forall|i: int| 0 <= i < b.leases.len() implies (#[trigger] b.leases[i]).owner is Pool
        && b.leases[i].wf(b.pool) by {
        let o = if i < k { i } else { i + 1 };
        assert(b.leases[i] == a.leases[o]);
        assert(a.leases[o].wf(a.pool));
        assert(disjoint(a.leases[o].segs@, a.leases[k].segs@));
        release_keeps_others(a.pool, b.pool, d.segs@, a.leases[o].segs@);
    }
    assert forall|i: int, j: int|
        0 <= i < b.leases.len() && 0 <= j < b.leases.len() && i != j implies disjoint(
        (#[trigger] b.leases[i]).segs@,
        (#[trigger] b.leases[j]).segs@,
    ) by {
        let o = if i < k { i } else { i + 1 };
        let q = if j < k { j } else { j + 1 };
        assert(b.leases[i] == a.leases[o] && b.leases[j] == a.leases[q]);
    }
}

/// The pages of a lease, from its bytes.
proof fn lemma_lease_total(pool: BufPool, segs: Seq<Seg>)
    requires
        forall|i: int| 0 <= i < segs.len() ==> pool.in_arena(#[trigger] segs[i]),
    ensures
        segs_total(segs) == runs_total(lease_runs(segs)) * PAGE,
        segs_total(segs) as int / PAGE as int == runs_total(lease_runs(segs)),
    decreases segs.len(),
{
    if segs.len() > 0 {
        let t = segs.drop_last();
        assert forall|i: int| 0 <= i < t.len() implies pool.in_arena(#[trigger] t[i]) by {
            assert(pool.in_arena(segs[i]));
        }
        lemma_lease_total(pool, t);
        assert(lease_runs(segs).drop_last() =~= lease_runs(t));
        assert(lease_runs(segs).last() == run_of(segs.last()));
        assert(pool.in_arena(segs[segs.len() - 1]));
        let len = segs.last().len;
        assert(len / PAGE <= pool.npages);
        assert((len / PAGE) as u32 * PAGE == len);
    }
}

proof fn lemma_leased_remove(leases: Seq<SlotData>, k: int)
    requires
        0 <= k < leases.len(),
    ensures
        leased_pages(leases.remove(k)) == leased_pages(leases) - leases[k].len as int
            / PAGE as int,
    decreases leases.len(),
{
    let rest = leases.remove(k);
    if k == leases.len() - 1 {
        assert(rest =~= leases.drop_last());
    } else {
        lemma_leased_remove(leases.drop_last(), k);
        assert(rest.drop_last() =~= leases.drop_last().remove(k));
        assert(rest.last() == leases.last());
    }
}

/// Reading back a written range gives what was written.
pub proof fn write_then_read(s: Seq<u8>, off: int, src: Seq<u8>)
    requires
        0 <= off,
        off + src.len() <= s.len(),
    ensures
        overwritten(s, off, src).subrange(off, off + src.len()) == src,
        overwritten(s, off, src).len() == s.len(),
{
    assert(overwritten(s, off, src).subrange(off, off + src.len()) =~= src);
}

/// Writing through one lease leaves the bytes of every disjoint lease alone.
pub proof fn write_keeps_other_lease(
    pool: BufPool,
    before: Seq<u8>,
    after: Seq<u8>,
    segs: Seq<Seg>,
    other: Seq<Seg>,
)
    requires
        pool.leased(segs),
        pool.leased(other),
        disjoint(other, segs),
        before.len() == pool.npages * PAGE,
        after.len() == before.len(),
        forall|q: int| 0 <= q < before.len() && !covers(segs, q) ==> #[trigger] after[q] == before[q],
    ensures
        seg_bytes(after, other) == seg_bytes(before, other),
{
    assert forall|i: int| 0 <= i < other.len() implies (#[trigger] other[i]).off + other[i].len
        <= before.len() by {
        assert(pool.in_arena(other[i]));
    }
    lemma_seg_bytes_len(before, other);
    lemma_seg_bytes_len(after, other);
    let a = seg_bytes(after, other);
    let b = seg_bytes(before, other);
    assert forall|k: int| 0 <= k < a.len() implies a[k] == b[k] by {
        let (i, j) = lemma_find_byte(other, k);
        lemma_seg_byte(after, other, i, j);
        lemma_seg_byte(before, other, i, j);
        let q = other[i].off + j;
        let p = q / (PAGE as int);
        assert(pool.in_arena(other[i]));
        assert(run_has(lease_runs(other)[i], p));
        assert(runs_have(lease_runs(other), p));
        if covers(segs, q) {
            let c = choose|c: int|
                0 <= c < segs.len() && (#[trigger] segs[c]).off <= q < segs[c].off + segs[c].len;
            assert(pool.in_arena(segs[c]));
            assert(run_has(lease_runs(segs)[c], p));
            assert(runs_have(lease_runs(segs), p));
        }
    }
    assert(a =~= b);
}

} // verus!
