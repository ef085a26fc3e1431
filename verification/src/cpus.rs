//! CPU lists in the kernel's notation, such as `0-3,8`.

use vstd::prelude::*;

verus! {

/// The first set CPU at or above `i`, or the mask's length.
pub open spec fn next_set(mask: Seq<bool>, i: int) -> int
    decreases mask.len() - i,
{
    if i < 0 || i >= mask.len() || mask[i] {
        i
    } else {
        next_set(mask, i + 1)
    }
}

/// The first clear CPU at or above `i`, or the mask's length.
pub open spec fn next_clear(mask: Seq<bool>, i: int) -> int
    decreases mask.len() - i,
{
    if i < 0 || i >= mask.len() || !mask[i] {
        i
    } else {
        next_clear(mask, i + 1)
    }
}

proof fn lemma_next(mask: Seq<bool>, i: int)
    requires
        0 <= i <= mask.len(),
    ensures
        i <= next_set(mask, i) <= mask.len(),
        i <= next_clear(mask, i) <= mask.len(),
        next_set(mask, i) < mask.len() ==> mask[next_set(mask, i)],
        i < mask.len() && mask[i] ==> next_clear(mask, i) > i,
        forall|k: int| i <= k < next_set(mask, i) ==> !#[trigger] mask[k],
        forall|k: int| i <= k < next_clear(mask, i) ==> #[trigger] mask[k],
        next_clear(mask, i) < mask.len() ==> !mask[next_clear(mask, i)],
    decreases mask.len() - i,
{
    if i < mask.len() {
        lemma_next(mask, i + 1);
    }
}

/// A run of CPUs: one number, or its ends.
pub open spec fn run_text(a: int, b: int) -> Seq<char> {
    if a == b {
        crate::text::dec(a as nat)
    } else {
        crate::text::dec(a as nat) + "-"@ + crate::text::dec(b as nat)
    }
}

/// `acc` with the runs of set CPUs from `i` on, separated by commas.
pub open spec fn runs_from(acc: Seq<char>, mask: Seq<bool>, i: int) -> Seq<char>
    decreases mask.len() - i,
    when 0 <= i <= mask.len()
    via runs_from_shrinks
{
    let a = next_set(mask, i);
    if a >= mask.len() {
        acc
    } else {
        let b = next_clear(mask, a);
        let sep = if acc.len() == 0 {
            acc
        } else {
            acc + ","@
        };
        runs_from(sep + run_text(a, b - 1), mask, b)
    }
}

#[via_fn]
proof fn runs_from_shrinks(acc: Seq<char>, mask: Seq<bool>, i: int) {
    lemma_next(mask, i);
    let a = next_set(mask, i);
    if a < mask.len() {
        lemma_next(mask, a);
    }
}

/// The list of the set CPUs of a mask.
pub open spec fn list(mask: Seq<bool>) -> Seq<char> {
    runs_from(seq![], mask, 0)
}

/// The number of set CPUs.
pub open spec fn weight(mask: Seq<bool>) -> nat
    decreases mask.len(),
{
    if mask.len() == 0 {
        0
    } else {
        weight(mask.drop_last()) + (if mask.last() {
            1nat
        } else {
            0
        })
    }
}

/// The list of the set CPUs of a mask.
pub fn cpulist(mask: &Vec<bool>) -> (s: String)
    ensures
        s@ == list(mask@),
{
    let mut out = String::new();
    let mut any: bool = false;
    let mut i: usize = 0;
    assert(out@ =~= seq![]);
    loop
        invariant
            i <= mask.len(),
            runs_from(out@, mask@, i as int) == list(mask@),
            any == (out@.len() > 0),
        decreases mask.len() - i,
    {
        let ghost from = i as int;
        let ghost acc = out@;
        proof {
            lemma_next(mask@, from);
        }
        while i < mask.len() && !mask[i]
            invariant
                from <= i <= mask.len(),
                next_set(mask@, i as int) == next_set(mask@, from),
            decreases mask.len() - i,
        {
            i += 1;
        }
        if i == mask.len() {
            return out;
        }
        let start: usize = i;
        proof {
            lemma_next(mask@, start as int);
        }
        while i < mask.len() && mask[i]
            invariant
                start <= i <= mask.len(),
                next_clear(mask@, i as int) == next_clear(mask@, start as int),
            decreases mask.len() - i,
        {
            i += 1;
        }
        if any {
            out.append(",");
        }
        crate::text::push_dec(&mut out, start as u64);
        if i - 1 != start {
            out.append("-");
            crate::text::push_dec(&mut out, (i - 1) as u64);
        }
        any = true;
        proof {
            assert(crate::text::dec(start as nat).len() > 0);
            let sep = if acc.len() == 0 {
                acc
            } else {
                acc + ","@
            };
            assert(out@ =~= sep + run_text(start as int, i - 1));
        }
    }
}

/// The number of set CPUs.
fn count(mask: &Vec<bool>) -> (n: usize)
    ensures
        n == weight(mask@),
        n <= mask.len(),
{
    let mut n: usize = 0;
    let mut i: usize = 0;
    assert(mask@.take(0) =~= seq![]);
    while i < mask.len()
        invariant
            i <= mask.len(),
            n == weight(mask@.take(i as int)),
            n <= i,
        decreases mask.len() - i,
    {
        assert(mask@.take(i + 1).drop_last() =~= mask@.take(i as int));
        if mask[i] {
            n += 1;
        }
        i += 1;
    }
    assert(mask@.take(i as int) =~= mask@);
    n
}

/// A thread's affinity: its CPU list, `*` when it covers every one of `online`
/// CPUs, `?` when it could not be read.
pub fn cpus_of(mask: Option<&Vec<bool>>, online: i64) -> (s: String)
    ensures
        s@ == (match mask {
            None => "?"@,
            Some(m) => if online > 0 && weight(m@) >= online {
                "*"@
            } else {
                list(m@)
            },
        }),
{
    match mask {
        None => "?".to_owned(),
        Some(m) => {
            let n: usize = count(m);
            if online > 0 && n as u64 >= online as u64 {
                "*".to_owned()
            } else {
                cpulist(m)
            }
        },
    }
}

/// The CPUs in both of two masks.
pub open spec fn both(a: Seq<bool>, b: Seq<bool>) -> Seq<bool> {
    Seq::new(a.len(), |i: int| a[i] && i < b.len() && b[i])
}

fn intersect(a: &Vec<bool>, b: &Vec<bool>) -> (m: Vec<bool>)
    ensures
        m@ == both(a@, b@),
{
    let mut m: Vec<bool> = Vec::new();
    let mut i: usize = 0;
    while i < a.len()
        invariant
            i <= a.len(),
            m@.len() == i,
            forall|k: int| 0 <= k < i ==> #[trigger] m@[k] == both(a@, b@)[k],
        decreases a.len() - i,
    {
        m.push(a[i] && i < b.len() && b[i]);
        i += 1;
    }
    assert(m@ =~= both(a@, b@));
    m
}

/// Where one IO thread runs.
pub struct Placement {
    /// The CPU it is pinned to.
    pub cpu: Option<usize>,
    /// Its online CPU group, as a list; `*` when there is none.
    pub group: String,
}

/// Placement `p` is that of the group with online CPUs `online`.
pub open spec fn placed_on(p: Placement, online: Option<Seq<bool>>) -> bool {
    match online {
        Some(m) if next_set(m, 0) < m.len() => {
            &&& p.cpu == Some(next_set(m, 0) as usize)
            &&& p.group@ == list(m)
        },
        _ => p.cpu is None && p.group@ == "*"@,
    }
}

/// The online CPUs of group `i`.
pub open spec fn online_of(
    groups: Seq<Vec<bool>>,
    online: Seq<bool>,
    i: int,
) -> Option<Seq<bool>> {
    if 0 <= i < groups.len() {
        Some(both(groups[i]@, online))
    } else {
        None
    }
}

/// The first set CPU of a mask.
fn first(mask: &Vec<bool>) -> (c: Option<usize>)
    ensures
        c == (if next_set(mask@, 0) < mask@.len() {
            Some(next_set(mask@, 0) as usize)
        } else {
            None
        }),
{
    let mut i: usize = 0;
    proof {
        lemma_next(mask@, 0);
    }
    while i < mask.len() && !mask[i]
        invariant
            i <= mask.len(),
            next_set(mask@, i as int) == next_set(mask@, 0),
        decreases mask.len() - i,
    {
        i += 1;
    }
    if i < mask.len() {
        Some(i)
    } else {
        None
    }
}

/// For each IO thread, the CPU it is pinned to and its online CPU group.
/// Threads beyond the groups, and groups with no online CPU, are not pinned;
/// `topology` holds the CPU groups and the online CPUs where they are known.
pub fn io_thread_cpus(io_threads: usize, topology: Option<(&Vec<Vec<bool>>, &Vec<bool>)>) -> (out:
    Vec<Placement>)
    ensures
        out@.len() == io_threads,
        forall|i: int|
            0 <= i < io_threads ==> placed_on(
                #[trigger] out@[i],
                match topology {
                    None => None,
                    Some((groups, online)) => online_of(groups@, online@, i),
                },
            ),
{
    let mut out: Vec<Placement> = Vec::new();
    let mut i: usize = 0;
    while i < io_threads
        invariant
            i <= io_threads,
            out@.len() == i,
            forall|k: int|
                0 <= k < i ==> placed_on(
                    #[trigger] out@[k],
                    match topology {
                        None => None,
                        Some((groups, online)) => online_of(groups@, online@, k),
                    },
                ),
        decreases io_threads - i,
    {
        let mut p = Placement { cpu: None, group: "*".to_owned() };
        if let Some((groups, online)) = topology {
            if i < groups.len() {
                let m = intersect(&groups[i], online);
                if let Some(c) = first(&m) {
                    p = Placement { cpu: Some(c), group: cpulist(&m) };
                }
            }
        }
        out.push(p);
        i += 1;
    }
    out
}

/// The set CPUs of a mask from `i` on, in order.
pub open spec fn set_from(mask: Seq<bool>, i: int) -> Seq<u32>
    decreases mask.len() - i,
{
    if i < 0 || i >= mask.len() {
        seq![]
    } else if mask[i] {
        seq![i as u32] + set_from(mask, i + 1)
    } else {
        set_from(mask, i + 1)
    }
}

proof fn lemma_digits(n: nat)
    ensures
        crate::text::dec(n).len() > 0,
        crate::text::digits(crate::text::dec(n)) == Some(n),
        forall|i: int|
            0 <= i < crate::text::dec(n).len() ==> '0' <= #[trigger] crate::text::dec(n)[i] <= '9',
    decreases n,
{
    reveal_with_fuel(crate::text::digits, 2);
    if n < 10 {
        assert(crate::text::dec(n).drop_last() =~= seq![]);
    } else {
        lemma_digits(n / 10);
        assert(crate::text::dec(n).drop_last() =~= crate::text::dec(n / 10));
    }
}

/// A number's text reads as the number.
proof fn lemma_number(n: nat)
    requires
        n <= u32::MAX,
    ensures
        crate::client::cpu_num(crate::text::dec(n)) == Some(n),
{
    lemma_digits(n);
    let s = crate::text::dec(n);
    assert('0' <= s[0] <= '9');
    assert('0' <= s[s.len() - 1] <= '9');
}

/// A run's text reads as its CPUs, and has no comma.
proof fn lemma_run(a: int, b: int)
    requires
        0 <= a <= b <= u32::MAX,
    ensures
        crate::client::part_cpus(run_text(a, b)) == crate::client::cpu_range(a, b),
        forall|i: int| 0 <= i < run_text(a, b).len() ==> #[trigger] run_text(a, b)[i] != ',',
        run_text(a, b).len() > 0,
{
    reveal_strlit("-");
    let s = run_text(a, b);
    let x = crate::text::dec(a as nat);
    let y = crate::text::dec(b as nat);
    lemma_digits(a as nat);
    lemma_digits(b as nat);
    lemma_number(a as nat);
    lemma_number(b as nat);
    crate::text::lemma_find(s, '-', 0);
    let k = crate::text::find_from(s, '-', 0);
    if a == b {
        assert(s == x);
        if k < s.len() {
            assert('0' <= x[k] <= '9');
        }
        assert(crate::client::part_cpus(s) =~= crate::client::cpu_range(a, b));
        assert forall|i: int| 0 <= i < s.len() implies #[trigger] s[i] != ',' by {
            assert('0' <= x[i] <= '9');
        }
    } else {
        assert(s[x.len() as int] == '-');
        if k < x.len() {
            assert('0' <= x[k] <= '9');
            assert(s[k] == x[k]);
        }
        assert(k == x.len());
        assert(s.subrange(0, k) =~= x);
        assert(s.subrange(k + 1, s.len() as int) =~= y);
        assert forall|i: int| 0 <= i < s.len() implies #[trigger] s[i] != ',' by {
            if i < x.len() {
                assert('0' <= x[i] <= '9');
            } else if i > x.len() {
                assert('0' <= y[i - x.len() - 1] <= '9');
                assert(s[i] == y[i - x.len() - 1]);
            }
        }
    }
}

/// Lists joined by a comma hold the CPUs of both.
proof fn lemma_join(a: Seq<char>, b: Seq<char>)
    ensures
        crate::client::list_cpus(a + ","@ + b) == crate::client::list_cpus(a)
            + crate::client::list_cpus(b),
    decreases a.len(),
{
    reveal_strlit(",");
    let s = a + ","@ + b;
    let k = crate::text::find_from(a, ',', 0);
    let m = crate::text::find_from(s, ',', 0);
    crate::text::lemma_find(a, ',', 0);
    crate::text::lemma_find(s, ',', 0);
    assert(s[a.len() as int] == ',');
    if k < a.len() {
        assert(s[k] == ',');
        if m < k {
            assert(s[m] == a[m]);
        }
        assert(m == k);
        let rest = a.subrange(k + 1, a.len() as int);
        lemma_join(rest, b);
        assert(s.subrange(0, m) =~= a.subrange(0, k));
        assert(s.subrange(m + 1, s.len() as int) =~= rest + ","@ + b);
        assert(crate::client::list_cpus(s) =~= crate::client::list_cpus(a)
            + crate::client::list_cpus(b));
    } else {
        if m < a.len() {
            assert(s[m] == a[m]);
        }
        assert(m == a.len());
        assert(s.subrange(0, m) =~= a);
        assert(s.subrange(m + 1, s.len() as int) =~= b);
    }
}

/// The set CPUs from a run of them on: the run, and those behind it.
proof fn lemma_set_run(mask: Seq<bool>, i: int)
    requires
        0 <= i <= mask.len(),
        mask.len() <= 0x1_0000_0000,
    ensures
        set_from(mask, i) == set_from(mask, next_set(mask, i)),
        set_from(mask, i) == crate::client::cpu_range(i, next_clear(mask, i) - 1) + set_from(
            mask,
            next_clear(mask, i),
        ),
    decreases mask.len() - i,
{
    lemma_next(mask, i);
    let e = next_clear(mask, i);
    if i < mask.len() {
        lemma_set_run(mask, i + 1);
        if mask[i] {
            lemma_next(mask, i + 1);
            assert(crate::client::cpu_range(i, e - 1) =~= seq![i as u32]
                + crate::client::cpu_range(i + 1, e - 1));
            assert(set_from(mask, i) =~= crate::client::cpu_range(i, e - 1) + set_from(mask, e));
        } else {
            assert(crate::client::cpu_range(i, e - 1) + set_from(mask, e) =~= set_from(mask, i));
        }
    } else {
        assert(crate::client::cpu_range(i, e - 1) + set_from(mask, e) =~= set_from(mask, i));
    }
}

proof fn lemma_runs(acc: Seq<char>, mask: Seq<bool>, i: int)
    requires
        0 <= i <= mask.len(),
        mask.len() <= 0x1_0000_0000,
    ensures
        crate::client::list_cpus(runs_from(acc, mask, i)) == crate::client::list_cpus(acc)
            + set_from(mask, i),
    decreases mask.len() - i,
{
    lemma_next(mask, i);
    lemma_set_run(mask, i);
    let a = next_set(mask, i);
    let was = crate::client::list_cpus(acc);
    if a >= mask.len() {
        assert(set_from(mask, a) =~= seq![]);
        assert(was + set_from(mask, i) =~= was);
    } else {
        lemma_next(mask, a);
        lemma_set_run(mask, a);
        let b = next_clear(mask, a);
        let run = run_text(a, b - 1);
        lemma_run(a, b - 1);
        crate::text::lemma_find(run, ',', 0);
        assert(crate::client::list_cpus(run) == crate::client::cpu_range(a, b - 1));
        let now = if acc.len() == 0 {
            acc + run
        } else {
            acc + ","@ + run
        };
        if acc.len() == 0 {
            assert(now =~= run);
            assert(acc =~= seq![]);
            assert(was =~= seq![]);
        } else {
            lemma_join(acc, run);
        }
        assert(crate::client::list_cpus(now) =~= was + crate::client::cpu_range(a, b - 1));
        lemma_runs(now, mask, b);
        assert(crate::client::list_cpus(now) + set_from(mask, b) =~= was + set_from(mask, i));
    }
}

/// Reading a CPU list gives back the CPUs it was written for.
pub proof fn list_reads_back(mask: Seq<bool>)
    requires
        mask.len() <= 0x1_0000_0000,
    ensures
        crate::client::list_cpus(list(mask)) == set_from(mask, 0),
{
    lemma_runs(seq![], mask, 0);
    assert(crate::client::list_cpus(seq![]) =~= seq![]);
    assert(seq![] + set_from(mask, 0) =~= set_from(mask, 0));
}

} // verus!
