//! Ranking of process samples.
//!
//! From an unordered collection of samples, `rank_top` selects the `n` with
//! the highest CPU usage (stable: ties keep their input order) and presents
//! that subset ordered by memory usage descending, again stably.

use vstd::prelude::*;

verus! {

/// One point-in-time reading of a process.
///
/// CPU usage is carried as an integer key in hundredths of a percent so that
/// comparisons are total; callers that sample a fractional percentage scale
/// it before building the record.
pub struct ProcessSample {
    pub pid: u32,
    pub name: String,
    pub cpu_usage: u64,
    pub memory_usage: u64,
}

/// The key a sorting pass compares: CPU usage for the ranking pass, memory
/// usage for the presentation pass.
pub open spec fn spec_key(p: ProcessSample, by_cpu: bool) -> u64 {
    if by_cpu {
        p.cpu_usage
    } else {
        p.memory_usage
    }
}

/// Stable insertion into a sequence sorted by `spec_key` descending: the new
/// element goes after every element whose key is greater than or equal to
/// its own.
pub open spec fn spec_insert_desc(s: Seq<ProcessSample>, x: ProcessSample, by_cpu: bool) -> Seq<
    ProcessSample,
>
    decreases s.len(),
{
    if s.len() == 0 {
        seq![x]
    } else if spec_key(s[0], by_cpu) >= spec_key(x, by_cpu) {
        seq![s[0]] + spec_insert_desc(s.drop_first(), x, by_cpu)
    } else {
        seq![x] + s
    }
}

/// Stable sort by `spec_key` descending, defined as repeated insertion of
/// the input elements in order.
pub open spec fn spec_sort_desc(s: Seq<ProcessSample>, by_cpu: bool) -> Seq<ProcessSample>
    decreases s.len(),
{
    if s.len() == 0 {
        Seq::empty()
    } else {
        spec_insert_desc(spec_sort_desc(s.drop_last(), by_cpu), s.last(), by_cpu)
    }
}

/// The ranked list: the top `n` samples by CPU usage (stable), re-sorted by
/// memory usage descending (stable).
pub open spec fn spec_rank_top(s: Seq<ProcessSample>, n: nat) -> Seq<ProcessSample> {
    let m = if n <= s.len() {
        n as int
    } else {
        s.len() as int
    };
    spec_sort_desc(spec_sort_desc(s, true).take(m), false)
}

/// Keys are non-increasing along the sequence.
pub open spec fn sorted_desc_by(s: Seq<ProcessSample>, by_cpu: bool) -> bool {
    forall|i: int, j: int|
        0 <= i < j < s.len() ==> spec_key(s[i], by_cpu) >= spec_key(s[j], by_cpu)
}

proof fn lemma_insert_desc_len(s: Seq<ProcessSample>, x: ProcessSample, by_cpu: bool)
    ensures
        spec_insert_desc(s, x, by_cpu).len() == s.len() + 1,
    decreases s.len(),
{
    if s.len() == 0 {
    } else if spec_key(s[0], by_cpu) >= spec_key(x, by_cpu) {
        lemma_insert_desc_len(s.drop_first(), x, by_cpu);
    }
}

pub proof fn lemma_sort_desc_len(s: Seq<ProcessSample>, by_cpu: bool)
    ensures
        spec_sort_desc(s, by_cpu).len() == s.len(),
    decreases s.len(),
{
    if s.len() > 0 {
        lemma_sort_desc_len(s.drop_last(), by_cpu);
        lemma_insert_desc_len(spec_sort_desc(s.drop_last(), by_cpu), s.last(), by_cpu);
    }
}

proof fn lemma_insert_desc_at(s: Seq<ProcessSample>, x: ProcessSample, by_cpu: bool, j: int)
    requires
        0 <= j <= s.len(),
        forall|i: int| 0 <= i < j ==> spec_key(s[i], by_cpu) >= spec_key(x, by_cpu),
        j < s.len() ==> spec_key(s[j], by_cpu) < spec_key(x, by_cpu),
    ensures
        spec_insert_desc(s, x, by_cpu) == s.insert(j, x),
    decreases j,
{
    if j == 0 {
        if s.len() == 0 {
            assert(spec_insert_desc(s, x, by_cpu) =~= s.insert(0, x));
        } else {
            assert(spec_insert_desc(s, x, by_cpu) =~= s.insert(0, x));
        }
    } else {
        lemma_insert_desc_at(s.drop_first(), x, by_cpu, j - 1);
        assert(seq![s[0]] + s.drop_first().insert(j - 1, x) =~= s.insert(j, x));
    }
}

/// Position at which stable descending insertion places `x`: past every
/// element whose key is at least its own.
spec fn spec_ins_pos(s: Seq<ProcessSample>, x: ProcessSample, by_cpu: bool) -> int
    decreases s.len(),
{
    if s.len() == 0 {
        0
    } else if spec_key(s[0], by_cpu) >= spec_key(x, by_cpu) {
        1 + spec_ins_pos(s.drop_first(), x, by_cpu)
    } else {
        0
    }
}

proof fn lemma_ins_pos(s: Seq<ProcessSample>, x: ProcessSample, by_cpu: bool)
    ensures
        0 <= spec_ins_pos(s, x, by_cpu) <= s.len(),
        forall|i: int|
            0 <= i < spec_ins_pos(s, x, by_cpu) ==> spec_key(s[i], by_cpu) >= spec_key(x, by_cpu),
        spec_ins_pos(s, x, by_cpu) < s.len() ==> spec_key(s[spec_ins_pos(s, x, by_cpu)], by_cpu)
            < spec_key(x, by_cpu),
    decreases s.len(),
{
    if s.len() > 0 && spec_key(s[0], by_cpu) >= spec_key(x, by_cpu) {
        lemma_ins_pos(s.drop_first(), x, by_cpu);
        assert forall|i: int| 0 <= i < spec_ins_pos(s, x, by_cpu) implies spec_key(s[i], by_cpu)
            >= spec_key(x, by_cpu) by {
            if i > 0 {
                assert(s.drop_first()[i - 1] == s[i]);
            }
        }
    }
}

/// Stable descending insertion is insertion at `spec_ins_pos`.
proof fn lemma_insert_desc_is_insert(s: Seq<ProcessSample>, x: ProcessSample, by_cpu: bool)
    ensures
        spec_insert_desc(s, x, by_cpu) == s.insert(spec_ins_pos(s, x, by_cpu), x),
{
    lemma_ins_pos(s, x, by_cpu);
    lemma_insert_desc_at(s, x, by_cpu, spec_ins_pos(s, x, by_cpu));
}

/// Insertion adds exactly the inserted element to the sequence's contents.
proof fn lemma_insert_desc_multiset(s: Seq<ProcessSample>, x: ProcessSample, by_cpu: bool)
    ensures
        spec_insert_desc(s, x, by_cpu).to_multiset() == s.to_multiset().insert(x),
{
    broadcast use vstd::multiset::group_multiset_axioms;

    lemma_ins_pos(s, x, by_cpu);
    lemma_insert_desc_is_insert(s, x, by_cpu);
    let j = spec_ins_pos(s, x, by_cpu);
    let r = s.insert(j, x);
    s.insert_ensures(j, x);
    r.to_multiset_ensures();
    assert(r.remove(j) =~= s);
    assert(r.remove(j).to_multiset() =~= r.to_multiset().remove(x));
    assert(r.contains(x)) by {
        assert(r[j] == x);
    }
    assert(r.to_multiset().count(x) > 0);
    assert(r.to_multiset() =~= s.to_multiset().insert(x));
}

/// Insertion into a descending-sorted sequence keeps it sorted.
proof fn lemma_insert_desc_sorted(s: Seq<ProcessSample>, x: ProcessSample, by_cpu: bool)
    requires
        sorted_desc_by(s, by_cpu),
    ensures
        sorted_desc_by(spec_insert_desc(s, x, by_cpu), by_cpu),
{
    lemma_ins_pos(s, x, by_cpu);
    lemma_insert_desc_is_insert(s, x, by_cpu);
    let j = spec_ins_pos(s, x, by_cpu);
    let r = s.insert(j, x);
    s.insert_ensures(j, x);
    assert forall|a: int, b: int| 0 <= a < b < r.len() implies spec_key(r[a], by_cpu) >= spec_key(
        r[b],
        by_cpu,
    ) by {
        if b < j {
        } else if a < j && b == j {
        } else if a < j && b > j {
            assert(r[b] == s[b - 1]);
            if j < s.len() {
                assert(spec_key(s[a], by_cpu) >= spec_key(s[b - 1], by_cpu));
            }
        } else if a == j && b > j {
            assert(r[b] == s[b - 1]);
            assert(spec_key(s[j], by_cpu) < spec_key(x, by_cpu));
            assert(spec_key(s[j], by_cpu) >= spec_key(s[b - 1], by_cpu));
        } else {
            assert(r[a] == s[a - 1]);
            assert(r[b] == s[b - 1]);
        }
    }
}

/// Sorting does not change the sequence's contents.
pub proof fn lemma_sort_desc_multiset(s: Seq<ProcessSample>, by_cpu: bool)
    ensures
        spec_sort_desc(s, by_cpu).to_multiset() == s.to_multiset(),
    decreases s.len(),
{
    if s.len() == 0 {
        assert(s =~= Seq::<ProcessSample>::empty());
    } else {
        lemma_sort_desc_multiset(s.drop_last(), by_cpu);
        lemma_insert_desc_multiset(spec_sort_desc(s.drop_last(), by_cpu), s.last(), by_cpu);
        s.drop_last().to_multiset_ensures();
        assert(s =~= s.drop_last().push(s.last()));
        assert(s.drop_last().push(s.last()).to_multiset() =~= s.drop_last().to_multiset().insert(
            s.last(),
        ));
    }
}

/// Sorting leaves the keys non-increasing.
pub proof fn lemma_sort_desc_sorted(s: Seq<ProcessSample>, by_cpu: bool)
    ensures
        sorted_desc_by(spec_sort_desc(s, by_cpu), by_cpu),
    decreases s.len(),
{
    if s.len() > 0 {
        lemma_sort_desc_sorted(s.drop_last(), by_cpu);
        lemma_insert_desc_sorted(spec_sort_desc(s.drop_last(), by_cpu), s.last(), by_cpu);
    }
}

/// The set of process identifiers a sample sequence carries.
pub open spec fn pid_set(s: Seq<ProcessSample>) -> Set<u32> {
    Set::new(|p: u32| exists|i: int| 0 <= i < s.len() && s[i].pid == p)
}

/// Sequences with the same contents carry the same process identifiers.
proof fn lemma_multiset_pid_set(s1: Seq<ProcessSample>, s2: Seq<ProcessSample>)
    requires
        s1.to_multiset() == s2.to_multiset(),
    ensures
        pid_set(s1) == pid_set(s2),
{
    s1.to_multiset_ensures();
    s2.to_multiset_ensures();
    assert forall|p: u32| pid_set(s1).contains(p) implies pid_set(s2).contains(p) by {
        let i = choose|i: int| 0 <= i < s1.len() && s1[i].pid == p;
        assert(s1.contains(s1[i]));
        assert(s1.to_multiset().count(s1[i]) > 0);
        assert(s2.to_multiset().count(s1[i]) > 0);
        assert(s2.contains(s1[i]));
        let j = choose|j: int| 0 <= j < s2.len() && s2[j] == s1[i];
        assert(0 <= j < s2.len() && s2[j].pid == p);
    }
    assert forall|p: u32| pid_set(s2).contains(p) implies pid_set(s1).contains(p) by {
        let i = choose|i: int| 0 <= i < s2.len() && s2[i].pid == p;
        assert(s2.contains(s2[i]));
        assert(s2.to_multiset().count(s2[i]) > 0);
        assert(s1.to_multiset().count(s2[i]) > 0);
        assert(s1.contains(s2[i]));
        let j = choose|j: int| 0 <= j < s1.len() && s1[j] == s2[i];
        assert(0 <= j < s1.len() && s1[j].pid == p);
    }
    assert(pid_set(s1) =~= pid_set(s2));
}

/// An empty sample set ranks to the empty list, whatever `n` asks for.
pub proof fn lemma_rank_top_empty(n: nat)
    ensures
        spec_rank_top(Seq::empty(), n) == Seq::<ProcessSample>::empty(),
{
    assert(spec_sort_desc(Seq::<ProcessSample>::empty(), true).take(0) =~= Seq::<
        ProcessSample,
    >::empty());
}

/// With `n` at least the sample count, ranking returns every input sample —
/// the same multiset, so in particular every input PID — ordered by memory
/// usage descending.
pub proof fn lemma_rank_top_all(s: Seq<ProcessSample>, n: nat)
    requires
        n >= s.len(),
    ensures
        spec_rank_top(s, n).to_multiset() == s.to_multiset(),
        pid_set(spec_rank_top(s, n)) == pid_set(s),
        sorted_desc_by(spec_rank_top(s, n), false),
{
    let c = spec_sort_desc(s, true);
    lemma_sort_desc_len(s, true);
    let m = if n <= s.len() {
        n as int
    } else {
        s.len() as int
    };
    assert(c.take(m) =~= c);
    lemma_sort_desc_multiset(s, true);
    lemma_sort_desc_multiset(c, false);
    lemma_sort_desc_sorted(c, false);
    lemma_multiset_pid_set(spec_rank_top(s, n), s);
}

/// With `n` at most the sample count, ranking returns exactly `n` samples,
/// whose PID set is that of the true top-`n` by CPU usage — the first `n` of
/// the CPU-descending stable sort — ordered by memory usage descending.
pub proof fn lemma_rank_top_selects(s: Seq<ProcessSample>, n: nat)
    requires
        n <= s.len(),
    ensures
        spec_rank_top(s, n).len() == n,
        pid_set(spec_rank_top(s, n)) == pid_set(spec_sort_desc(s, true).take(n as int)),
        sorted_desc_by(spec_rank_top(s, n), false),
{
    let c = spec_sort_desc(s, true);
    let top = c.take(n as int);
    lemma_sort_desc_len(s, true);
    lemma_sort_desc_len(top, false);
    lemma_sort_desc_multiset(top, false);
    lemma_sort_desc_sorted(top, false);
    lemma_multiset_pid_set(spec_rank_top(s, n), top);
}

/// Ranking is deterministic: the same samples and the same `n` always rank
/// to the identical list, so a second call on an unchanged input repeats the
/// first call's output.
pub proof fn lemma_rank_top_repeatable(
    s1: Seq<ProcessSample>,
    s2: Seq<ProcessSample>,
    n1: nat,
    n2: nat,
)
    requires
        s1 == s2,
        n1 == n2,
    ensures
        spec_rank_top(s1, n1) == spec_rank_top(s2, n2),
{
}

fn key_of(p: &ProcessSample, by_cpu: bool) -> (k: u64)
    ensures
        k == spec_key(*p, by_cpu),
{
    if by_cpu {
        p.cpu_usage
    } else {
        p.memory_usage
    }
}

fn insertion_point(v: &Vec<ProcessSample>, kx: u64, by_cpu: bool) -> (j: usize)
    ensures
        j <= v@.len(),
        forall|i: int| 0 <= i < j ==> spec_key(v@[i], by_cpu) >= kx,
        j < v@.len() ==> spec_key(v@[j as int], by_cpu) < kx,
{
    let mut j: usize = 0;
    loop
        invariant
            j <= v@.len(),
            forall|i: int| 0 <= i < j ==> spec_key(v@[i], by_cpu) >= kx,
        decreases v@.len() - j,
    {
        if j == v.len() {
            return j;
        }
        if key_of(&v[j], by_cpu) < kx {
            return j;
        }
        j = j + 1;
    }
}

fn insert_desc(v: &mut Vec<ProcessSample>, x: ProcessSample, by_cpu: bool)
    ensures
        final(v)@ == spec_insert_desc(old(v)@, x, by_cpu),
{
    let kx = key_of(&x, by_cpu);
    let j = insertion_point(v, kx, by_cpu);
    proof {
        lemma_insert_desc_at(v@, x, by_cpu, j as int);
    }
    v.insert(j, x);
}

#[verifier::loop_isolation(false)]
fn sort_desc(v: Vec<ProcessSample>, by_cpu: bool) -> (r: Vec<ProcessSample>)
    ensures
        r@ == spec_sort_desc(v@, by_cpu),
{
    let ghost orig = v@;
    let mut rest = v;
    let mut out: Vec<ProcessSample> = Vec::new();
    loop
        invariant
            rest@.len() <= orig.len(),
            rest@ == orig.skip(orig.len() - rest@.len()),
            out@ == spec_sort_desc(orig.take(orig.len() - rest@.len()), by_cpu),
        decreases rest@.len(),
    {
        if rest.len() == 0 {
            proof {
                assert(orig.take(orig.len() as int) =~= orig);
            }
            return out;
        }
        let ghost k = orig.len() - rest@.len();
        let x = rest.remove(0);
        proof {
            assert(rest@ =~= orig.skip(k + 1));
            assert(orig.take(k + 1).drop_last() =~= orig.take(k as int));
            assert(orig.take(k + 1).last() == orig[k as int]);
        }
        insert_desc(&mut out, x, by_cpu);
    }
}

/// Selects the `n` samples with the highest CPU usage (ties keep their input
/// order) and returns them ordered by memory usage descending, again keeping
/// input order among equal keys. Total: an empty input or `n` beyond the
/// input length simply shortens the result.
pub fn rank_top(samples: Vec<ProcessSample>, n: usize) -> (r: Vec<ProcessSample>)
    ensures
        r@ == spec_rank_top(samples@, n as nat),
        r@.len() == if n <= samples@.len() {
            n as int
        } else {
            samples@.len() as int
        },
{
    let ghost input = samples@;
    let mut ranked = sort_desc(samples, true);
    proof {
        lemma_sort_desc_len(input, true);
    }
    if n < ranked.len() {
        ranked.truncate(n);
    }
    proof {
        let m = if n <= input.len() {
            n as int
        } else {
            input.len() as int
        };
        assert(ranked@ =~= spec_sort_desc(input, true).take(m));
        lemma_sort_desc_len(spec_sort_desc(input, true).take(m), false);
    }
    sort_desc(ranked, false)
}

} // verus!
