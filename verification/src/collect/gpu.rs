use vstd::prelude::*;

verus! {

/// The GPU backend of a machine without a supported GPU: it reports no GPUs
/// and no per-process GPU memory.
pub struct NoGpu;

/// GPU memory that a process entry reports; an entry without a figure counts
/// as zero.
pub open spec fn entry_bytes(e: (u32, Option<u64>)) -> nat {
    match e.1 {
        Some(b) => b as nat,
        None => 0,
    }
}

/// Total GPU memory of `pid` over the entries.
pub open spec fn pid_total(entries: Seq<(u32, Option<u64>)>, pid: u32) -> nat
    decreases entries.len(),
{
    if entries.len() == 0 {
        0
    } else {
        pid_total(entries.drop_last(), pid) + if entries.last().0 == pid {
            entry_bytes(entries.last())
        } else {
            0
        }
    }
}

/// `pid` has an entry.
pub open spec fn has_pid(entries: Seq<(u32, Option<u64>)>, pid: u32) -> bool {
    exists|i: int| 0 <= i < entries.len() && (#[trigger] entries[i]).0 == pid
}

proof fn lemma_pid_total_prefix(entries: Seq<(u32, Option<u64>)>, n: int, pid: u32)
    requires
        0 <= n <= entries.len(),
    ensures
        pid_total(entries.subrange(0, n), pid) <= pid_total(entries, pid),
    decreases entries.len() - n,
{
    if n < entries.len() {
        lemma_pid_total_prefix(entries, n + 1, pid);
        assert(entries.subrange(0, n + 1).drop_last() =~= entries.subrange(0, n));
    } else {
        assert(entries.subrange(0, n) =~= entries);
    }
}

/// GPU memory per process: the (pid, bytes) entries that the devices report
/// for their compute and graphics processes, summed per pid. Each pid occurs
/// once; the order of the pairs is not part of the result.
pub fn memory_per_pid(entries: &[(u32, Option<u64>)]) -> (out: Vec<(u32, u64)>)
    requires
        forall|pid: u32| #[trigger] pid_total(entries@, pid) <= u64::MAX,
    ensures
        forall|k: int, l: int| 0 <= k < l < out@.len() ==> (#[trigger] out@[k]).0 != (#[trigger] out@[l]).0,
        forall|k: int| 0 <= k < out@.len() ==> (#[trigger] out@[k]).1 == pid_total(entries@, out@[k].0),
        forall|pid: u32| has_pid(entries@, pid) <==> exists|k: int| 0 <= k < out@.len() && (#[trigger] out@[k]).0 == pid,
{
    let mut out: Vec<(u32, u64)> = Vec::new();
    let mut i: usize = 0;
    while i < entries.len()
        invariant
            i <= entries@.len(),
            forall|pid: u32| #[trigger] pid_total(entries@, pid) <= u64::MAX,
            forall|k: int, l: int| 0 <= k < l < out@.len() ==> (#[trigger] out@[k]).0 != (#[trigger] out@[l]).0,
            forall|k: int| 0 <= k < out@.len() ==> (#[trigger] out@[k]).1 == pid_total(entries@.subrange(0, i as int), out@[k].0),
            forall|pid: u32| has_pid(entries@.subrange(0, i as int), pid) <==> exists|k: int| 0 <= k < out@.len() && (#[trigger] out@[k]).0 == pid,
        decreases entries@.len() - i,
    {
        let (pid, mem) = entries[i];
        let bytes: u64 = match mem {
            Some(b) => b,
            None => 0,
        };
        let ghost prefix = entries@.subrange(0, i as int);
        let ghost next = entries@.subrange(0, i + 1);
        proof {
            assert(next.drop_last() =~= prefix);
            assert(next.last() == entries@[i as int]);
            lemma_pid_total_prefix(entries@, i + 1, pid);
        }
        let mut p: usize = 0;
        while p < out.len() && out[p].0 != pid
            invariant
                p <= out@.len(),
                forall|k: int| 0 <= k < p ==> (#[trigger] out@[k]).0 != pid,
            decreases out@.len() - p,
        {
            p = p + 1;
        }
        let ghost old_out = out@;
        if p < out.len() {
            let (q, total) = out[p];
            assert(total == pid_total(prefix, pid));
            out.set(p, (q, total + bytes));
        } else {
            assert(!has_pid(prefix, pid));
            assert(pid_total(prefix, pid) == 0) by {
                lemma_absent_total(prefix, pid);
            }
            out.push((pid, bytes));
        }
        proof {
            assert forall|k: int| 0 <= k < out@.len() implies (#[trigger] out@[k]).1 == pid_total(next, out@[k].0) by {
                if k < old_out.len() && k != p {
                    assert(out@[k] == old_out[k]);
                }
            }
            assert forall|pid2: u32| has_pid(next, pid2) <==> exists|k: int| 0 <= k < out@.len() && (#[trigger] out@[k]).0 == pid2 by {
                if has_pid(next, pid2) {
                    let j = choose|j: int| 0 <= j < next.len() && (#[trigger] next[j]).0 == pid2;
                    if j < i {
                        assert(prefix[j] == next[j]);
                        assert(has_pid(prefix, pid2));
                        let k = choose|k: int| 0 <= k < old_out.len() && (#[trigger] old_out[k]).0 == pid2;
                        assert(out@[k].0 == pid2);
                    } else {
                        assert(pid2 == pid);
                        assert(out@[p as int].0 == pid);
                    }
                }
                if exists|k: int| 0 <= k < out@.len() && (#[trigger] out@[k]).0 == pid2 {
                    let k = choose|k: int| 0 <= k < out@.len() && (#[trigger] out@[k]).0 == pid2;
                    if k < old_out.len() && old_out[k].0 == pid2 {
                        assert(has_pid(prefix, pid2));
                        let j = choose|j: int| 0 <= j < prefix.len() && (#[trigger] prefix[j]).0 == pid2;
                        assert(next[j] == prefix[j]);
                    } else {
                        assert(pid2 == pid);
                        assert(next[i as int].0 == pid);
                    }
                }
            }
        }
        i = i + 1;
    }
    assert(entries@.subrange(0, entries@.len() as int) =~= entries@);
    out
}

proof fn lemma_absent_total(entries: Seq<(u32, Option<u64>)>, pid: u32)
    requires
        !has_pid(entries, pid),
    ensures
        pid_total(entries, pid) == 0,
    decreases entries.len(),
{
    if entries.len() > 0 {
        let rest = entries.drop_last();
        assert(!has_pid(rest, pid)) by {
            if has_pid(rest, pid) {
                let j = choose|j: int| 0 <= j < rest.len() && (#[trigger] rest[j]).0 == pid;
                assert(entries[j] == rest[j]);
            }
        }
        lemma_absent_total(rest, pid);
        assert(entries[entries.len() - 1].0 != pid);
    }
}

} // verus!
