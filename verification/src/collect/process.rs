use vstd::prelude::*;

use crate::text::{
    str_eq,
    all_ascii, ascii_lower, ascii_lower_char, chars_contain, chars_equal, chars_less, is_substring, lemma_seq_less_irreflexive,
    lemma_seq_less_total, lemma_seq_less_transitive, lowercase, seq_less, to_lowercase_chars,
};

verus! {

/// The column that the process table is ordered by.
#[derive(Clone, Copy, Debug, PartialEq, Eq, Structural)]
pub enum SortBy {
    Cpu,
    Memory,
    Pid,
    Name,
}

impl SortBy {
    /// The header text of the column.
    pub fn label(&self) -> (r: &'static str)
        ensures
            r@ == match *self {
                SortBy::Cpu => "CPU%"@,
                SortBy::Memory => "MEM"@,
                SortBy::Pid => "PID"@,
                SortBy::Name => "NAME"@,
            },
    {
        match self {
            SortBy::Cpu => "CPU%",
            SortBy::Memory => "MEM",
            SortBy::Pid => "PID",
            SortBy::Name => "NAME",
        }
    }
}

/// What the ordering and the filter of the process table read of a process.
/// `cpu_rank` orders processes by CPU share: a larger rank is a larger share,
/// equal ranks are equal shares.
#[derive(Clone, Debug)]
pub struct ProcessRow {
    pub pid: u32,
    pub name: String,
    pub cpu_rank: u32,
    pub memory_bytes: u64,
    pub gpu_mem_bytes: u64,
}

/// The sort key of `a` comes strictly before that of `b`: CPU and memory
/// descending, PID ascending, names ascending ignoring case.
pub open spec fn key_before(by: SortBy, a: ProcessRow, b: ProcessRow) -> bool {
    match by {
        SortBy::Cpu => a.cpu_rank > b.cpu_rank,
        SortBy::Memory => a.memory_bytes > b.memory_bytes,
        SortBy::Pid => a.pid < b.pid,
        SortBy::Name => seq_less(lowercase(a.name@), lowercase(b.name@)),
    }
}

/// `a` and `b` have the same sort key.
pub open spec fn same_key(by: SortBy, a: ProcessRow, b: ProcessRow) -> bool {
    match by {
        SortBy::Cpu => a.cpu_rank == b.cpu_rank,
        SortBy::Memory => a.memory_bytes == b.memory_bytes,
        SortBy::Pid => a.pid == b.pid,
        SortBy::Name => lowercase(a.name@) == lowercase(b.name@),
    }
}

/// Row `i` is listed before row `j`: its key comes first, or the keys are the
/// same and it came first in the input (the sort is stable).
pub open spec fn listed_before(rows: Seq<ProcessRow>, by: SortBy, i: int, j: int) -> bool {
    key_before(by, rows[i], rows[j]) || (same_key(by, rows[i], rows[j]) && i < j)
}

/// A process name passes the filter: no filter, or the lower-cased filter
/// occurs in the lower-cased name.
pub open spec fn passes_filter(name: Seq<char>, filter: Option<Seq<char>>) -> bool {
    match filter {
        None => true,
        Some(f) => is_substring(lowercase(f), lowercase(name)),
    }
}

pub open spec fn opt_view(filter: Option<&str>) -> Option<Seq<char>> {
    match filter {
        None => None,
        Some(f) => Some(f@),
    }
}

proof fn lemma_key_order(by: SortBy, a: ProcessRow, b: ProcessRow, c: ProcessRow)
    ensures
        !key_before(by, a, a),
        same_key(by, a, a),
        same_key(by, a, b) ==> same_key(by, b, a),
        !(key_before(by, a, b) && same_key(by, a, b)),
        !(key_before(by, a, b) && key_before(by, b, a)),
        key_before(by, a, b) || key_before(by, b, a) || same_key(by, a, b),
        key_before(by, a, b) && key_before(by, b, c) ==> key_before(by, a, c),
        key_before(by, a, b) && same_key(by, b, c) ==> key_before(by, a, c),
        same_key(by, a, b) && key_before(by, b, c) ==> key_before(by, a, c),
        same_key(by, a, b) && same_key(by, b, c) ==> same_key(by, a, c),
{
    if by == SortBy::Name {
        let (x, y, z) = (lowercase(a.name@), lowercase(b.name@), lowercase(c.name@));
        lemma_seq_less_irreflexive(x);
        lemma_seq_less_total(x, y);
        if seq_less(x, y) && seq_less(y, z) {
            lemma_seq_less_transitive(x, y, z);
        }
    }
}

/// `listed_before` is a strict total order on the positions of `rows`.
pub proof fn lemma_listed_before_total_order(rows: Seq<ProcessRow>, by: SortBy, i: int, j: int, k: int)
    ensures
        !listed_before(rows, by, i, i),
        i != j ==> (listed_before(rows, by, i, j) || listed_before(rows, by, j, i)),
        !(listed_before(rows, by, i, j) && listed_before(rows, by, j, i)),
        listed_before(rows, by, i, j) && listed_before(rows, by, j, k) ==> listed_before(rows, by, i, k),
{
    lemma_key_order(by, rows[i], rows[j], rows[k]);
    lemma_key_order(by, rows[j], rows[i], rows[k]);
    lemma_key_order(by, rows[i], rows[k], rows[j]);
}

/// The order of the process table: a stable sort by `by` of the rows whose
/// names pass `filter`, given as positions in `rows`.
pub open spec fn is_table_order(rows: Seq<ProcessRow>, by: SortBy, filter: Option<Seq<char>>, out: Seq<usize>) -> bool {
    &&& forall|k: int| 0 <= k < out.len() ==> #[trigger] out[k] < rows.len() && passes_filter(rows[out[k] as int].name@, filter)
    &&& forall|i: int| 0 <= i < rows.len() && passes_filter(rows[i].name@, filter) ==> out.contains(i as usize)
    &&& forall|k: int, l: int| 0 <= k < l < out.len() ==> listed_before(rows, by, #[trigger] out[k] as int, #[trigger] out[l] as int)
}

/// Sequences sorted strictly by `listed_before` that hold the same positions
/// are equal.
proof fn lemma_sorted_same_elements_equal(rows: Seq<ProcessRow>, by: SortBy, a: Seq<usize>, b: Seq<usize>)
    requires
        forall|k: int, l: int| 0 <= k < l < a.len() ==> listed_before(rows, by, #[trigger] a[k] as int, #[trigger] a[l] as int),
        forall|k: int, l: int| 0 <= k < l < b.len() ==> listed_before(rows, by, #[trigger] b[k] as int, #[trigger] b[l] as int),
        forall|x: usize| a.contains(x) <==> b.contains(x),
    ensures
        a == b,
    decreases a.len(),
{
    if a.len() == 0 {
        if b.len() > 0 {
            assert(b.contains(b[0]));
        }
        assert(a =~= b);
    } else {
        assert(a.contains(a[0]));
        let j = choose|j: int| 0 <= j < b.len() && b[j] == a[0];
        if j > 0 {
            assert(b.contains(b[0]));
            let i = choose|i: int| 0 <= i < a.len() && a[i] == b[0];
            lemma_listed_before_total_order(rows, by, b[0] as int, a[0] as int, a[0] as int);
            if i == 0 {
                lemma_listed_before_total_order(rows, by, b[0] as int, b[0] as int, b[0] as int);
            }
            assert(listed_before(rows, by, b[0] as int, b[j] as int));
            assert(false);
        }
        assert(b[0] == a[0]);
        let a1 = a.drop_first();
        let b1 = b.drop_first();
        assert forall|x: usize| a1.contains(x) <==> b1.contains(x) by {
            if a1.contains(x) {
                let i = choose|i: int| 0 <= i < a1.len() && a1[i] == x;
                assert(a[i + 1] == x);
                assert(listed_before(rows, by, a[0] as int, a[i + 1] as int));
                lemma_listed_before_total_order(rows, by, a[0] as int, a[0] as int, a[0] as int);
                assert(a.contains(x));
                let m = choose|m: int| 0 <= m < b.len() && b[m] == x;
                assert(m != 0);
                assert(b1[m - 1] == x);
            }
            if b1.contains(x) {
                let i = choose|i: int| 0 <= i < b1.len() && b1[i] == x;
                assert(b[i + 1] == x);
                assert(listed_before(rows, by, b[0] as int, b[i + 1] as int));
                lemma_listed_before_total_order(rows, by, b[0] as int, b[0] as int, b[0] as int);
                assert(b.contains(x));
                let m = choose|m: int| 0 <= m < a.len() && a[m] == x;
                assert(m != 0);
                assert(a1[m - 1] == x);
            }
        }
        assert forall|k: int, l: int| 0 <= k < l < a1.len() implies listed_before(rows, by, #[trigger] a1[k] as int, #[trigger] a1[l] as int) by {
            assert(a1[k] == a[k + 1] && a1[l] == a[l + 1]);
        }
        assert forall|k: int, l: int| 0 <= k < l < b1.len() implies listed_before(rows, by, #[trigger] b1[k] as int, #[trigger] b1[l] as int) by {
            assert(b1[k] == b[k + 1] && b1[l] == b[l + 1]);
        }
        lemma_sorted_same_elements_equal(rows, by, a1, b1);
        assert(a =~= seq![a[0]] + a1);
        assert(b =~= seq![b[0]] + b1);
    }
}

/// The table order is determined: for given rows, sort column and filter,
/// exactly one sequence of positions is a table order.
pub proof fn lemma_table_order_unique(rows: Seq<ProcessRow>, by: SortBy, filter: Option<Seq<char>>, a: Seq<usize>, b: Seq<usize>)
    requires
        is_table_order(rows, by, filter, a),
        is_table_order(rows, by, filter, b),
    ensures
        a == b,
{
    assert forall|x: usize| a.contains(x) <==> b.contains(x) by {
        if a.contains(x) {
            let k = choose|k: int| 0 <= k < a.len() && a[k] == x;
            assert(a[k] < rows.len());
        }
        if b.contains(x) {
            let k = choose|k: int| 0 <= k < b.len() && b[k] == x;
            assert(b[k] < rows.len());
        }
    }
    lemma_sorted_same_elements_equal(rows, by, a, b);
}

/// In a table order no row is listed after a row whose key it precedes, and
/// rows with the same key keep their input order.
pub proof fn lemma_table_order_sorted_and_stable(rows: Seq<ProcessRow>, by: SortBy, filter: Option<Seq<char>>, out: Seq<usize>, k: int, l: int)
    requires
        is_table_order(rows, by, filter, out),
        0 <= k < l < out.len(),
    ensures
        !key_before(by, rows[out[l] as int], rows[out[k] as int]),
        same_key(by, rows[out[k] as int], rows[out[l] as int]) ==> out[k] < out[l],
{
    assert(listed_before(rows, by, out[k] as int, out[l] as int));
    lemma_key_order(by, rows[out[k] as int], rows[out[l] as int], rows[out[l] as int]);
    lemma_key_order(by, rows[out[l] as int], rows[out[k] as int], rows[out[k] as int]);
}

/// Lower-cased names of the rows.
fn lowercase_names(rows: &[ProcessRow]) -> (names: Vec<Vec<char>>)
    ensures
        names@.len() == rows@.len(),
        forall|i: int| 0 <= i < rows@.len() ==> (#[trigger] names@[i])@ == lowercase(rows@[i].name@),
        forall|i: int| 0 <= i < rows@.len() && all_ascii(#[trigger] rows@[i].name@) ==> lowercase(rows@[i].name@) == ascii_lower(rows@[i].name@),
{
    let mut names: Vec<Vec<char>> = Vec::new();
    let mut i: usize = 0;
    while i < rows.len()
        invariant
            i <= rows@.len(),
            names@.len() == i,
            forall|k: int| 0 <= k < i ==> (#[trigger] names@[k])@ == lowercase(rows@[k].name@),
            forall|k: int| 0 <= k < i && all_ascii(#[trigger] rows@[k].name@) ==> lowercase(rows@[k].name@) == ascii_lower(rows@[k].name@),
        decreases rows@.len() - i,
    {
        names.push(to_lowercase_chars(rows[i].name.as_str()));
        i = i + 1;
    }
    names
}

/// Decide `listed_before` for two positions.
fn listed_before_exec(rows: &[ProcessRow], names: &Vec<Vec<char>>, by: SortBy, i: usize, j: usize) -> (r: bool)
    requires
        i < rows@.len(),
        j < rows@.len(),
        names@.len() == rows@.len(),
        forall|k: int| 0 <= k < rows@.len() ==> (#[trigger] names@[k])@ == lowercase(rows@[k].name@),
    ensures
        r == listed_before(rows@, by, i as int, j as int),
{
    let a = &rows[i];
    let b = &rows[j];
    let (before, same) = match by {
        SortBy::Cpu => (a.cpu_rank > b.cpu_rank, a.cpu_rank == b.cpu_rank),
        SortBy::Memory => (a.memory_bytes > b.memory_bytes, a.memory_bytes == b.memory_bytes),
        SortBy::Pid => (a.pid < b.pid, a.pid == b.pid),
        SortBy::Name => (chars_less(&names[i], &names[j]), chars_equal(&names[i], &names[j])),
    };
    before || (same && i < j)
}

/// Order the process table: keep the rows whose lower-cased name contains the
/// lower-cased `filter` (all rows when there is none), sorted by `sort_by`
/// with ties kept in input order. Returns positions in `rows`.
pub fn order_processes(rows: &[ProcessRow], sort_by: SortBy, filter: Option<&str>) -> (out: Vec<usize>)
    ensures
        is_table_order(rows@, sort_by, opt_view(filter), out@),
        (filter matches Some(f) && f@.len() == 0) ==> is_table_order(rows@, sort_by, None, out@),
        filter matches Some(f) ==> (all_ascii(f@) ==> forall|i: int|
            0 <= i < rows@.len() && all_ascii(#[trigger] rows@[i].name@) ==> (out@.contains(i as usize)
                <==> is_substring(ascii_lower(f@), ascii_lower(rows@[i].name@)))),
{
    let names = lowercase_names(rows);
    let f_lower: Option<Vec<char>> = match filter {
        Some(f) => Some(to_lowercase_chars(f)),
        None => None,
    };
    let ghost fv = opt_view(filter);
    let mut out: Vec<usize> = Vec::new();
    let mut i: usize = 0;
    while i < rows.len()
        invariant
            i <= rows@.len(),
            names@.len() == rows@.len(),
            forall|k: int| 0 <= k < rows@.len() ==> (#[trigger] names@[k])@ == lowercase(rows@[k].name@),
            fv == opt_view(filter),
            fv matches Some(f) ==> (f.len() == 0 ==> lowercase(f).len() == 0),
            fv matches Some(f) ==> (all_ascii(f) ==> lowercase(f) == ascii_lower(f)),
            forall|k: int| 0 <= k < rows@.len() && all_ascii(#[trigger] rows@[k].name@) ==> lowercase(rows@[k].name@) == ascii_lower(rows@[k].name@),
            match fv {
                None => f_lower is None,
                Some(f) => f_lower is Some && f_lower->0@ == lowercase(f),
            },
            forall|k: int| 0 <= k < out@.len() ==> #[trigger] out@[k] < i && passes_filter(rows@[out@[k] as int].name@, fv),
            forall|m: int| 0 <= m < i && passes_filter(rows@[m].name@, fv) ==> out@.contains(m as usize),
            forall|k: int, l: int| 0 <= k < l < out@.len() ==> listed_before(rows@, sort_by, #[trigger] out@[k] as int, #[trigger] out@[l] as int),
        decreases rows@.len() - i,
    {
        let keep = match &f_lower {
            None => true,
            Some(f) => chars_contain(&names[i], f),
        };
        if keep {
            // find the first listed row that comes after row i
            let mut p: usize = 0;
            while p < out.len() && listed_before_exec(rows, &names, sort_by, out[p], i)
                invariant
                    i < rows@.len(),
                    p <= out@.len(),
                    names@.len() == rows@.len(),
                    forall|k: int| 0 <= k < rows@.len() ==> (#[trigger] names@[k])@ == lowercase(rows@[k].name@),
                    forall|k: int| 0 <= k < out@.len() ==> #[trigger] out@[k] < i,
                    forall|k: int| 0 <= k < p ==> listed_before(rows@, sort_by, #[trigger] out@[k] as int, i as int),
                decreases out@.len() - p,
            {
                p = p + 1;
            }
            let ghost old_out = out@;
            proof {
                assert forall|l: int| p <= l < old_out.len() implies listed_before(rows@, sort_by, i as int, #[trigger] old_out[l] as int) by {
                    lemma_listed_before_total_order(rows@, sort_by, old_out[p as int] as int, i as int, old_out[l] as int);
                    lemma_listed_before_total_order(rows@, sort_by, i as int, old_out[p as int] as int, old_out[l] as int);
                }
            }
            out.insert(p, i);
            proof {
                assert(out@ =~= old_out.subrange(0, p as int).push(i) + old_out.subrange(p as int, old_out.len() as int));
                assert forall|k: int, l: int| 0 <= k < l < out@.len() implies listed_before(rows@, sort_by, #[trigger] out@[k] as int, #[trigger] out@[l] as int) by {
                    if k < p && l > p {
                        assert(out@[k] == old_out[k]);
                        assert(out@[l] == old_out[l - 1]);
                    } else if k < p && l < p {
                        assert(out@[k] == old_out[k]);
                        assert(out@[l] == old_out[l]);
                    } else if k > p {
                        assert(out@[k] == old_out[k - 1]);
                        assert(out@[l] == old_out[l - 1]);
                    }
                }
                assert forall|m: int| 0 <= m < i + 1 && passes_filter(rows@[m].name@, fv) implies out@.contains(m as usize) by {
                    if m < i {
                        let k = choose|k: int| 0 <= k < old_out.len() && old_out[k] == m as usize;
                        if k < p {
                            assert(out@[k] == m as usize);
                        } else {
                            assert(out@[k + 1] == m as usize);
                        }
                    } else {
                        assert(out@[p as int] == i);
                    }
                }
            }
        } else {
            proof {
                assert(!passes_filter(rows@[i as int].name@, fv));
            }
        }
        i = i + 1;
    }
    proof {
        if let Some(f) = fv {
            if all_ascii(f) {
                assert forall|m: int| 0 <= m < rows@.len() && all_ascii(#[trigger] rows@[m].name@) implies (out@.contains(m as usize)
                    <==> is_substring(ascii_lower(f), ascii_lower(rows@[m].name@))) by {
                    if out@.contains(m as usize) {
                        let k = choose|k: int| 0 <= k < out@.len() && out@[k] == m as usize;
                        assert(passes_filter(rows@[out@[k] as int].name@, fv));
                    }
                }
            }
            if f.len() == 0 {
                assert forall|m: int| 0 <= m < rows@.len() implies passes_filter(rows@[m].name@, fv) by {
                    lemma_empty_filter_passes(rows@[m].name@, f);
                }
            }
        }
    }
    out
}

/// An ASCII name whose lower case holds the lower-cased filter at position
/// `k`, however far from the start and however long the name, matches the
/// filter.
pub proof fn lemma_filter_matches_anywhere(name: Seq<char>, f: Seq<char>, k: int)
    requires
        0 <= k,
        k + f.len() <= name.len(),
        forall|j: int| 0 <= j < f.len() ==> ascii_lower_char(#[trigger] name[k + j]) == ascii_lower_char(f[j]),
    ensures
        is_substring(ascii_lower(f), ascii_lower(name)),
{
    reveal(is_substring);
    let hay = ascii_lower(name);
    let needle = ascii_lower(f);
    assert(hay.subrange(k, k + needle.len()) =~= needle) by {
        assert forall|j: int| 0 <= j < needle.len() implies hay.subrange(k, k + needle.len())[j] == needle[j] by {
            assert(ascii_lower_char(name[k + j]) == ascii_lower_char(f[j]));
            assert(hay[k + j] == ascii_lower_char(name[k + j]));
            assert(needle[j] == ascii_lower_char(f[j]));
        }
    }
}

/// A filter that lower-cases to nothing lets every name through.
proof fn lemma_empty_filter_passes(name: Seq<char>, f: Seq<char>)
    requires
        lowercase(f).len() == 0,
    ensures
        passes_filter(name, Some(f)),
{
    reveal(is_substring);
    let k: int = 0;
    assert(lowercase(name).subrange(k, k + lowercase(f).len()) =~= lowercase(f));
}

/// Processes that share a name: how many there are, their summed memory and
/// GPU memory, and their positions in the process list.
#[derive(Clone, Debug)]
pub struct ProcessGroup {
    pub name: String,
    pub count: usize,
    pub total_memory: u64,
    pub total_gpu_mem: u64,
    pub members: Vec<usize>,
}

/// Some group has the name `name`.
pub open spec fn has_group(groups: Seq<ProcessGroup>, name: Seq<char>) -> bool {
    exists|k: int| 0 <= k < groups.len() && (#[trigger] groups[k]).name@ == name
}

/// The positions among the first `n` rows whose name is `name`, in order.
pub open spec fn named_rows(rows: Seq<ProcessRow>, name: Seq<char>, n: nat) -> Seq<usize>
    decreases n,
{
    if n == 0 {
        Seq::empty()
    } else if rows[n - 1].name@ == name {
        named_rows(rows, name, (n - 1) as nat).push((n - 1) as usize)
    } else {
        named_rows(rows, name, (n - 1) as nat)
    }
}

/// Summed memory (or GPU memory, with `gpu`) of the first `n` rows named `name`.
pub open spec fn named_total(rows: Seq<ProcessRow>, name: Seq<char>, n: nat, gpu: bool) -> nat
    decreases n,
{
    if n == 0 {
        0
    } else {
        named_total(rows, name, (n - 1) as nat, gpu) + if rows[n - 1].name@ == name {
            if gpu { rows[n - 1].gpu_mem_bytes as nat } else { rows[n - 1].memory_bytes as nat }
        } else {
            0
        }
    }
}

proof fn lemma_named_total_monotone(rows: Seq<ProcessRow>, name: Seq<char>, n: nat, m: nat, gpu: bool)
    requires
        n <= m <= rows.len(),
    ensures
        named_total(rows, name, n, gpu) <= named_total(rows, name, m, gpu),
    decreases m - n,
{
    if n < m {
        lemma_named_total_monotone(rows, name, n, (m - 1) as nat, gpu);
    }
}

proof fn lemma_named_rows_empty(rows: Seq<ProcessRow>, name: Seq<char>, n: nat)
    requires
        n <= rows.len(),
        forall|i: int| 0 <= i < n ==> rows[i].name@ != name,
    ensures
        named_rows(rows, name, n) == Seq::<usize>::empty(),
        named_total(rows, name, n, false) == 0,
        named_total(rows, name, n, true) == 0,
    decreases n,
{
    if n > 0 {
        lemma_named_rows_empty(rows, name, (n - 1) as nat);
    }
}

/// Group the process list by name. Every name occurs in exactly one group,
/// groups come in the order their names first occur, and each group lists
/// its members in list order with their count and summed memory and GPU
/// memory.
pub fn aggregate(rows: &[ProcessRow]) -> (groups: Vec<ProcessGroup>)
    requires
        forall|name: Seq<char>| #[trigger] named_total(rows@, name, rows@.len(), false) <= u64::MAX,
        forall|name: Seq<char>| #[trigger] named_total(rows@, name, rows@.len(), true) <= u64::MAX,
    ensures
        forall|k: int, l: int| 0 <= k < l < groups@.len() ==> (#[trigger] groups@[k]).name@ != (#[trigger] groups@[l]).name@,
        forall|i: int| 0 <= i < rows@.len() ==> has_group(groups@, #[trigger] rows@[i].name@),
        forall|k: int| 0 <= k < groups@.len() ==> {
            let g = #[trigger] groups@[k];
            &&& g.members@ == named_rows(rows@, g.name@, rows@.len() as nat)
            &&& g.members@.len() > 0
            &&& g.count == g.members@.len()
            &&& g.total_memory == named_total(rows@, g.name@, rows@.len() as nat, false)
            &&& g.total_gpu_mem == named_total(rows@, g.name@, rows@.len() as nat, true)
        },
        forall|k: int, l: int| 0 <= k < l < groups@.len() ==> (#[trigger] groups@[k]).members@[0] < (#[trigger] groups@[l]).members@[0],
{
    let mut groups: Vec<ProcessGroup> = Vec::new();
    let mut i: usize = 0;
    while i < rows.len()
        invariant
            i <= rows@.len(),
            forall|name: Seq<char>| #[trigger] named_total(rows@, name, rows@.len(), false) <= u64::MAX,
            forall|name: Seq<char>| #[trigger] named_total(rows@, name, rows@.len(), true) <= u64::MAX,
            forall|k: int, l: int| 0 <= k < l < groups@.len() ==> (#[trigger] groups@[k]).name@ != (#[trigger] groups@[l]).name@,
            forall|m: int| 0 <= m < i ==> has_group(groups@, #[trigger] rows@[m].name@),
            forall|k: int| 0 <= k < groups@.len() ==> {
                let g = #[trigger] groups@[k];
                &&& g.members@ == named_rows(rows@, g.name@, i as nat)
                &&& g.members@.len() > 0
                &&& g.count == g.members@.len()
                &&& g.total_memory == named_total(rows@, g.name@, i as nat, false)
                &&& g.total_gpu_mem == named_total(rows@, g.name@, i as nat, true)
            },
            forall|k: int, l: int| 0 <= k < l < groups@.len() ==> (#[trigger] groups@[k]).members@[0] < (#[trigger] groups@[l]).members@[0],
        decreases rows@.len() - i,
    {
        let row = &rows[i];
        let mut p: usize = 0;
        while p < groups.len() && !str_eq(groups[p].name.as_str(), row.name.as_str())
            invariant
                p <= groups@.len(),
                forall|k: int| 0 <= k < p ==> (#[trigger] groups@[k]).name@ != row.name@,
            decreases groups@.len() - p,
        {
            p = p + 1;
        }
        let ghost old_groups = groups@;
        proof {
            lemma_named_total_monotone(rows@, row.name@, (i + 1) as nat, rows@.len() as nat, false);
            lemma_named_total_monotone(rows@, row.name@, (i + 1) as nat, rows@.len() as nat, true);
        }
        if p < groups.len() {
            proof {
                lemma_named_rows_below(rows@, groups@[p as int].name@, i as nat);
            }
            let mut g = groups[p].clone_group();
            g.members.push(i);
            g.count = g.count + 1;
            g.total_memory = g.total_memory + row.memory_bytes;
            g.total_gpu_mem = g.total_gpu_mem + row.gpu_mem_bytes;
            groups.set(p, g);
        } else {
            proof {
                assert forall|m: int| 0 <= m < i implies rows@[m].name@ != row.name@ by {
                    if rows@[m].name@ == row.name@ {
                        let k = choose|k: int| 0 <= k < old_groups.len() && (#[trigger] old_groups[k]).name@ == rows@[m].name@;
                    }
                }
                lemma_named_rows_empty(rows@, row.name@, i as nat);
            }
            let mut members: Vec<usize> = Vec::new();
            members.push(i);
            let g = ProcessGroup {
                name: clone_string(&row.name),
                count: 1,
                total_memory: row.memory_bytes,
                total_gpu_mem: row.gpu_mem_bytes,
                members,
            };
            assert(g.members@ =~= named_rows(rows@, row.name@, (i + 1) as nat));
            groups.push(g);
            proof {
                assert forall|k: int| 0 <= k < old_groups.len() implies (#[trigger] old_groups[k]).members@[0] < i by {
                    let g0 = old_groups[k];
                    assert(g0.members@ == named_rows(rows@, g0.name@, i as nat));
                    lemma_named_rows_below(rows@, g0.name@, i as nat);
                }
            }
        }
        proof {
            assert forall|k: int| 0 <= k < groups@.len() && k != p implies {
                let g = #[trigger] groups@[k];
                &&& g.members@ == named_rows(rows@, g.name@, (i + 1) as nat)
                &&& g.total_memory == named_total(rows@, g.name@, (i + 1) as nat, false)
                &&& g.total_gpu_mem == named_total(rows@, g.name@, (i + 1) as nat, true)
            } by {
                assert(groups@[k] == old_groups[k]);
            }
            assert forall|m: int| 0 <= m < i + 1 implies has_group(groups@, #[trigger] rows@[m].name@) by {
                if m < i {
                    let k = choose|k: int| 0 <= k < old_groups.len() && (#[trigger] old_groups[k]).name@ == rows@[m].name@;
                    assert(groups@[k].name@ == old_groups[k].name@);
                } else {
                    assert(groups@[p as int].name@ == row.name@);
                }
            }
        }
        i = i + 1;
    }
    groups
}

proof fn lemma_named_rows_below(rows: Seq<ProcessRow>, name: Seq<char>, n: nat)
    requires
        n <= rows.len(),
    ensures
        forall|k: int| 0 <= k < named_rows(rows, name, n).len() ==> #[trigger] named_rows(rows, name, n)[k] < n,
        named_rows(rows, name, n).len() <= n,
    decreases n,
{
    if n > 0 {
        lemma_named_rows_below(rows, name, (n - 1) as nat);
        let prev = named_rows(rows, name, (n - 1) as nat);
        if rows[n - 1].name@ == name {
            assert forall|k: int| 0 <= k < named_rows(rows, name, n).len() implies #[trigger] named_rows(rows, name, n)[k] < n by {
                if k < prev.len() {
                    assert(named_rows(rows, name, n)[k] == prev[k]);
                }
            }
        }
    }
}

/// A copy of a string.
fn clone_string(s: &String) -> (r: String)
    ensures
        r@ == s@,
{
    s.clone()
}

impl ProcessGroup {
    /// A copy of the group.
    fn clone_group(&self) -> (r: ProcessGroup)
        ensures
            r.name@ == self.name@,
            r.count == self.count,
            r.total_memory == self.total_memory,
            r.total_gpu_mem == self.total_gpu_mem,
            r.members@ == self.members@,
    {
        ProcessGroup {
            name: clone_string(&self.name),
            count: self.count,
            total_memory: self.total_memory,
            total_gpu_mem: self.total_gpu_mem,
            members: self.members.clone(),
        }
    }
}

} // verus!
