use vstd::prelude::*;

use crate::collect::process::{passes_filter, SortBy};
use crate::text::{
    all_ascii, ascii_lower, chars_contain, is_substring, lowercase, push_str, string_from_chars, to_lowercase_chars,
};

verus! {

/// A name is shown under `filter_text`: the filter is empty, or the
/// lower-cased filter occurs in the lower-cased name.
pub open spec fn shown(name: Seq<char>, filter_text: Seq<char>) -> bool {
    filter_text.len() == 0 || passes_filter(name, Some(filter_text))
}

/// The positions among the first `n` names that are shown, in order.
pub open spec fn shown_rows(names: Seq<String>, filter_text: Seq<char>, n: nat) -> Seq<usize>
    decreases n,
{
    if n == 0 {
        Seq::empty()
    } else if shown(names[n - 1]@, filter_text) {
        shown_rows(names, filter_text, (n - 1) as nat).push((n - 1) as usize)
    } else {
        shown_rows(names, filter_text, (n - 1) as nat)
    }
}

/// The rows the process table shows under `filter_text`, in their original
/// order, as positions in `names`.
pub fn filter_rows(names: &[String], filter_text: &str) -> (out: Vec<usize>)
    ensures
        out@ == shown_rows(names@, filter_text@, names@.len()),
        all_ascii(filter_text@) ==> forall|i: int|
            0 <= i < names@.len() && all_ascii(#[trigger] names@[i]@) ==> (out@.contains(i as usize) <==> (
            filter_text@.len() == 0 || is_substring(ascii_lower(filter_text@), ascii_lower(names@[i]@)))),
{
    let empty = filter_text.is_empty();
    let f_lower = to_lowercase_chars(filter_text);
    let mut out: Vec<usize> = Vec::new();
    let mut i: usize = 0;
    while i < names.len()
        invariant
            i <= names@.len(),
            empty == (filter_text@.len() == 0),
            f_lower@ == lowercase(filter_text@),
            all_ascii(filter_text@) ==> f_lower@ == ascii_lower(filter_text@),
            out@ == shown_rows(names@, filter_text@, i as nat),
            !empty ==> forall|k: int| 0 <= k < i && all_ascii(#[trigger] names@[k]@) ==> lowercase(names@[k]@) == ascii_lower(names@[k]@),
        decreases names@.len() - i,
    {
        let keep = empty || chars_contain(&to_lowercase_chars(names[i].as_str()), &f_lower);
        if keep {
            out.push(i);
        }
        i = i + 1;
    }
    proof {
        if all_ascii(filter_text@) {
            assert forall|m: int| 0 <= m < names@.len() && all_ascii(#[trigger] names@[m]@) implies (out@.contains(m as usize) <==> (
                filter_text@.len() == 0 || is_substring(ascii_lower(filter_text@), ascii_lower(names@[m]@)))) by {
                lemma_shown_rows_members(names@, filter_text@, names@.len(), m);
            }
        }
    }
    out
}

/// A position is among the shown rows of the first `n` names exactly when it
/// is one of them and its name is shown.
proof fn lemma_shown_rows_members(names: Seq<String>, filter_text: Seq<char>, n: nat, m: int)
    requires
        n <= names.len() <= usize::MAX,
        0 <= m <= usize::MAX,
    ensures
        shown_rows(names, filter_text, n).contains(m as usize) <==> (m < n && shown(names[m]@, filter_text)),
        forall|k: int| 0 <= k < shown_rows(names, filter_text, n).len() ==> #[trigger] shown_rows(names, filter_text, n)[k] < n,
    decreases n,
{
    if n > 0 {
        lemma_shown_rows_members(names, filter_text, (n - 1) as nat, m);
        let prev = shown_rows(names, filter_text, (n - 1) as nat);
        if shown(names[n - 1]@, filter_text) {
            assert(shown_rows(names, filter_text, n) == prev.push((n - 1) as usize));
            if m == n - 1 {
                assert(prev.push((n - 1) as usize)[prev.len() as int] == m as usize);
            }
            if prev.push((n - 1) as usize).contains(m as usize) && m != n - 1 {
                let k = choose|k: int| 0 <= k < prev.len() + 1 && #[trigger] prev.push((n - 1) as usize)[k] == m as usize;
                assert(prev.push((n - 1) as usize)[prev.len() as int] == (n - 1) as usize);
                assert(k < prev.len());
            }
            if prev.contains(m as usize) {
                let k = choose|k: int| 0 <= k < prev.len() && #[trigger] prev[k] == m as usize;
                assert(prev.push((n - 1) as usize)[k] == m as usize);
            }
        }
    }
}

/// The highlighted row of a table of `rows` rows scrolled to `scroll`: none
/// when the table is empty, otherwise `scroll` clamped to the last row.
pub fn selected_row(scroll: usize, rows: usize) -> (r: Option<usize>)
    ensures
        rows == 0 ==> r is None,
        rows > 0 ==> r == Some(if scroll < rows { scroll } else { (rows - 1) as usize }),
{
    if rows == 0 {
        None
    } else {
        let last = rows - 1;
        Some(if scroll < last { scroll } else { last })
    }
}

/// The header text of a sort column.
pub open spec fn sort_label(by: SortBy) -> Seq<char> {
    match by {
        SortBy::Cpu => "CPU%"@,
        SortBy::Memory => "MEM"@,
        SortBy::Pid => "PID"@,
        SortBy::Name => "NAME"@,
    }
}

/// The title of the process table: the filter being typed, with a cursor; an
/// applied filter, with the hint that Esc clears it; or the sort column.
pub open spec fn table_title_text(sort_by: SortBy, filter_mode: bool, filter_text: Seq<char>) -> Seq<char> {
    if filter_mode {
        " Processes — filter: /"@ + filter_text + "_ "@
    } else if filter_text.len() > 0 {
        " Processes — filter: "@ + filter_text + " (Esc clear) "@
    } else {
        " Processes [sort: "@ + sort_label(sort_by) + "] "@
    }
}

/// Render the title of the process table.
pub fn table_title(sort_by: SortBy, filter_mode: bool, filter_text: &str) -> (s: String)
    ensures
        s@ == table_title_text(sort_by, filter_mode, filter_text@),
{
    let mut out: Vec<char> = Vec::new();
    if filter_mode {
        push_str(&mut out, " Processes — filter: /");
        push_str(&mut out, filter_text);
        push_str(&mut out, "_ ");
    } else if !filter_text.is_empty() {
        push_str(&mut out, " Processes — filter: ");
        push_str(&mut out, filter_text);
        push_str(&mut out, " (Esc clear) ");
    } else {
        push_str(&mut out, " Processes [sort: ");
        push_str(&mut out, sort_by.label());
        push_str(&mut out, "] ");
    }
    string_from_chars(&out)
}

} // verus!
