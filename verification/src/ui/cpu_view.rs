use vstd::prelude::*;

verus! {

/// How many cores the per-core view shows: each takes two rows (gauge and
/// sparkline), so as many as fit in the inner height, at most all of them.
pub fn visible_cores(n_cores: usize, inner_height: u16) -> (r: usize)
    ensures
        r == if n_cores < inner_height / 2 { n_cores as int } else { inner_height as int / 2 },
{
    let rows_per_core = 2u16;
    let max_visible = (inner_height / rows_per_core) as usize;
    if n_cores < max_visible {
        n_cores
    } else {
        max_visible
    }
}

} // verus!
