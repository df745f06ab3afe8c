use vstd::prelude::*;

verus! {

/// The scroll offset of the profile text after clamping: at most the number
/// of lines that do not fit in the area (its height less the two border
/// rows).
pub open spec fn clamped_scroll(scroll: usize, line_count: usize, area_height: u16) -> int {
    let inner: int = if area_height >= 2 { area_height - 2 } else { 0 };
    let max_scroll: int = if line_count > inner { line_count - inner } else { 0 };
    if scroll > max_scroll { max_scroll } else { scroll as int }
}

/// Clamp the scroll offset of the profile text.
pub fn clamp_scroll(scroll: usize, line_count: usize, area_height: u16) -> (r: usize)
    ensures
        r == clamped_scroll(scroll, line_count, area_height),
{
    let inner_height = area_height.saturating_sub(2) as usize;
    let max_scroll = line_count.saturating_sub(inner_height);
    if scroll > max_scroll {
        max_scroll
    } else {
        scroll
    }
}

} // verus!
