//! Wrap-around arithmetic for a selection cursor over a list.

use vstd::prelude::*;

verus! {

/// Index of the entry above `current_index`, wrapping from the top of a list
/// of `item_count` entries to its bottom. An empty list pins the cursor at 0.
pub fn navigate_up(current_index: usize, item_count: usize) -> (r: usize)
    ensures
        item_count == 0 ==> r == 0,
        item_count > 0 && current_index == 0 ==> r == item_count - 1,
        item_count > 0 && current_index > 0 ==> r == current_index - 1,
{
    if item_count == 0 {
        0
    } else if current_index == 0 {
        item_count - 1
    } else {
        current_index - 1
    }
}

/// Index of the entry below `current_index`, wrapping from the bottom of a
/// list of `item_count` entries to its top. An empty list pins the cursor at 0.
pub fn navigate_down(current_index: usize, item_count: usize) -> (r: usize)
    ensures
        item_count == 0 ==> r == 0,
        item_count > 0 && current_index >= item_count - 1 ==> r == 0,
        item_count > 0 && current_index < item_count - 1 ==> r == current_index + 1,
{
    if item_count == 0 {
        0
    } else if current_index >= item_count - 1 {
        0
    } else {
        current_index + 1
    }
}

} // verus!
