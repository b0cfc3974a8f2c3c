//! The rules by which channel ends that can be cloned share a channel.

use vstd::prelude::*;

verus! {

/// Whether the number of handles to a channel, as it was before one more
/// handle was made, has reached the limit of `isize::MAX`.
pub fn exceeds_max_refcount(old_size: usize) -> (exceeded: bool)
    ensures
        exceeded == (old_size > isize::MAX),
{
    old_size > (isize::MAX as usize)
}

/// Whether a dropped handle was the last one of its side, given the number
/// of handles of that side before the drop; the channel is then closed.
pub fn is_last_handle(old_size: usize) -> (last: bool)
    ensures
        last == (old_size == 1),
{
    old_size == 1
}

} // verus!
