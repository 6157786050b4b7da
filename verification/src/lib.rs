//! Containers that keep a bounded number of elements in a fixed block of
//! slots and, in the hybrid variant, spill further elements into a growable
//! overflow buffer.
//!
//! [`ReArr`] is the fixed-capacity building block: up to `N` elements stored
//! in a slot array that is never resized, always filled front to back.
//! [`ComboVec`] composes a [`ReArr`] with a growable overflow buffer and
//! presents the two regions as one contiguous sequence, maintaining the
//! invariant that the overflow buffer is non-empty only while the fixed
//! region is full.

mod combo_vec;
mod re_arr;

pub use combo_vec::ComboVec;
pub use re_arr::ReArr;
pub use re_arr::contiguous_prefix;
pub use re_arr::joined;
