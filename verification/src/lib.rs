//! A densely packed stack for payloads of mixed size and alignment.
//!
//! The stack owns one growable byte arena and an index of element records.
//! Each element is a byte payload together with its alignment requirement and
//! an opaque behavior descriptor. Payloads are bump-allocated back to back in
//! the arena, each at an address that satisfies its alignment, and the index
//! remembers where each one lives. Elements can only be appended and removed
//! last-in/first-out.

pub mod align;
pub mod iters;
pub mod laws;
pub mod stack;

pub use align::align_up;
pub use align::align_up_spec;
pub use iters::DynStackIter;
pub use iters::DynStackIterMut;
pub use stack::DynStack;
pub use stack::ElemView;
