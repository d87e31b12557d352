//! A prototype-based object model for a script virtual machine.
//!
//! Objects live in a [`heap::Heap`] arena and are referred to by copyable
//! [`object::Object`] handles. Reads take `&Heap`; every mutation takes
//! `&mut Heap`, which plays the role of the mutation capability.

pub mod value;
pub mod object;
pub mod names;
pub mod heap;
pub mod laws;
