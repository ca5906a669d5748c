//! Sample types for exercising the typed encoding.

use vstd::prelude::*;

verus! {

/// A small sample value.
#[derive(Debug, Clone, Copy, PartialEq, Eq, Structural)]
pub struct Test {
    pub a: u32,
    pub b: u16,
}

/// A `Test` value, shown by its hexadecimal fields.
#[derive(Clone, Copy)]
pub struct CustomDebug(pub Test);

} // verus!
