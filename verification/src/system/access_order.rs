use vstd::prelude::*;

verus! {

/// Reads a resource before the writes of a step.
pub struct ReadBeforeWrite;

/// Writes a resource.
pub struct Write;

/// Reads a resource after the writes of a step.
pub struct ReadAfterWrite;

/// When, within a step, a resource is accessed.
pub trait AccessOrder {

}

impl AccessOrder for ReadBeforeWrite {

}

impl AccessOrder for Write {

}

impl AccessOrder for ReadAfterWrite {

}

} // verus!
