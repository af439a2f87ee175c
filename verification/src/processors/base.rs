//! The fields every processor has.

use vstd::prelude::*;
use crate::processors::ProcessorType;

verus! {

/// Common base for all processors: a description and the processor's type.
pub struct ProcessorBase {
    /// Human-readable description.
    pub description: &'static str,
    pub processor_type: ProcessorType,
}

impl ProcessorBase {
    pub fn generator(_name: &'static str, description: &'static str) -> (r: Self)
        ensures
            r.description@ == description@,
            r.processor_type == ProcessorType::Generator,
    {
        Self { description, processor_type: ProcessorType::Generator }
    }

    pub fn creator(_name: &'static str, description: &'static str) -> (r: Self)
        ensures
            r.description@ == description@,
            r.processor_type == ProcessorType::Creator,
    {
        Self { description, processor_type: ProcessorType::Creator }
    }

    pub fn checker(_name: &'static str, description: &'static str) -> (r: Self)
        ensures
            r.description@ == description@,
            r.processor_type == ProcessorType::Checker,
    {
        Self { description, processor_type: ProcessorType::Checker }
    }

    pub fn explicit(_name: &'static str, description: &'static str) -> (r: Self)
        ensures
            r.description@ == description@,
            r.processor_type == ProcessorType::Explicit,
    {
        Self { description, processor_type: ProcessorType::Explicit }
    }

    pub fn description(&self) -> (r: &str)
        ensures
            r@ == self.description@,
    {
        self.description
    }

    pub fn processor_type(&self) -> (r: ProcessorType)
        ensures
            r == self.processor_type,
    {
        self.processor_type
    }
}

} // verus!
