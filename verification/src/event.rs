//! The access sample that the collection side hands to identification.

use crate::helper::SampleData;
use vstd::prelude::*;
use vstd::std_specs::convert::FromSpecImpl;

verus! {

/// One sampled memory access.
#[derive(Default, Debug, Clone, Copy)]
pub struct Sample {
    /// Running number of the sample.
    pub id: u64,
    /// Virtual address that was accessed.
    pub va: u64,
    /// Cost of the access.
    pub lat: u64,
    /// Physical address, or 0 where it is not known.
    pub pa: u64,
}

/// The sample that a counter record stands for.
pub open spec fn sample_of(data: SampleData) -> Sample {
    Sample { id: data.id, va: data.addr, lat: data.weight, pa: data.phys_addr }
}

impl From<&SampleData> for Sample {
    fn from(value: &SampleData) -> (sample: Sample) {
        Sample { id: value.id, va: value.addr, lat: value.weight, pa: value.phys_addr }
    }
}

impl FromSpecImpl<&SampleData> for Sample {
    open spec fn obeys_from_spec() -> bool {
        true
    }

    open spec fn from_spec(value: &SampleData) -> Sample {
        sample_of(*value)
    }
}

} // verus!
