use vstd::prelude::*;

verus! {

/// A fixed-width numeric sample kind with a silence value.
pub trait SampleType: Copy + Default {
    /// The value written where no buffered sample is left.
    spec fn spec_silence() -> Self;

    fn silence() -> (r: Self)
        ensures
            r == Self::spec_silence(),
    ;
}

impl SampleType for u8 {
    open spec fn spec_silence() -> u8 {
        0
    }

    fn silence() -> (r: u8) {
        0
    }
}

impl SampleType for i16 {
    open spec fn spec_silence() -> i16 {
        0
    }

    fn silence() -> (r: i16) {
        0
    }
}

} // verus!
