use vstd::prelude::*;

verus! {

/// Parameters of a synthetic test waveform: `length` samples of a sine of
/// amplitude `factor`, phase-shifted by `offset` ticks and raised by
/// `factor` so the wave stays nonnegative.
pub struct WaveGen {
    pub length: u32,
    pub factor: u32,
    pub offset: u32,
}

impl WaveGen {
    /// A generator for the standard test length of ten thousand samples.
    pub fn new(factor: u32, offset: u32) -> (r: WaveGen)
        ensures
            r.length == 10000,
            r.factor == factor,
            r.offset == offset,
    {
        WaveGen { length: 10000, factor, offset }
    }
}

} // verus!
