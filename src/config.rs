use vstd::prelude::*;

verus! {

/// Why a core configuration was refused.
#[derive(Debug, Clone, Copy, PartialEq, Eq, Structural)]
pub enum ConfigError {
    /// The writeback directory path is empty.
    EmptyWritebackPath,
    /// The two watermarks are equal, so no range is left between them.
    EqualWatermarks,
}

/// The smaller of the two watermarks given at construction.
pub open spec fn normalized_low(low: usize, high: usize) -> usize {
    if low > high { high } else { low }
}

/// The larger of the two watermarks given at construction.
pub open spec fn normalized_high(low: usize, high: usize) -> usize {
    if low > high { low } else { high }
}

/// A validated core configuration: watermarks in bytes and the directory
/// that holds the writeback store.
pub struct CoreConfig {
    pub low_watermark: usize,
    pub high_watermark: usize,
    pub writeback_dir: String,
}

impl CoreConfig {
    pub open spec fn wf(&self) -> bool {
        &&& self.low_watermark < self.high_watermark
        &&& self.writeback_dir@.len() > 0
    }

    /// Builds a configuration, swapping the watermarks when they are given in
    /// the wrong order.
    pub fn new(writeback_dir: String, low: usize, high: usize) -> (r: Result<CoreConfig, ConfigError>)
        ensures
            writeback_dir@.len() == 0 ==> r == Err::<CoreConfig, ConfigError>(ConfigError::EmptyWritebackPath),
            writeback_dir@.len() > 0 && low == high ==> r == Err::<CoreConfig, ConfigError>(ConfigError::EqualWatermarks),
            writeback_dir@.len() > 0 && low != high ==> r is Ok,
            r matches Ok(c) ==> {
                &&& c.wf()
                &&& c.low_watermark == normalized_low(low, high)
                &&& c.high_watermark == normalized_high(low, high)
                &&& c.writeback_dir@ == writeback_dir@
            },
    {
        if writeback_dir.as_str().is_empty() {
            return Err(ConfigError::EmptyWritebackPath);
        }
        let mut lo = low;
        let mut hi = high;
        if lo > hi {
            lo = high;
            hi = low;
        }
        if lo == hi {
            return Err(ConfigError::EqualWatermarks);
        }
        Ok(CoreConfig { low_watermark: lo, high_watermark: hi, writeback_dir })
    }
}

/// Whatever order two distinct watermarks are given in, the normalized low
/// watermark lies strictly below the normalized high one, and together they
/// are the two given values.
pub proof fn lemma_watermarks_ordered(low: usize, high: usize)
    requires
        low != high,
    ensures
        normalized_low(low, high) < normalized_high(low, high),
        normalized_low(low, high) == if low < high { low } else { high },
        normalized_high(low, high) == if low < high { high } else { low },
{
}

} // verus!
