//! Classification of one raw per-second sample byte as a tri-state bit.

use vstd::prelude::*;
use crate::bitrep::Bit;

verus! {

/// The set bits of `p` form one contiguous run that starts at bit 0.
pub open spec fn is_ones_run(p: u8) -> bool {
    p == 1 || p == 3 || p == 7 || p == 15 || p == 31 || p == 63 || p == 127 || p == 255
}

/// The bit encoded by one raw sample byte: no pulse means a skipped
/// second, a contiguous run from bit 0 carries a value (long runs are
/// ones), anything else is an unclassifiable sample.
pub open spec fn spec_decode_pulse(p: u8) -> Bit {
    if p == 0 {
        Bit::Skipped
    } else if is_ones_run(p) {
        Bit::Value(p > 0xF)
    } else {
        Bit::Unknown
    }
}

/// Decodes one raw sample byte, total over all byte values.
///
/// The sample's set bits stand for consecutive signal-present
/// sub-intervals of one second, earliest interval at bit 0. A pattern
/// that is not a contiguous run from bit 0 is ambiguous; a run longer
/// than four sub-intervals (a value above `0xF`) is a long pulse and
/// decodes to a one.
pub fn decode_pulse(pulse: u8) -> (r: Bit)
    ensures
        r == spec_decode_pulse(pulse),
{
    let w = pulse.wrapping_add(1);
    proof {
        assert(((w & pulse) >= 1) <==> !(pulse == 0 || pulse == 1 || pulse == 3 || pulse == 7
            || pulse == 15 || pulse == 31 || pulse == 63 || pulse == 127 || pulse == 255))
            by (bit_vector)
            requires
                pulse < 255 ==> w == pulse + 1,
                pulse == 255 ==> w == 0,
        ;
    }
    if w & pulse >= 1 {
        Bit::Unknown
    } else if pulse == 0 {
        Bit::Skipped
    } else {
        Bit::Value(pulse > 0xF)
    }
}

} // verus!
