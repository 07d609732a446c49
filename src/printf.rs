//! Formatted kernel output goes out byte by byte through the console.
use vstd::prelude::*;
use vstd::string::StringSliceAdditionalSpecFns;

use crate::console::{cons_putc, putc_bytes};

verus! {

/// What the console sends for the bytes `bytes`.
pub open spec fn echo_of(bytes: Seq<u8>) -> Seq<u8>
    decreases bytes.len(),
{
    if bytes.len() == 0 {
        Seq::empty()
    } else {
        echo_of(bytes.drop_last()) + putc_bytes(bytes.last())
    }
}

/// The sink of kernel output.
pub struct Writer;

impl Writer {
    /// Sends the bytes of `s` to the console, appending what goes out to
    /// `out`.
    pub fn write_str(&mut self, out: &mut Vec<u8>, s: &str)
        ensures
            final(out)@ == old(out)@ + echo_of(s.spec_bytes()),
    {
        let bytes = s.as_bytes();
        let mut i: usize = 0;
        while i < bytes.len()
            invariant
                bytes@ == s.spec_bytes(),
                0 <= i <= bytes@.len(),
                out@ == old(out)@ + echo_of(bytes@.subrange(0, i as int)),
            decreases bytes@.len() - i,
        {
            proof {
                assert(bytes@.subrange(0, i + 1).drop_last() =~= bytes@.subrange(0, i as int));
            }
            cons_putc(out, bytes[i]);
            assert(out@ =~= old(out)@ + echo_of(bytes@.subrange(0, i + 1)));
            i = i + 1;
        }
        assert(bytes@.subrange(0, bytes@.len() as int) =~= bytes@);
    }
}

} // verus!
