//! The CMSDK UART driver's logic: the bytes a write puts on the line and
//! the transmit-ready test on the state register.
use vstd::prelude::*;
use vstd::string::StringSliceAdditionalSpecFns;

verus! {

/// Control register value that enables the transmitter.
pub const UART_CTRL_TX_ENABLE: u32 = 0b01;

/// State register bit set while the transmit buffer is full.
pub const UART_STATE_TX_FULL: u32 = 0b10;

/// Whether the transmitter takes another byte, given the value of the
/// state register: the transmit-full bit is clear.
pub fn uart_tx_ready(state: u32) -> (ready: bool)
    ensures
        ready <==> (state & UART_STATE_TX_FULL) == 0,
{
    (state & UART_STATE_TX_FULL) == 0
}

/// The bytes that writing `s` sends to the data register, one by one in
/// this order: the UTF-8 encoding of `s`.
pub fn uart_puts(s: &str) -> (bytes: Vec<u8>)
    ensures
        bytes@ == s.spec_bytes(),
{
    let b: &[u8] = s.as_bytes();
    let mut out: Vec<u8> = Vec::new();
    let mut i: usize = 0;
    while i < b.len()
        invariant
            i <= b@.len(),
            b@ == s.spec_bytes(),
            out@ == b@.subrange(0, i as int),
        decreases b@.len() - i,
    {
        out.push(b[i]);
        i = i + 1;
        proof {
            assert(out@ =~= b@.subrange(0, i as int));
        }
    }
    assert(out@ =~= b@);
    out
}

/// The formatted-output sink of the console: every string written goes
/// out on the UART, and a write never fails.
pub struct UartWriter;

impl UartWriter {
    /// Writes `s`: the bytes returned are those that go out, the UTF-8
    /// encoding of `s`.
    pub fn write_str(&mut self, s: &str) -> (bytes: Vec<u8>)
        ensures
            bytes@ == s.spec_bytes(),
    {
        uart_puts(s)
    }
}

} // verus!
