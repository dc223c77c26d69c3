//! A plain memory-mapped serial port: where its registers are, what is
//! written to them and what the bytes read from them mean. The reads and
//! writes themselves are done by the caller.

use vstd::prelude::*;
use vstd::string::StringSliceAdditionalSpecFns;

verus! {

/// Offset of the status register.
pub const UART_STATUS: usize = 0x0;

/// Offset of the data register.
pub const UART_DATA: usize = 0x4;

/// Bit of the status register: clear to send.
pub const UART_STATUS_CTS: u8 = 0x1;

/// Bit of the status register: data ready.
pub const UART_STATUS_DR: u8 = 0x2;

/// One write of a byte to a register.
#[derive(Clone, Copy, Debug, PartialEq, Eq, Structural)]
pub struct RegWrite {
    pub addr: usize,
    pub value: u8,
}

/// The bytes that go to the data register for the bytes `s` of a text: a
/// delete (127) becomes backspace, blank, backspace; every other byte goes as
/// it is.
pub open spec fn echoed(s: Seq<u8>) -> Seq<u8>
    decreases s.len(),
{
    if s.len() == 0 {
        s
    } else if s.last() == 127 {
        echoed(s.drop_last()) + seq![8u8, 32u8, 8u8]
    } else {
        echoed(s.drop_last()).push(s.last())
    }
}

/// The serial port.
#[derive(Debug, Clone, Copy)]
pub struct SerialPort {
    base: usize,
}

impl SerialPort {
    /// Address of the first register.
    pub closed spec fn base(&self) -> usize {
        self.base
    }

    /// The writes that send `bytes` to the data register, in order.
    pub open spec fn writes(&self, bytes: Seq<u8>) -> Seq<RegWrite> {
        bytes.map_values(|b: u8| RegWrite { addr: (self.base() + UART_DATA) as usize, value: b })
    }

    /// A port that is not set up: its registers are taken to start at 0.
    pub fn new() -> (r: Self)
        ensures
            r.base() == 0,
    {
        SerialPort { base: 0 }
    }

    /// Sets the address of the first register.
    pub fn init(&mut self, base: usize)
        ensures
            final(self).base() == base,
    {
        self.base = base;
    }

    /// Address of the status register, if the registers do not wrap around
    /// the end of the address space.
    pub fn status_addr_checked(&self) -> (r: Option<usize>)
        ensures
            r is Some <==> self.base() + UART_DATA <= usize::MAX,
            r is Some ==> r->0 == self.base() + UART_STATUS,
    {
        if self.base <= usize::MAX - UART_DATA {
            Some(self.base + UART_STATUS)
        } else {
            None
        }
    }

    /// Address of the status register.
    pub fn status_addr(&self) -> (r: usize)
        requires
            self.base() + UART_DATA <= usize::MAX,
        ensures
            r == self.base() + UART_STATUS,
    {
        self.base + UART_STATUS
    }

    /// Address of the data register.
    pub fn data_addr(&self) -> (r: usize)
        requires
            self.base() + UART_DATA <= usize::MAX,
        ensures
            r == self.base() + UART_DATA,
    {
        self.base + UART_DATA
    }

    /// Sends a byte without waiting: the write that the caller makes.
    pub fn putchar(&mut self, c: u8) -> (r: RegWrite)
        requires
            old(self).base() + UART_DATA <= usize::MAX,
        ensures
            r == (RegWrite { addr: (old(self).base() + UART_DATA) as usize, value: c }),
            final(self).base() == old(self).base(),
    {
        RegWrite { addr: self.base + UART_DATA, value: c }
    }

    /// One turn of the blocking read. `status` is what the caller has read
    /// from the status register. While its data-ready bit is set the answer is
    /// `None`: the caller reads the status again. Once the bit is clear the
    /// data register is read with `read_data`, and the byte is the answer as a
    /// character, 255 standing for the null character.
    pub fn getchar<F: FnOnce() -> u8>(&mut self, status: u8, read_data: F) -> (r: Option<char>)
        requires
            call_requires(read_data, ()),
        ensures
            final(self).base() == old(self).base(),
            status & UART_STATUS_DR != 0 ==> r is None,
            status & UART_STATUS_DR == 0 ==> exists|c: u8|
                call_ensures(read_data, (), c) && r == Some(
                    if c == 255 {
                        '\0'
                    } else {
                        c as char
                    },
                ),
    {
        if (status & UART_STATUS_DR) == 0 {
            let c = read_data();
            if c == 255 {
                Some('\0')
            } else {
                Some(c as char)
            }
        } else {
            None
        }
    }

    /// The read that does not wait. `status` is what the caller has read from
    /// the status register. With its data-ready bit clear there is nothing to
    /// read; else the data register is read with `read_data` and the byte is
    /// the answer as a character.
    pub fn getchar_option<F: FnOnce() -> u8>(&mut self, status: u8, read_data: F) -> (r: Option<
        char,
    >)
        requires
            call_requires(read_data, ()),
        ensures
            final(self).base() == old(self).base(),
            status & UART_STATUS_DR == 0 ==> r is None,
            status & UART_STATUS_DR != 0 ==> exists|c: u8|
                call_ensures(read_data, (), c) && r == Some(c as char),
    {
        if (status & UART_STATUS_DR) == 0 {
            None
        } else {
            let c = read_data();
            Some(c as char)
        }
    }

    /// Sends a text: the writes that the caller makes, in order. A delete
    /// character rubs out: it goes as backspace, blank, backspace.
    pub fn write_str(&mut self, s: &str) -> (r: Vec<RegWrite>)
        requires
            old(self).base() + UART_DATA <= usize::MAX,
        ensures
            r@ == old(self).writes(echoed(s.spec_bytes())),
            final(self).base() == old(self).base(),
    {
        let bytes = s.as_bytes();
        let mut out: Vec<RegWrite> = Vec::new();
        let mut i: usize = 0;
        while i < bytes.len()
            invariant
                i <= bytes@.len(),
                self.base() == old(self).base(),
                self.base() + UART_DATA <= usize::MAX,
                out@ == self.writes(echoed(bytes@.subrange(0, i as int))),
            decreases bytes@.len() - i,
        {
            proof {
                let next = bytes@.subrange(0, i + 1);
                assert(next.drop_last() == bytes@.subrange(0, i as int));
                assert(next.last() == bytes@[i as int]);
            }
            let c = bytes[i];
            let ghost prefix = echoed(bytes@.subrange(0, i as int));
            if c == 127 {
                let w = self.putchar(8);
                out.push(w);
                let w = self.putchar(32);
                out.push(w);
                let w = self.putchar(8);
                out.push(w);
                assert(out@ == self.writes(prefix + seq![8u8, 32u8, 8u8]));
            } else {
                let w = self.putchar(c);
                out.push(w);
                assert(out@ == self.writes(prefix.push(c)));
            }
            i += 1;
        }
        assert(bytes@.subrange(0, i as int) == bytes@);
        out
    }

    /// Sends a text that has been formatted: the same as `write_str`.
    pub fn putfmt(&mut self, text: &str) -> (r: Vec<RegWrite>)
        requires
            old(self).base() + UART_DATA <= usize::MAX,
        ensures
            r@ == old(self).writes(echoed(text.spec_bytes())),
            final(self).base() == old(self).base(),
    {
        self.write_str(text)
    }

    /// The port needs no lock: this gives a copy to work with.
    pub fn lock(&self) -> (r: SerialPort)
        ensures
            r.base() == self.base(),
    {
        SerialPort { base: self.base }
    }

    /// The port needs no lock: nothing to do.
    pub fn force_unlock(&self) {
    }
}

/// A port whose registers start at `base`.
pub fn init(base: usize) -> (r: SerialPort)
    ensures
        r.base() == base,
{
    let mut port = SerialPort::new();
    port.init(base);
    port
}

} // verus!
