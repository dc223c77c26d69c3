//! The Intel PRO/1000 network adapter, as far as it is a matter of numbers:
//! which registers are programmed with what at start-up, which descriptor of
//! a ring is next, and when a ring has room. The device memory is read and
//! written by the caller.

use vstd::prelude::*;

verus! {

/// Index of the device status register.
pub const E1000_STATUS: usize = 0x0008 / 4;

/// Index of the interrupt cause register.
pub const E1000_ICR: usize = 0x00C0 / 4;

/// Index of the interrupt mask set register.
pub const E1000_IMS: usize = 0x00D0 / 4;

/// Index of the interrupt mask clear register.
pub const E1000_IMC: usize = 0x00D8 / 4;

/// Index of the receive control register.
pub const E1000_RCTL: usize = 0x0100 / 4;

/// Index of the transmit control register.
pub const E1000_TCTL: usize = 0x0400 / 4;

/// Index of the transmit inter-packet gap register.
pub const E1000_TIPG: usize = 0x0410 / 4;

/// Index of the low half of the receive descriptor base.
pub const E1000_RDBAL: usize = 0x2800 / 4;

/// Index of the high half of the receive descriptor base.
pub const E1000_RDBAH: usize = 0x2804 / 4;

/// Index of the receive descriptor length register.
pub const E1000_RDLEN: usize = 0x2808 / 4;

/// Index of the receive descriptor head.
pub const E1000_RDH: usize = 0x2810 / 4;

/// Index of the receive descriptor tail.
pub const E1000_RDT: usize = 0x2818 / 4;

/// Index of the low half of the transmit descriptor base.
pub const E1000_TDBAL: usize = 0x3800 / 4;

/// Index of the high half of the transmit descriptor base.
pub const E1000_TDBAH: usize = 0x3804 / 4;

/// Index of the transmit descriptor length register.
pub const E1000_TDLEN: usize = 0x3808 / 4;

/// Index of the transmit descriptor head.
pub const E1000_TDH: usize = 0x3810 / 4;

/// Index of the transmit descriptor tail.
pub const E1000_TDT: usize = 0x3818 / 4;

/// Index of the first register of the multicast table.
pub const E1000_MTA: usize = 0x5200 / 4;

/// Index of the low half of the receive address.
pub const E1000_RAL: usize = 0x5400 / 4;

/// Index of the high half of the receive address.
pub const E1000_RAH: usize = 0x5404 / 4;

/// Size of a page of memory, and so of a descriptor ring, in bytes.
pub const PAGE_SIZE: usize = 4096;

/// Size of a descriptor in bytes.
pub const DESCRIPTOR_SIZE: usize = 16;

/// Number of descriptors in a ring.
pub const QUEUE_SIZE: usize = PAGE_SIZE / DESCRIPTOR_SIZE;

/// Largest frame the driver passes, in bytes.
pub const MAX_TRANSMISSION_UNIT: usize = 1536;

/// Most frames the driver passes in a burst.
pub const MAX_BURST_SIZE: usize = 64;

/// Transmit control: enable, pad short packets, collision threshold 0x10,
/// collision distance 0x40.
pub const TCTL_VALUE: u32 = (1 << 1) | (1 << 3) | (0x10 << 4) | (0x40 << 12);

/// Inter-packet gaps: 0xa, 0x8 and 0xc.
pub const TIPG_VALUE: u32 = 0xa | (0x8 << 10) | (0xc << 20);

/// Receive control: enable, accept broadcast, buffers of 4096 bytes, strip the
/// checksum.
pub const RCTL_VALUE: u32 = (1 << 1) | (1 << 15) | (3 << 16) | (1 << 25) | (1 << 26);

/// Bit of the high receive address register: the address is valid.
pub const RAH_VALID: u32 = 1 << 31;

/// Interrupt mask: receive timer.
pub const IMS_RXT0: u32 = 1 << 7;

/// Command of a send descriptor: report status, insert checksum, end of
/// packet.
pub const SEND_COMMAND: u8 = (1 << 3) | (1 << 1) | (1 << 0);

/// One step of programming the device.
#[derive(Clone, Copy, Debug, PartialEq, Eq, Structural)]
pub enum RegOp {
    /// Write the value to the register with the index.
    Write(usize, u32),
    /// Read the register with the index and write back what was read, which
    /// clears the causes that were pending.
    Acknowledge(usize),
}

/// An ethernet address.
#[derive(Clone, Copy, Debug, PartialEq, Eq, Structural)]
pub struct MacAddress(pub u8, pub u8, pub u8, pub u8, pub u8, pub u8);

/// The address that the driver gives the adapter.
pub fn default_mac() -> (r: MacAddress)
    ensures
        r == MacAddress(0x54, 0x51, 0x9F, 0x71, 0xC0, 0x3C),
{
    MacAddress(0x54, 0x51, 0x9F, 0x71, 0xC0, 0x3C)
}

/// Low half of the receive address: the first four bytes, first byte lowest.
pub open spec fn receive_address_low(mac: MacAddress) -> u32 {
    (mac.0 as u32) | ((mac.1 as u32) << 8) | ((mac.2 as u32) << 16) | ((mac.3 as u32) << 24)
}

/// High half of the receive address: the last two bytes and the valid bit.
pub open spec fn receive_address_high(mac: MacAddress) -> u32 {
    (mac.4 as u32) | ((mac.5 as u32) << 8) | RAH_VALID
}

/// The steps that set up the transmit side.
pub open spec fn transmit_setup(send_page_pa: u64) -> Seq<RegOp> {
    seq![
        RegOp::Write(E1000_TDBAL, send_page_pa as u32),
        RegOp::Write(E1000_TDBAH, (send_page_pa >> 32) as u32),
        RegOp::Write(E1000_TDLEN, PAGE_SIZE as u32),
        RegOp::Write(E1000_TDH, 0),
        RegOp::Write(E1000_TDT, 0),
        RegOp::Write(E1000_TCTL, TCTL_VALUE),
        RegOp::Write(E1000_TIPG, TIPG_VALUE),
    ]
}

/// The steps that clear the multicast table.
pub open spec fn multicast_clear() -> Seq<RegOp> {
    Seq::new((E1000_RAL - E1000_MTA) as nat, |i: int| RegOp::Write((E1000_MTA + i) as usize, 0))
}

/// The steps that set up the receive side.
pub open spec fn receive_setup(recv_page_pa: u64, mac: MacAddress) -> Seq<RegOp> {
    seq![
        RegOp::Write(E1000_RAL, receive_address_low(mac)),
        RegOp::Write(E1000_RAH, receive_address_high(mac)),
    ] + multicast_clear() + seq![
        RegOp::Write(E1000_RDBAL, recv_page_pa as u32),
        RegOp::Write(E1000_RDBAH, (recv_page_pa >> 32) as u32),
        RegOp::Write(E1000_RDLEN, PAGE_SIZE as u32),
        RegOp::Write(E1000_RDH, 0),
        RegOp::Write(E1000_RDT, (QUEUE_SIZE - 1) as u32),
        RegOp::Write(E1000_RCTL, RCTL_VALUE),
    ]
}

/// The steps that turn the interrupt on.
pub open spec fn interrupt_setup() -> Seq<RegOp> {
    seq![
        RegOp::Acknowledge(E1000_ICR),
        RegOp::Write(E1000_IMS, IMS_RXT0),
        RegOp::Acknowledge(E1000_ICR),
    ]
}

/// What the driver keeps of an adapter.
pub struct E1000 {
    /// Address of the registers.
    pub header: usize,
    /// Size of the register area in bytes.
    pub size: usize,
    pub mac: MacAddress,
    /// Address of the ring of send descriptors.
    pub send_page: usize,
    /// Addresses of the send buffers, one for each descriptor.
    pub send_buffers: Vec<usize>,
    /// Address of the ring of receive descriptors.
    pub recv_page: usize,
    /// Addresses of the receive buffers, one for each descriptor.
    pub recv_buffers: Vec<usize>,
    /// The send ring has not wrapped around yet: its descriptors are free
    /// whatever their status says.
    pub first_trans: bool,
}

/// Sets up an adapter whose registers are at `header`. The caller has got a
/// page for each ring and a page for each buffer; `send_page_pa` and
/// `recv_page_pa` are the physical addresses of the rings. The result is the
/// state of the driver and the steps that program the device, in order:
/// transmit side, receive side with the adapter's address and an empty
/// multicast table, interrupt. The caller stores the physical address of each
/// buffer in its descriptor before the receive side is enabled.
pub fn e1000_init(
    header: usize,
    size: usize,
    send_page: usize,
    recv_page: usize,
    send_page_pa: u64,
    recv_page_pa: u64,
    send_buffers: Vec<usize>,
    recv_buffers: Vec<usize>,
) -> (r: (E1000, Vec<RegOp>))
    requires
        send_buffers@.len() == QUEUE_SIZE,
        recv_buffers@.len() == QUEUE_SIZE,
    ensures
        r.0.header == header,
        r.0.size == size,
        r.0.mac == MacAddress(0x54, 0x51, 0x9F, 0x71, 0xC0, 0x3C),
        r.0.send_page == send_page,
        r.0.recv_page == recv_page,
        r.0.send_buffers == send_buffers,
        r.0.recv_buffers == recv_buffers,
        r.0.first_trans,
        r.1@ == transmit_setup(send_page_pa) + receive_setup(recv_page_pa, r.0.mac)
            + interrupt_setup(),
{
    let mac = default_mac();
    let driver = E1000 {
        header,
        size,
        mac,
        send_page,
        send_buffers,
        recv_page,
        recv_buffers,
        first_trans: true,
    };
    let mut program: Vec<RegOp> = Vec::new();
    program.push(RegOp::Write(E1000_TDBAL, #[verifier::truncate] (send_page_pa as u32)));
    program.push(RegOp::Write(E1000_TDBAH, #[verifier::truncate] ((send_page_pa >> 32) as u32)));
    program.push(RegOp::Write(E1000_TDLEN, PAGE_SIZE as u32));
    program.push(RegOp::Write(E1000_TDH, 0));
    program.push(RegOp::Write(E1000_TDT, 0));
    program.push(RegOp::Write(E1000_TCTL, TCTL_VALUE));
    program.push(RegOp::Write(E1000_TIPG, TIPG_VALUE));
    assert(program@ == transmit_setup(send_page_pa));
    let ral = (mac.0 as u32) | ((mac.1 as u32) << 8) | ((mac.2 as u32) << 16) | ((mac.3 as u32)
        << 24);
    let rah = (mac.4 as u32) | ((mac.5 as u32) << 8) | RAH_VALID;
    program.push(RegOp::Write(E1000_RAL, ral));
    program.push(RegOp::Write(E1000_RAH, rah));
    let ghost head = program@;
    let mut i: usize = E1000_MTA;
    while i < E1000_RAL
        invariant
            E1000_MTA <= i <= E1000_RAL,
            program@.len() == head.len() + (i - E1000_MTA),
            forall|k: int| 0 <= k < head.len() ==> program@[k] == head[k],
            forall|k: int|
                head.len() <= k < program@.len() ==> #[trigger] program@[k] == RegOp::Write(
                    (E1000_MTA + (k - head.len())) as usize,
                    0,
                ),
        decreases E1000_RAL - i,
    {
        program.push(RegOp::Write(i, 0));
        i += 1;
    }
    assert(program@ == head + multicast_clear());
    program.push(RegOp::Write(E1000_RDBAL, #[verifier::truncate] (recv_page_pa as u32)));
    program.push(RegOp::Write(E1000_RDBAH, #[verifier::truncate] ((recv_page_pa >> 32) as u32)));
    program.push(RegOp::Write(E1000_RDLEN, PAGE_SIZE as u32));
    program.push(RegOp::Write(E1000_RDH, 0));
    program.push(RegOp::Write(E1000_RDT, (QUEUE_SIZE - 1) as u32));
    program.push(RegOp::Write(E1000_RCTL, RCTL_VALUE));
    assert(program@ == transmit_setup(send_page_pa) + receive_setup(recv_page_pa, mac));
    program.push(RegOp::Acknowledge(E1000_ICR));
    program.push(RegOp::Write(E1000_IMS, IMS_RXT0));
    program.push(RegOp::Acknowledge(E1000_ICR));
    assert(program@ == transmit_setup(send_page_pa) + receive_setup(recv_page_pa, mac)
        + interrupt_setup());
    (driver, program)
}

/// What the interrupt handler does about an interrupt.
#[derive(Clone, Copy, Debug, PartialEq, Eq, Structural)]
pub enum InterruptAction {
    /// The interrupt is for another device.
    NotOurs,
    /// The adapter has nothing to report.
    Nothing,
    /// The adapter has reported the causes given: write them back to the
    /// interrupt cause register to clear them, then let the network stack
    /// work.
    Poll(u32),
}

/// What the driver knows of the interface beside the adapter.
#[derive(Clone, Copy, Debug, PartialEq, Eq, Structural)]
pub struct E1000Interface {
    /// The interrupt line of the adapter, if it is known.
    pub irq: Option<u32>,
}

impl E1000Interface {
    /// Decides what to do about interrupt `irq`. An interrupt on another line
    /// than the adapter's is not looked at. Else `read_icr` reads the interrupt
    /// cause register, and the adapter is served if any cause is set.
    pub fn try_handle_interrupt<F: FnOnce() -> u32>(&self, irq: Option<u32>, read_icr: F) -> (r:
        InterruptAction)
        requires
            call_requires(read_icr, ()),
        ensures
            irq is Some && self.irq is Some && irq != self.irq ==> r == InterruptAction::NotOurs,
            !(irq is Some && self.irq is Some && irq != self.irq) ==> exists|icr: u32|
                call_ensures(read_icr, (), icr) && r == (if icr != 0 {
                    InterruptAction::Poll(icr)
                } else {
                    InterruptAction::Nothing
                }),
    {
        let other = match (irq, self.irq) {
            (Some(a), Some(b)) => a != b,
            _ => false,
        };
        if other {
            return InterruptAction::NotOurs;
        }
        let icr = read_icr();
        if icr != 0 {
            InterruptAction::Poll(icr)
        } else {
            InterruptAction::Nothing
        }
    }
}

/// A send descriptor is free: the ring has not wrapped yet, or the adapter has
/// marked the descriptor as done.
pub open spec fn spec_transmit_avail(first_trans: bool, status: u8) -> bool {
    first_trans || status & 1 != 0
}

/// What `consume` does to the send ring.
#[derive(Clone, Copy, Debug, PartialEq, Eq, Structural)]
pub struct SendPlan {
    /// The descriptor to fill, whose buffer gets the frame.
    pub index: usize,
    /// Length for the descriptor: the frame and its checksum.
    pub len: u16,
    /// Command for the descriptor.
    pub cmd: u8,
    /// Status for the descriptor.
    pub status: u8,
    /// New value of the tail register.
    pub tdt: u32,
}

/// What `receive` does to the receive ring.
#[derive(Clone, Copy, Debug, PartialEq, Eq, Structural)]
pub struct ReceivePlan {
    /// The descriptor whose buffer holds the frame.
    pub index: usize,
    /// New status for the descriptor: no longer done.
    pub status: u16,
    /// New value of the tail register.
    pub rdt: u32,
}

impl E1000 {
    /// Index of the send descriptor at the tail `tdt`.
    pub fn send_index(tdt: u32) -> (r: usize)
        ensures
            r == tdt as usize % QUEUE_SIZE,
    {
        (tdt as usize) % QUEUE_SIZE
    }

    /// Index of the receive descriptor after the tail `rdt`.
    pub fn recv_index(rdt: u32) -> (r: usize)
        ensures
            r == (rdt + 1) % (QUEUE_SIZE as int),
    {
        ((rdt as u64 + 1) % (QUEUE_SIZE as u64)) as usize
    }

    /// Is the send descriptor with the given status free?
    pub fn transmit_avail(&self, status: u8) -> (r: bool)
        ensures
            r == spec_transmit_avail(self.first_trans, status),
    {
        self.first_trans || status & 1 != 0
    }

    /// Can a frame be sent? `tdt` is the tail of the send ring; `status_of`
    /// reads the status of a send descriptor.
    pub fn transmit<F: FnOnce(usize) -> u8>(&self, tdt: u32, status_of: F) -> (r: bool)
        requires
            forall|i: usize| call_requires(status_of, (i,)),
        ensures
            exists|status: u8|
                call_ensures(status_of, (tdt as usize % QUEUE_SIZE,), status) && r
                    == spec_transmit_avail(self.first_trans, status),
    {
        let status = status_of(Self::send_index(tdt));
        self.transmit_avail(status)
    }

    /// Takes a frame that has come in, if there is one and a frame can be sent
    /// in answer. `rdt` is the tail of the receive ring; `send_status` and
    /// `recv_status` are the status of the send descriptor at the tail of the
    /// send ring and of the receive descriptor after `rdt`. The plan says
    /// which buffer holds the frame and how the ring moves on.
    pub fn receive(&self, rdt: u32, send_status: u8, recv_status: u16) -> (r: Option<ReceivePlan>)
        ensures
            r == (if spec_transmit_avail(self.first_trans, send_status) && recv_status & 1
                != 0 {
                Some(
                    ReceivePlan {
                        index: ((rdt + 1) % (QUEUE_SIZE as int)) as usize,
                        status: recv_status & !1u16,
                        rdt: ((rdt + 1) % (QUEUE_SIZE as int)) as u32,
                    },
                )
            } else {
                None
            }),
    {
        let transmit_avail = self.transmit_avail(send_status);
        let receive_avail = recv_status & 1 != 0;
        if transmit_avail && receive_avail {
            Some(
                ReceivePlan {
                    index: Self::recv_index(rdt),
                    status: recv_status & !1u16,
                    rdt: ((rdt as u64 + 1) % (QUEUE_SIZE as u64)) as u32,
                },
            )
        } else {
            None
        }
    }

    /// Puts a frame of `len` bytes on the send ring, whose tail is `tdt` and
    /// whose descriptor there has the given status and is free. The plan says
    /// which descriptor to fill with what and where the tail moves. When the
    /// tail comes back to the start the ring has wrapped.
    pub fn consume(&mut self, tdt: u32, status: u8, len: usize) -> (r: SendPlan)
        requires
            spec_transmit_avail(old(self).first_trans, status),
            len + 4 <= u16::MAX,
        ensures
            r == (SendPlan {
                index: tdt as usize % QUEUE_SIZE,
                len: (len + 4) as u16,
                cmd: SEND_COMMAND,
                status: 0,
                tdt: ((tdt + 1) % (QUEUE_SIZE as int)) as u32,
            }),
            final(self).first_trans == (old(self).first_trans && r.tdt != 0),
            final(self).header == old(self).header,
            final(self).size == old(self).size,
            final(self).mac == old(self).mac,
            final(self).send_page == old(self).send_page,
            final(self).recv_page == old(self).recv_page,
            final(self).send_buffers == old(self).send_buffers,
            final(self).recv_buffers == old(self).recv_buffers,
    {
        let next = ((tdt as u64 + 1) % (QUEUE_SIZE as u64)) as u32;
        if next == 0 {
            self.first_trans = false;
        }
        SendPlan {
            index: Self::send_index(tdt),
            len: (len + 4) as u16,
            cmd: SEND_COMMAND,
            status: 0,
            tdt: next,
        }
    }

    /// The largest frame and the longest burst that the driver passes.
    pub fn capabilities(&self) -> (r: (usize, Option<usize>))
        ensures
            r == (MAX_TRANSMISSION_UNIT, Some(MAX_BURST_SIZE)),
    {
        (MAX_TRANSMISSION_UNIT, Some(MAX_BURST_SIZE))
    }
}

} // verus!
