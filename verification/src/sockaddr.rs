//! Socket addresses as user programs lay them out in memory, and the
//! endpoints they stand for.

use crate::errno::SysError;
use vstd::prelude::*;

verus! {

/// Address family: unspecified.
pub const AF_UNSPEC: u16 = 0;

/// Address family: Unix domain sockets.
pub const AF_UNIX: u16 = 1;

/// Address family: internet protocol.
pub const AF_INET: u16 = 2;

/// Address family: netlink.
pub const AF_NETLINK: u16 = 16;

/// Address family: packet.
pub const AF_PACKET: u16 = 17;

/// Size of an internet socket address.
pub const SOCKADDR_IN_LEN: usize = 16;

/// Size of a link-level socket address.
pub const SOCKADDR_LL_LEN: usize = 20;

/// Size of a netlink socket address.
pub const SOCKADDR_NL_LEN: usize = 12;

/// An internet address.
#[derive(Clone, Copy, Debug, PartialEq, Eq, Structural)]
pub enum IpAddress {
    /// No address.
    Unspecified,
    /// The four bytes of a version 4 address, first byte first.
    Ipv4(u8, u8, u8, u8),
}

/// What a socket address names.
#[derive(Clone, Copy, Debug, PartialEq, Eq, Structural)]
pub enum Endpoint {
    /// An internet address and a port.
    Ip(IpAddress, u16),
    /// A network interface, by its index.
    LinkLevel(usize),
    /// A netlink port and its multicast groups.
    Netlink(u32, u32),
}

/// The 16-bit number whose low byte is `b0`.
pub open spec fn le16(b0: u8, b1: u8) -> u16 {
    (b0 + 256 * b1) as u16
}

/// The 16-bit number whose high byte is `b0`.
pub open spec fn be16(b0: u8, b1: u8) -> u16 {
    (256 * b0 + b1) as u16
}

/// The 32-bit number whose lowest byte is `b0`.
pub open spec fn le32(b0: u8, b1: u8, b2: u8, b3: u8) -> u32 {
    (b0 + 256 * b1 + 65536 * b2 + 16777216 * b3) as u32
}

/// What the bytes `b` of a socket address mean, or why they mean nothing.
pub open spec fn parsed(b: Seq<u8>) -> Result<Endpoint, SysError> {
    if b.len() < 2 {
        Err(SysError::EINVAL)
    } else {
        let family = le16(b[0], b[1]);
        if family == AF_INET {
            if b.len() < SOCKADDR_IN_LEN {
                Err(SysError::EINVAL)
            } else {
                Ok(Endpoint::Ip(IpAddress::Ipv4(b[4], b[5], b[6], b[7]), be16(b[2], b[3])))
            }
        } else if family == AF_PACKET {
            if b.len() < SOCKADDR_LL_LEN {
                Err(SysError::EINVAL)
            } else {
                Ok(Endpoint::LinkLevel(le32(b[4], b[5], b[6], b[7]) as usize))
            }
        } else if family == AF_NETLINK {
            if b.len() < SOCKADDR_NL_LEN {
                Err(SysError::EINVAL)
            } else {
                Ok(Endpoint::Netlink(le32(b[4], b[5], b[6], b[7]), le32(b[8], b[9], b[10], b[11])))
            }
        } else {
            Err(SysError::EINVAL)
        }
    }
}

fn read_le16(b: &Vec<u8>, at: usize) -> (r: u16)
    requires
        at + 2 <= b.len(),
    ensures
        r == le16(b@[at as int], b@[at + 1]),
{
    b[at] as u16 + 256 * (b[at + 1] as u16)
}

fn read_be16(b: &Vec<u8>, at: usize) -> (r: u16)
    requires
        at + 2 <= b.len(),
    ensures
        r == be16(b@[at as int], b@[at + 1]),
{
    256 * (b[at] as u16) + b[at + 1] as u16
}

fn read_le32(b: &Vec<u8>, at: usize) -> (r: u32)
    requires
        at + 4 <= b.len(),
    ensures
        r == le32(b@[at as int], b@[at + 1], b@[at + 2], b@[at + 3]),
{
    b[at] as u32 + 256 * (b[at + 1] as u32) + 65536 * (b[at + 2] as u32) + 16777216 * (b[at
        + 3] as u32)
}

/// Turns the socket address of `len` bytes that a user program passed into an
/// endpoint. An address of less than two bytes is refused before the memory
/// is touched. Then `load` checks the memory and copies the `len` bytes; an
/// error there is returned as it is. The first two bytes name the family;
/// internet, packet and netlink addresses are understood if they have their
/// full length, everything else is refused with `EINVAL`.
pub fn sockaddr_to_endpoint<F: FnOnce() -> Result<Vec<u8>, SysError>>(len: usize, load: F) -> (r:
    Result<Endpoint, SysError>)
    requires
        call_requires(load, ()),
        forall|bytes: Vec<u8>| call_ensures(load, (), Ok(bytes)) ==> bytes@.len() == len,
    ensures
        len < 2 ==> r == Err::<Endpoint, SysError>(SysError::EINVAL),
        len >= 2 ==> exists|loaded: Result<Vec<u8>, SysError>|
            call_ensures(load, (), loaded) && match loaded {
                Ok(bytes) => r == parsed(bytes@),
                Err(e) => r == Err::<Endpoint, SysError>(e),
            },
{
    if len < 2 {
        return Err(SysError::EINVAL);
    }
    let bytes = match load() {
        Ok(bytes) => bytes,
        Err(e) => {
            return Err(e);
        },
    };
    let family = read_le16(&bytes, 0);
    if family == AF_INET {
        if len < SOCKADDR_IN_LEN {
            return Err(SysError::EINVAL);
        }
        let port = read_be16(&bytes, 2);
        Ok(Endpoint::Ip(IpAddress::Ipv4(bytes[4], bytes[5], bytes[6], bytes[7]), port))
    } else if family == AF_PACKET {
        if len < SOCKADDR_LL_LEN {
            return Err(SysError::EINVAL);
        }
        Ok(Endpoint::LinkLevel(read_le32(&bytes, 4) as usize))
    } else if family == AF_NETLINK {
        if len < SOCKADDR_NL_LEN {
            return Err(SysError::EINVAL);
        }
        Ok(Endpoint::Netlink(read_le32(&bytes, 4), read_le32(&bytes, 8)))
    } else {
        Err(SysError::EINVAL)
    }
}

/// A socket address in the layout of user programs: the family and the bytes
/// that follow it, as long as the address of that family is.
pub struct SockAddr {
    bytes: Vec<u8>,
}

/// The bytes of the socket address of `endpoint`.
pub open spec fn encoded(endpoint: Endpoint) -> Seq<u8> {
    match endpoint {
        Endpoint::Ip(IpAddress::Ipv4(a, b, c, d), port) => seq![
            AF_INET as u8,
            0u8,
            (port / 256) as u8,
            (port % 256) as u8,
            a,
            b,
            c,
            d,
            0u8,
            0u8,
            0u8,
            0u8,
            0u8,
            0u8,
            0u8,
            0u8,
        ],
        Endpoint::Ip(IpAddress::Unspecified, _) => Seq::new(16, |i: int| 0u8),
        Endpoint::LinkLevel(index) => seq![
            AF_PACKET as u8,
            0u8,
            0u8,
            0u8,
            (index as u32 % 256) as u8,
            (index as u32 / 256 % 256) as u8,
            (index as u32 / 65536 % 256) as u8,
            (index as u32 / 16777216 % 256) as u8,
            0u8,
            0u8,
            0u8,
            0u8,
            0u8,
            0u8,
            0u8,
            0u8,
            0u8,
            0u8,
            0u8,
            0u8,
        ],
        Endpoint::Netlink(port_id, groups) => seq![
            AF_NETLINK as u8,
            0u8,
            0u8,
            0u8,
            (port_id % 256) as u8,
            (port_id / 256 % 256) as u8,
            (port_id / 65536 % 256) as u8,
            (port_id / 16777216 % 256) as u8,
            (groups % 256) as u8,
            (groups / 256 % 256) as u8,
            (groups / 65536 % 256) as u8,
            (groups / 16777216 % 256) as u8,
        ],
    }
}

/// Number of bytes of a socket address of `family` that are handed to a user
/// program, or `None` for a family that is not handed out.
pub open spec fn full_len(family: u16) -> Option<usize> {
    if family == AF_INET {
        Some(SOCKADDR_IN_LEN)
    } else if family == AF_PACKET {
        Some(SOCKADDR_LL_LEN)
    } else if family == AF_NETLINK {
        Some(SOCKADDR_NL_LEN)
    } else {
        None
    }
}

/// What `write_to` asks the caller to store.
#[derive(Debug, PartialEq, Eq)]
pub struct SockAddrWrite {
    /// The bytes that go to the start of the user's address buffer.
    pub bytes: Vec<u8>,
    /// The number that goes to the user's length word.
    pub addr_len: u32,
}

/// Number of bytes of the address `addr` that fit a buffer of `max` bytes.
pub open spec fn written_len(max: u32, addr: Seq<u8>) -> usize {
    let full = full_len(le16(addr[0], addr[1]))->0;
    if max < full {
        max as usize
    } else {
        full
    }
}

/// `r` hands a user with a buffer of `max` bytes as much of the address
/// `addr` as fits, and the full length of the address.
pub open spec fn hands_out(r: Result<Option<SockAddrWrite>, SysError>, max: u32, addr: Seq<u8>) -> bool {
    &&& r is Ok
    &&& r->Ok_0 is Some
    &&& r->Ok_0->0.bytes@ == addr.subrange(0, written_len(max, addr) as int)
    &&& r->Ok_0->0.addr_len == full_len(le16(addr[0], addr[1]))->0
}

fn push_le32(bytes: &mut Vec<u8>, v: u32)
    ensures
        final(bytes)@ == old(bytes)@ + seq![
            (v % 256) as u8,
            (v / 256 % 256) as u8,
            (v / 65536 % 256) as u8,
            (v / 16777216 % 256) as u8,
        ],
{
    bytes.push((v % 256) as u8);
    bytes.push((v / 256 % 256) as u8);
    bytes.push((v / 65536 % 256) as u8);
    bytes.push((v / 16777216 % 256) as u8);
}

fn push_zeros(bytes: &mut Vec<u8>, n: usize)
    ensures
        final(bytes)@ == old(bytes)@ + Seq::new(n as nat, |i: int| 0u8),
{
    let mut i: usize = 0;
    while i < n
        invariant
            i <= n,
            bytes@ == old(bytes)@ + Seq::new(i as nat, |k: int| 0u8),
        decreases n - i,
    {
        bytes.push(0);
        i += 1;
    }
}

impl SockAddr {
    /// The address holds at least its family, and all the bytes that are
    /// handed out for that family.
    #[verifier::type_invariant]
    spec fn complete(&self) -> bool {
        &&& self.bytes@.len() >= 2
        &&& full_len(le16(self.bytes@[0], self.bytes@[1])) matches Some(n) ==> n
            <= self.bytes@.len()
    }

    /// The bytes of the address.
    pub closed spec fn view(&self) -> Seq<u8> {
        self.bytes@
    }

    /// The socket address of `endpoint`. The index of a network interface is
    /// cut to 32 bits.
    pub fn from(endpoint: Endpoint) -> (r: Self)
        ensures
            r@ == encoded(endpoint),
    {
        let mut bytes: Vec<u8> = Vec::new();
        match endpoint {
            Endpoint::Ip(IpAddress::Ipv4(a, b, c, d), port) => {
                bytes.push(AF_INET as u8);
                bytes.push(0);
                bytes.push((port / 256) as u8);
                bytes.push((port % 256) as u8);
                bytes.push(a);
                bytes.push(b);
                bytes.push(c);
                bytes.push(d);
                push_zeros(&mut bytes, 8);
            },
            Endpoint::Ip(IpAddress::Unspecified, _) => {
                push_zeros(&mut bytes, 16);
            },
            Endpoint::LinkLevel(index) => {
                bytes.push(AF_PACKET as u8);
                bytes.push(0);
                bytes.push(0);
                bytes.push(0);
                push_le32(&mut bytes, #[verifier::truncate] (index as u32));
                push_zeros(&mut bytes, 12);
            },
            Endpoint::Netlink(port_id, groups) => {
                bytes.push(AF_NETLINK as u8);
                bytes.push(0);
                bytes.push(0);
                bytes.push(0);
                push_le32(&mut bytes, port_id);
                push_le32(&mut bytes, groups);
            },
        }
        SockAddr { bytes }
    }

    /// The address family.
    pub fn family(&self) -> (r: u16)
        ensures
            self@.len() >= 2,
            r == le16(self@[0], self@[1]),
    {
        proof {
            use_type_invariant(self);
        }
        read_le16(&self.bytes, 0)
    }

    /// Hands the address to a user program that gave a buffer and a word with
    /// the length of the buffer. With a null buffer nothing is done. Else
    /// `addr_len` is what the check and the read of the length word gave; an
    /// error there is returned as it is. Addresses of the internet, packet and
    /// netlink families are handed out, others refused with `EINVAL`. The
    /// user gets as much of the address as the buffer holds, after `check`
    /// has found that many bytes of the buffer writable, and the full length
    /// of the address in the length word.
    pub fn write_to<F: FnOnce(usize) -> Result<(), SysError>>(
        self,
        addr_is_null: bool,
        addr_len: Result<u32, SysError>,
        check: F,
    ) -> (r: Result<Option<SockAddrWrite>, SysError>)
        requires
            forall|n: usize| call_requires(check, (n,)),
        ensures
            addr_is_null ==> r == Ok::<Option<SockAddrWrite>, SysError>(None),
            !addr_is_null && addr_len is Err ==> r == Err::<Option<SockAddrWrite>, SysError>(
                addr_len->Err_0,
            ),
            !addr_is_null && addr_len is Ok && full_len(le16(self@[0], self@[1])) is None ==> r
                == Err::<Option<SockAddrWrite>, SysError>(SysError::EINVAL),
            !addr_is_null && addr_len is Ok && full_len(le16(self@[0], self@[1])) is Some ==> {
                ||| written_len(addr_len->Ok_0, self@) == 0 && hands_out(
                    r,
                    addr_len->Ok_0,
                    self@,
                )
                ||| written_len(addr_len->Ok_0, self@) > 0 && exists|checked: Result<(), SysError>|
                    call_ensures(check, (written_len(addr_len->Ok_0, self@),), checked) && (
                    checked is Ok ==> hands_out(r, addr_len->Ok_0, self@)) && (checked
                        is Err ==> r == Err::<Option<SockAddrWrite>, SysError>(checked->Err_0))
            },
    {
        proof {
            use_type_invariant(&self);
        }
        if addr_is_null {
            return Ok(None);
        }
        let max_addr_len = match addr_len {
            Ok(n) => n,
            Err(e) => {
                return Err(e);
            },
        };
        let family = self.family();
        let full: usize = if family == AF_INET {
            SOCKADDR_IN_LEN
        } else if family == AF_PACKET {
            SOCKADDR_LL_LEN
        } else if family == AF_NETLINK {
            SOCKADDR_NL_LEN
        } else {
            return Err(SysError::EINVAL);
        };
        let written: usize = if (max_addr_len as usize) < full {
            max_addr_len as usize
        } else {
            full
        };
        assert(written == written_len(max_addr_len, self@));
        let mut bytes: Vec<u8> = Vec::new();
        let ghost mut outcome: Result<(), SysError> = Ok(());
        if written > 0 {
            let checked = check(written);
            proof {
                outcome = checked;
            }
            match checked {
                Ok(_) => {},
                Err(e) => {
                    return Err(e);
                },
            }
            let mut i: usize = 0;
            while i < written
                invariant
                    i <= written <= self.bytes@.len(),
                    bytes@ == self.bytes@.subrange(0, i as int),
                decreases written - i,
            {
                bytes.push(self.bytes[i]);
                i += 1;
            }
        }
        assert(bytes@ =~= self@.subrange(0, written as int));
        let r = Ok(Some(SockAddrWrite { bytes, addr_len: full as u32 }));
        assert(hands_out(r, max_addr_len, self@));
        assert(written > 0 ==> call_ensures(check, (written,), outcome) && outcome is Ok);
        r
    }
}

/// Writing an address down and reading it again gives the endpoint back, for
/// internet addresses of version 4, for netlink addresses, and for network
/// interfaces whose index has 32 bits.
pub proof fn lemma_encoded_is_parsed_back(endpoint: Endpoint)
    requires
        !(endpoint matches Endpoint::Ip(IpAddress::Unspecified, _)),
        endpoint matches Endpoint::LinkLevel(index) ==> index <= u32::MAX,
    ensures
        parsed(encoded(endpoint)) == Ok::<Endpoint, SysError>(endpoint),
{
    match endpoint {
        Endpoint::Ip(IpAddress::Ipv4(a, b, c, d), port) => {
            assert(256 * (port / 256) + port % 256 == port);
        },
        Endpoint::Ip(IpAddress::Unspecified, _) => {},
        Endpoint::LinkLevel(index) => {
            lemma_le32_of_bytes(index as u32);
        },
        Endpoint::Netlink(port_id, groups) => {
            lemma_le32_of_bytes(port_id);
            lemma_le32_of_bytes(groups);
        },
    }
}

/// The four bytes of a number, lowest first, make the number.
pub proof fn lemma_le32_of_bytes(v: u32)
    ensures
        le32(
            (v % 256) as u8,
            (v / 256 % 256) as u8,
            (v / 65536 % 256) as u8,
            (v / 16777216 % 256) as u8,
        ) == v,
{
    let x = v as int;
    assert(x % 256 + 256 * (x / 256 % 256) + 65536 * (x / 65536 % 256) + 16777216 * (x / 16777216
        % 256) == x) by (nonlinear_arith)
        requires
            0 <= x < 0x1_0000_0000,
    ;
}

} // verus!
