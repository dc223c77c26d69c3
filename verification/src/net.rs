//! What the socket layer decides by itself: which port to use next, what
//! kind of socket a request asks for, what an option is worth, and what the
//! state of a stream or datagram socket means for its caller. The network
//! stack is asked by the caller, who passes its answers.

use crate::errno::{SysError, SysResult};
use crate::sockaddr::{
    IpAddress, AF_INET, AF_NETLINK, AF_PACKET, AF_UNIX,
};
use vstd::prelude::*;

verus! {

/// Size of the send buffer of a stream socket.
pub const TCP_SENDBUF: usize = 512 * 1024;

/// Size of the receive buffer of a stream socket.
pub const TCP_RECVBUF: usize = 512 * 1024;

/// Lowest ephemeral port.
pub const EPHEMERAL_FIRST: u16 = 49152;

/// Highest ephemeral port.
pub const EPHEMERAL_LAST: u16 = 65535;

/// Mask of the bits of a socket type that name the type.
pub const SOCK_TYPE_MASK: u8 = 0xf;

/// Socket type: stream.
pub const SOCK_STREAM: u8 = 1;

/// Socket type: datagram.
pub const SOCK_DGRAM: u8 = 2;

/// Socket type: raw.
pub const SOCK_RAW: u8 = 3;

/// Option level: the socket itself.
pub const SOL_SOCKET: usize = 1;

/// Option level: the transmission control protocol.
pub const IPPROTO_TCP: usize = 6;

/// Socket option: size of the send buffer.
pub const SO_SNDBUF: usize = 7;

/// Socket option: size of the receive buffer.
pub const SO_RCVBUF: usize = 8;

/// Option of the transmission control protocol: congestion control.
pub const TCP_CONGESTION: usize = 13;

/// An internet address with a port.
#[derive(Clone, Copy, Debug, PartialEq, Eq, Structural)]
pub struct IpEndpoint {
    pub addr: IpAddress,
    pub port: u16,
}

/// The port that follows `last`, the port given out before, or 0 if none was:
/// the first port is drawn from the ephemeral range with `random`; after the
/// highest port comes the lowest.
pub open spec fn next_port(last: u16, random: u32) -> u16 {
    let start = if last == 0 {
        (EPHEMERAL_FIRST + random % ((EPHEMERAL_LAST - EPHEMERAL_FIRST + 1) as u32)) as u16
    } else {
        last
    };
    if start == EPHEMERAL_LAST {
        EPHEMERAL_FIRST
    } else {
        (start + 1) as u16
    }
}

/// The `k`th port that is tried after `last`: the ports of the ephemeral
/// range are tried in a circle, from the one that follows `last`.
pub open spec fn port_at(last: u16, random: u32, k: int) -> u16 {
    (EPHEMERAL_FIRST + (next_port(last, random) - EPHEMERAL_FIRST + k) % (EPHEMERAL_COUNT as int)) as u16
}

/// The `k`th port that is tried is the first that is not in use.
pub open spec fn is_first_free_port(last: u16, random: u32, in_use: Seq<u16>, k: int) -> bool {
    &&& 0 <= k < EPHEMERAL_COUNT
    &&& !in_use.contains(port_at(last, random, k))
    &&& forall|j: int| 0 <= j < k ==> in_use.contains(#[trigger] port_at(last, random, j))
}

/// The port that is given out after `last` when the ports `in_use` are
/// taken: the first in the circle that is free, or none if all are taken.
pub open spec fn free_port(last: u16, random: u32, in_use: Seq<u16>) -> Option<u16> {
    if exists|k: int| is_first_free_port(last, random, in_use, k) {
        Some(port_at(last, random, choose|k: int| is_first_free_port(last, random, in_use, k)))
    } else {
        None
    }
}

/// Number of ephemeral ports.
pub const EPHEMERAL_COUNT: u32 = 16384;

/// Is `port` among `in_use`?
fn port_in_use(in_use: &Vec<u16>, port: u16) -> (r: bool)
    ensures
        r == in_use@.contains(port),
{
    let mut i: usize = 0;
    while i < in_use.len()
        invariant
            i <= in_use@.len(),
            forall|j: int| 0 <= j < i ==> in_use@[j] != port,
        decreases in_use@.len() - i,
    {
        if in_use[i] == port {
            return true;
        }
        i += 1;
    }
    false
}

/// Hands out ephemeral ports one after the other, and none that is in use.
pub struct EphemeralPorts {
    last: u16,
}

impl EphemeralPorts {
    #[verifier::type_invariant]
    spec fn in_range(self) -> bool {
        self.last == 0 || self.last >= EPHEMERAL_FIRST
    }

    /// The port given out last, or 0 if none was.
    pub closed spec fn last(&self) -> u16 {
        self.last
    }

    /// No port has been given out.
    pub fn new() -> (r: Self)
        ensures
            r.last() == 0,
    {
        EphemeralPorts { last: 0 }
    }

    /// The next port that none of the sockets has: `in_use` are the local
    /// ports of the sockets that there are. The ports of the ephemeral range
    /// are tried in a circle, from the one after the port given out last;
    /// `random` is a random number that says where the first call starts.
    /// `None`, and no change, when every port of the range is in use.
    pub fn get_ephemeral_port(&mut self, random: u32, in_use: &Vec<u16>) -> (port: Option<u16>)
        ensures
            port == free_port(old(self).last(), random, in_use@),
            port matches Some(p) ==> !in_use@.contains(p) && p >= EPHEMERAL_FIRST && final(self).last() == p,
            port is None ==> final(self).last() == old(self).last() && forall|q: u16|
                q >= EPHEMERAL_FIRST ==> in_use@.contains(q),
    {
        proof {
            use_type_invariant(&*self);
        }
        let start: u16 = if self.last == 0 {
            (EPHEMERAL_FIRST as u32 + random % EPHEMERAL_COUNT) as u16
        } else {
            self.last
        };
        let first: u16 = if start == EPHEMERAL_LAST {
            EPHEMERAL_FIRST
        } else {
            start + 1
        };
        assert(first == next_port(self.last, random));
        let base: u32 = (first - EPHEMERAL_FIRST) as u32;
        let ghost last = self.last;
        let mut k: u32 = 0;
        while k < EPHEMERAL_COUNT
            invariant
                k <= EPHEMERAL_COUNT,
                base < EPHEMERAL_COUNT,
                base == next_port(last, random) - EPHEMERAL_FIRST,
                last == self.last,
                self.last == old(self).last,
                forall|j: int| 0 <= j < k ==> in_use@.contains(#[trigger] port_at(last, random, j)),
            decreases EPHEMERAL_COUNT - k,
        {
            let candidate: u16 = (EPHEMERAL_FIRST as u32 + (base + k) % EPHEMERAL_COUNT) as u16;
            assert(candidate == port_at(last, random, k as int));
            if !port_in_use(in_use, candidate) {
                proof {
                    assert(is_first_free_port(last, random, in_use@, k as int));
                    let c = choose|c: int| is_first_free_port(last, random, in_use@, c);
                    assert(c == k) by {
                        if c < k {
                            assert(in_use@.contains(port_at(last, random, c)));
                        }
                        if k < c {
                            assert(in_use@.contains(port_at(last, random, k as int)));
                        }
                    }
                }
                self.last = candidate;
                return Some(candidate);
            }
            k += 1;
        }
        proof {
            assert forall|c: int| !is_first_free_port(last, random, in_use@, c) by {
                if 0 <= c < EPHEMERAL_COUNT {
                    assert(in_use@.contains(port_at(last, random, c)));
                }
            }
            assert forall|q: u16| q >= EPHEMERAL_FIRST implies in_use@.contains(q) by {
                let c = (q - EPHEMERAL_FIRST - base + EPHEMERAL_COUNT) % (EPHEMERAL_COUNT as int);
                assert(port_at(last, random, c) == q);
            }
        }
        None
    }
}

/// The endpoint that stands for no peer.
pub open spec fn unspecified() -> IpEndpoint {
    IpEndpoint { addr: IpAddress::Unspecified, port: 0 }
}

/// The endpoint that stands for no peer.
pub fn unspecified_endpoint() -> (r: IpEndpoint)
    ensures
        r == unspecified(),
{
    IpEndpoint { addr: IpAddress::Unspecified, port: 0 }
}

/// What a read from a stream socket answers when the stack handed out `got`.
pub open spec fn stream_read(got: Option<(usize, Option<IpEndpoint>)>) -> Option<
    (SysResult, IpEndpoint),
> {
    match got {
        Some((size, remote)) => if size > 0 {
            Some(
                (
                    Ok(size),
                    match remote {
                        Some(e) => e,
                        None => unspecified(),
                    },
                ),
            )
        } else {
            None
        },
        None => None,
    }
}

/// One attempt to read a packet from a raw socket. `received` is what the
/// stack handed out: the length of the packet and the source address in its
/// header, or nothing. A packet is the answer, with its source as the peer;
/// with none the answer is `None`: the caller waits for the stack and tries
/// again.
pub fn raw_read(received: Option<(usize, (u8, u8, u8, u8))>) -> (r: Option<(SysResult, IpEndpoint)>)
    ensures
        r == (match received {
            Some((size, source)) => Some(
                (
                    Ok::<usize, SysError>(size),
                    IpEndpoint {
                        addr: IpAddress::Ipv4(source.0, source.1, source.2, source.3),
                        port: 0,
                    },
                ),
            ),
            None => None,
        }),
{
    match received {
        Some((size, source)) => Some(
            (
                Ok(size),
                IpEndpoint { addr: IpAddress::Ipv4(source.0, source.1, source.2, source.3), port: 0 },
            ),
        ),
        None => None,
    }
}

/// The kinds of socket.
#[derive(Clone, Copy, Debug, PartialEq, Eq, Structural)]
pub enum SocketKind {
    /// A stream socket.
    Tcp,
    /// A datagram socket.
    Udp,
    /// A raw socket for the given protocol.
    Raw(u8),
    /// A packet socket.
    Packet,
    /// A netlink socket.
    Netlink,
}

/// The kind of socket that `socket` makes for a domain, a type and a
/// protocol, of which the low 16 bits, the low 4 bits and the low 8 bits
/// count.
pub open spec fn socket_kind(domain: usize, socket_type: usize, protocol: usize) -> Result<
    SocketKind,
    SysError,
> {
    let family = domain as u16;
    let kind = (socket_type as u8) & SOCK_TYPE_MASK;
    if family == AF_INET || family == AF_UNIX {
        if kind == SOCK_STREAM {
            Ok(SocketKind::Tcp)
        } else if kind == SOCK_DGRAM {
            Ok(SocketKind::Udp)
        } else if kind == SOCK_RAW {
            Ok(SocketKind::Raw(protocol as u8))
        } else {
            Err(SysError::EINVAL)
        }
    } else if family == AF_PACKET {
        if kind == SOCK_RAW {
            Ok(SocketKind::Packet)
        } else {
            Err(SysError::EINVAL)
        }
    } else if family == AF_NETLINK {
        if kind == SOCK_RAW {
            Ok(SocketKind::Netlink)
        } else {
            Err(SysError::EINVAL)
        }
    } else {
        Err(SysError::EAFNOSUPPORT)
    }
}

/// Says what kind of socket the caller is to make and put in the file table
/// of the process: stream, datagram and raw sockets in the internet and Unix
/// domains, raw sockets in the packet and netlink domains. Other types are
/// refused with `EINVAL`, other domains with `EAFNOSUPPORT`.
pub fn sys_socket(domain: usize, socket_type: usize, protocol: usize) -> (r: Result<
    SocketKind,
    SysError,
>)
    ensures
        r == socket_kind(domain, socket_type, protocol),
{
    let family = #[verifier::truncate]
    (domain as u16);
    let kind = (#[verifier::truncate]
    (socket_type as u8)) & SOCK_TYPE_MASK;
    if family == AF_INET || family == AF_UNIX {
        if kind == SOCK_STREAM {
            Ok(SocketKind::Tcp)
        } else if kind == SOCK_DGRAM {
            Ok(SocketKind::Udp)
        } else if kind == SOCK_RAW {
            Ok(SocketKind::Raw(#[verifier::truncate]
            (protocol as u8)))
        } else {
            Err(SysError::EINVAL)
        }
    } else if family == AF_PACKET {
        if kind == SOCK_RAW {
            Ok(SocketKind::Packet)
        } else {
            Err(SysError::EINVAL)
        }
    } else if family == AF_NETLINK {
        if kind == SOCK_RAW {
            Ok(SocketKind::Netlink)
        } else {
            Err(SysError::EINVAL)
        }
    } else {
        Err(SysError::EAFNOSUPPORT)
    }
}

/// What an option of a socket is worth: a value of four bytes for the sizes
/// of the buffers, nothing for the congestion control, which is accepted and
/// ignored.
pub open spec fn option_value(level: usize, optname: usize) -> Result<Option<u32>, SysError> {
    if level == SOL_SOCKET {
        if optname == SO_SNDBUF {
            Ok(Some(TCP_SENDBUF as u32))
        } else if optname == SO_RCVBUF {
            Ok(Some(TCP_RECVBUF as u32))
        } else {
            Err(SysError::ENOPROTOOPT)
        }
    } else if level == IPPROTO_TCP {
        if optname == TCP_CONGESTION {
            Ok(None)
        } else {
            Err(SysError::ENOPROTOOPT)
        }
    } else {
        Err(SysError::ENOPROTOOPT)
    }
}

/// The option has a value that is stored for the caller.
pub open spec fn option_has_value(level: usize, optname: usize) -> bool {
    level == SOL_SOCKET && (optname == SO_SNDBUF || optname == SO_RCVBUF)
}

/// Reads an option of a socket. `optlen_check` is what the check of the
/// pointer to the length gave; an error there is returned as it is. For an
/// option with a value, `optval_check` then checks that four bytes can be
/// written to the buffer for the value; an error there is returned too. On
/// success the result is the value that the caller stores, four bytes long,
/// or `None` where there is nothing to store. An unknown option is refused
/// with `ENOPROTOOPT`.
pub fn sys_getsockopt<F: FnOnce() -> Result<(), SysError>>(
    optlen_check: Result<(), SysError>,
    level: usize,
    optname: usize,
    optval_check: F,
) -> (r: Result<Option<u32>, SysError>)
    requires
        call_requires(optval_check, ()),
    ensures
        optlen_check is Err ==> r == Err::<Option<u32>, SysError>(optlen_check->Err_0),
        optlen_check is Ok && !option_has_value(level, optname) ==> r == option_value(
            level,
            optname,
        ),
        optlen_check is Ok && option_has_value(level, optname) ==> exists|
            checked: Result<(), SysError>,
        |
            call_ensures(optval_check, (), checked) && (checked is Ok ==> r == option_value(
                level,
                optname,
            )) && (checked is Err ==> r == Err::<Option<u32>, SysError>(checked->Err_0)),
{
    match optlen_check {
        Err(e) => {
            return Err(e);
        },
        Ok(_) => {},
    }
    if level == SOL_SOCKET {
        if optname == SO_SNDBUF {
            match optval_check() {
                Ok(_) => Ok(Some(TCP_SENDBUF as u32)),
                Err(e) => Err(e),
            }
        } else if optname == SO_RCVBUF {
            match optval_check() {
                Ok(_) => Ok(Some(TCP_RECVBUF as u32)),
                Err(e) => Err(e),
            }
        } else {
            Err(SysError::ENOPROTOOPT)
        }
    } else if level == IPPROTO_TCP {
        if optname == TCP_CONGESTION {
            Ok(None)
        } else {
            Err(SysError::ENOPROTOOPT)
        }
    } else {
        Err(SysError::ENOPROTOOPT)
    }
}

/// How far a stream socket is with a connection, as the network stack tells
/// it.
#[derive(Clone, Copy, Debug, PartialEq, Eq, Structural)]
pub enum TcpState {
    /// The request to connect is on its way.
    SynSent,
    /// The connection stands.
    Established,
    /// Any other state.
    Other,
}

/// What the kernel keeps of a stream socket beside the socket of the network
/// stack.
#[derive(Clone, Copy, Debug, PartialEq, Eq, Structural)]
pub struct TcpSocketState {
    /// The endpoint that `bind` has set.
    pub local_endpoint: Option<IpEndpoint>,
    /// `listen` has put the socket of the stack into the listening state.
    pub is_listening: bool,
}

impl TcpSocketState {
    /// A socket that is not bound.
    pub fn new() -> (r: Self)
        ensures
            r == (TcpSocketState { local_endpoint: None, is_listening: false }),
    {
        TcpSocketState { local_endpoint: None, is_listening: false }
    }

    /// Whether the socket can be read, can be written, or is in error. A
    /// listening socket is readable when a connection has come in. A socket
    /// that is not open is in error.
    pub fn poll(&self, is_active: bool, is_open: bool, can_recv: bool, can_send: bool) -> (r: (
        bool,
        bool,
        bool,
    ))
        ensures
            self.is_listening && is_active ==> r == (true, false, false),
            !(self.is_listening && is_active) && !is_open ==> r == (false, false, true),
            !(self.is_listening && is_active) && is_open ==> r == (can_recv, can_send, false),
    {
        if self.is_listening && is_active {
            (true, false, false)
        } else if !is_open {
            (false, false, true)
        } else {
            (can_recv, can_send, false)
        }
    }

    /// Binds the socket to `endpoint`; for port 0 an ephemeral port is taken
    /// that is not among `in_use`, the local ports of the sockets that there
    /// are. A bound socket no longer counts as listening. When no ephemeral
    /// port is free the socket stays as it is, and the address is in use.
    pub fn bind(
        &mut self,
        endpoint: IpEndpoint,
        ports: &mut EphemeralPorts,
        random: u32,
        in_use: &Vec<u16>,
    ) -> (r: SysResult)
        ensures
            endpoint.port != 0 ==> {
                &&& r == Ok::<usize, SysError>(0)
                &&& !final(self).is_listening
                &&& final(self).local_endpoint == Some(endpoint)
                &&& final(ports).last() == old(ports).last()
            },
            endpoint.port == 0 ==> match free_port(old(ports).last(), random, in_use@) {
                Some(port) => {
                    &&& r == Ok::<usize, SysError>(0)
                    &&& !final(self).is_listening
                    &&& final(self).local_endpoint == Some(IpEndpoint { port, ..endpoint })
                    &&& final(ports).last() == port
                    &&& !in_use@.contains(port)
                },
                None => {
                    &&& r == Err::<usize, SysError>(SysError::EADDRINUSE)
                    &&& *final(self) == *old(self)
                    &&& final(ports).last() == old(ports).last()
                },
            },
    {
        let mut endpoint = endpoint;
        if endpoint.port == 0 {
            match ports.get_ephemeral_port(random, in_use) {
                Some(port) => {
                    endpoint.port = port;
                },
                None => {
                    return Err(SysError::EADDRINUSE);
                },
            }
        }
        self.local_endpoint = Some(endpoint);
        self.is_listening = false;
        Ok(0)
    }

    /// Starts to listen. Listening twice is fine. A socket that is not bound
    /// is refused with `EINVAL`. `socket_is_listening` says whether the socket
    /// of the stack listens already; if not, `listen` asks the stack to listen
    /// on the bound endpoint and says whether it does.
    pub fn listen<F: FnOnce(IpEndpoint) -> bool>(&mut self, socket_is_listening: bool, listen: F) -> (r:
        SysResult)
        requires
            forall|e: IpEndpoint| call_requires(listen, (e,)),
        ensures
            final(self).local_endpoint == old(self).local_endpoint,
            old(self).is_listening ==> r == Ok::<usize, SysError>(0) && final(self).is_listening,
            !old(self).is_listening && old(self).local_endpoint is None ==> r == Err::<
                usize,
                SysError,
            >(SysError::EINVAL) && !final(self).is_listening,
            !old(self).is_listening && old(self).local_endpoint is Some && socket_is_listening
                ==> r == Ok::<usize, SysError>(0) && !final(self).is_listening,
            !old(self).is_listening && old(self).local_endpoint is Some && !socket_is_listening
                ==> exists|ok: bool|
                call_ensures(listen, (old(self).local_endpoint->0,), ok) && final(self).is_listening == ok && r == (if ok {
                    Ok::<usize, SysError>(0)
                } else {
                    Err::<usize, SysError>(SysError::EINVAL)
                }),
    {
        if self.is_listening {
            return Ok(0);
        }
        let local_endpoint = match self.local_endpoint {
            Some(e) => e,
            None => {
                return Err(SysError::EINVAL);
            },
        };
        if socket_is_listening {
            return Ok(0);
        }
        if listen(local_endpoint) {
            self.is_listening = true;
            Ok(0)
        } else {
            Err(SysError::EINVAL)
        }
    }

    /// Asks for a connection from an ephemeral port that is not among
    /// `in_use`, the local ports of the sockets that there are: `connect`
    /// hands the request with that port to the stack and says whether the
    /// stack took it. If so the caller waits for the outcome, see
    /// `connect_outcome`; if not there is no room. When no ephemeral port is
    /// free the stack is not asked, and the address is in use.
    pub fn connect<F: FnOnce(u16) -> bool>(
        &self,
        ports: &mut EphemeralPorts,
        random: u32,
        in_use: &Vec<u16>,
        connect: F,
    ) -> (r: SysResult)
        requires
            forall|port: u16| call_requires(connect, (port,)),
        ensures
            match free_port(old(ports).last(), random, in_use@) {
                Some(port) => final(ports).last() == port && !in_use@.contains(port)
                    && exists|taken: bool|
                    call_ensures(connect, (port,), taken) && r == (if taken {
                        Ok::<usize, SysError>(0)
                    } else {
                        Err::<usize, SysError>(SysError::ENOBUFS)
                    }),
                None => final(ports).last() == old(ports).last() && r == Err::<usize, SysError>(
                    SysError::EADDRINUSE,
                ),
            },
    {
        match ports.get_ephemeral_port(random, in_use) {
            Some(temp_port) => {
                if connect(temp_port) {
                    Ok(0)
                } else {
                    Err(SysError::ENOBUFS)
                }
            },
            None => Err(SysError::EADDRINUSE),
        }
    }

    /// Takes a connection that has come in. A socket that is not bound is
    /// refused with `EINVAL`. While no connection is there the answer is
    /// `None`: the caller waits and asks again. Else the answer is what the
    /// kernel keeps of the socket that carries the connection: bound like this
    /// one, and not listening.
    pub fn accept(&self, is_active: bool) -> (r: Result<Option<TcpSocketState>, SysError>)
        ensures
            self.local_endpoint is None ==> r == Err::<Option<TcpSocketState>, SysError>(
                SysError::EINVAL,
            ),
            self.local_endpoint is Some && !is_active ==> r == Ok::<
                Option<TcpSocketState>,
                SysError,
            >(None),
            self.local_endpoint is Some && is_active ==> r == Ok::<
                Option<TcpSocketState>,
                SysError,
            >(Some(TcpSocketState { local_endpoint: self.local_endpoint, is_listening: false })),
    {
        match self.local_endpoint {
            None => Err(SysError::EINVAL),
            Some(_) => if is_active {
                Ok(Some(TcpSocketState { local_endpoint: self.local_endpoint, is_listening: false }))
            } else {
                Ok(None)
            },
        }
    }

    /// What a caller that waits for its connection learns from the state of
    /// the socket: `None` while the request is on its way, success once the
    /// connection stands, `ECONNREFUSED` in every other state.
    pub fn connect_outcome(state: TcpState) -> (r: Option<SysResult>)
        ensures
            r == (match state {
                TcpState::SynSent => None::<SysResult>,
                TcpState::Established => Some(Ok::<usize, SysError>(0)),
                TcpState::Other => Some(Err::<usize, SysError>(SysError::ECONNREFUSED)),
            }),
    {
        match state {
            TcpState::SynSent => None,
            TcpState::Established => Some(Ok(0)),
            TcpState::Other => Some(Err(SysError::ECONNREFUSED)),
        }
    }

    /// One attempt to read. A socket that is not open is not connected, and
    /// the stack is not asked. Else `recv` takes what has come in from the
    /// stack: how many bytes, and the peer if the stack knows it; or nothing.
    /// With at least one byte that is the answer. With none the answer is
    /// `None`: the caller waits for the stack and tries again.
    pub fn read<F: FnOnce() -> Option<(usize, Option<IpEndpoint>)>>(
        &self,
        is_open: bool,
        recv: F,
    ) -> (r: Option<(SysResult, IpEndpoint)>)
        requires
            call_requires(recv, ()),
        ensures
            !is_open ==> r == Some((Err::<usize, SysError>(SysError::ENOTCONN), unspecified())),
            is_open ==> exists|got: Option<(usize, Option<IpEndpoint>)>|
                call_ensures(recv, (), got) && r == stream_read(got),
    {
        if !is_open {
            return Some((Err(SysError::ENOTCONN), unspecified_endpoint()));
        }
        let got = recv();
        let r = match got {
            Some((size, remote)) => {
                if size > 0 {
                    match remote {
                        Some(e) => Some((Ok(size), e)),
                        None => Some((Ok(size), unspecified_endpoint())),
                    }
                } else {
                    None
                }
            },
            None => None,
        };
        assert(call_ensures(recv, (), got) && r == stream_read(got));
        r
    }

    /// Sends data. A socket that is not open is not connected; one that
    /// cannot send has no room. Else `send` hands the data to the stack and
    /// says how much it took, or that it took none.
    pub fn write<F: FnOnce() -> Option<usize>>(&self, is_open: bool, can_send: bool, send: F) -> (r:
        SysResult)
        requires
            call_requires(send, ()),
        ensures
            !is_open ==> r == Err::<usize, SysError>(SysError::ENOTCONN),
            is_open && !can_send ==> r == Err::<usize, SysError>(SysError::ENOBUFS),
            is_open && can_send ==> exists|sent: Option<usize>|
                call_ensures(send, (), sent) && r == (match sent {
                    Some(size) => Ok::<usize, SysError>(size),
                    None => Err::<usize, SysError>(SysError::ENOBUFS),
                }),
    {
        if is_open {
            if can_send {
                match send() {
                    Some(size) => Ok(size),
                    None => Err(SysError::ENOBUFS),
                }
            } else {
                Err(SysError::ENOBUFS)
            }
        } else {
            Err(SysError::ENOTCONN)
        }
    }

    /// The local endpoint: the one that was bound, else the one that the stack
    /// has given the socket, if it has a port.
    pub fn endpoint(&self, socket_endpoint: IpEndpoint) -> (r: Option<IpEndpoint>)
        ensures
            r == (if self.local_endpoint is Some {
                self.local_endpoint
            } else if socket_endpoint.port != 0 {
                Some(socket_endpoint)
            } else {
                None
            }),
    {
        match self.local_endpoint {
            Some(e) => Some(e),
            None => if socket_endpoint.port != 0 {
                Some(socket_endpoint)
            } else {
                None
            },
        }
    }

    /// The endpoint of the peer, if the socket is open.
    pub fn remote_endpoint(&self, is_open: bool, socket_remote: IpEndpoint) -> (r: Option<
        IpEndpoint,
    >)
        ensures
            r == (if is_open {
                Some(socket_remote)
            } else {
                None
            }),
    {
        if is_open {
            Some(socket_remote)
        } else {
            None
        }
    }
}

/// What the kernel keeps of a datagram socket beside the socket of the
/// network stack.
#[derive(Clone, Copy, Debug, PartialEq, Eq, Structural)]
pub struct UdpSocketState {
    /// The peer that `connect` has set.
    pub remote_endpoint: Option<IpEndpoint>,
}

impl UdpSocketState {
    /// A socket without peer.
    pub fn new() -> (r: Self)
        ensures
            r == (UdpSocketState { remote_endpoint: None }),
    {
        UdpSocketState { remote_endpoint: None }
    }

    /// Remembers the peer to which `write` sends.
    pub fn connect(&mut self, endpoint: IpEndpoint) -> (r: SysResult)
        ensures
            r == Ok::<usize, SysError>(0),
            final(self).remote_endpoint == Some(endpoint),
    {
        self.remote_endpoint = Some(endpoint);
        Ok(0)
    }

    /// The peer that `connect` has set.
    pub fn remote_endpoint(&self) -> (r: Option<IpEndpoint>)
        ensures
            r == self.remote_endpoint,
    {
        self.remote_endpoint
    }

    /// Whether the socket can be read or written; it is never in error.
    pub fn poll(&self, can_recv: bool, can_send: bool) -> (r: (bool, bool, bool))
        ensures
            r == (can_recv, can_send, false),
    {
        (can_recv, can_send, false)
    }

    /// Where a datagram goes: to the endpoint given with it, else to the peer
    /// that `connect` has set; with neither the socket is not connected.
    pub fn write_target(&self, sendto_endpoint: Option<IpEndpoint>) -> (r: Result<
        IpEndpoint,
        SysError,
    >)
        ensures
            r == (match sendto_endpoint {
                Some(e) => Ok::<IpEndpoint, SysError>(e),
                None => match self.remote_endpoint {
                    Some(e) => Ok::<IpEndpoint, SysError>(e),
                    None => Err::<IpEndpoint, SysError>(SysError::ENOTCONN),
                },
            }),
    {
        match sendto_endpoint {
            Some(e) => Ok(e),
            None => match self.remote_endpoint {
                Some(e) => Ok(e),
                None => Err(SysError::ENOTCONN),
            },
        }
    }

    /// One attempt to read a datagram. A socket that is not open is not
    /// connected, and the stack is not asked. Else `recv` takes a datagram
    /// from the stack: its length and its sender, or nothing. A datagram is
    /// the answer, an empty one too; with none the answer is `None`: the
    /// caller waits for the stack and tries again.
    pub fn read<F: FnOnce() -> Option<(usize, IpEndpoint)>>(&self, is_open: bool, recv: F) -> (r:
        Option<(SysResult, IpEndpoint)>)
        requires
            call_requires(recv, ()),
        ensures
            !is_open ==> r == Some((Err::<usize, SysError>(SysError::ENOTCONN), unspecified())),
            is_open ==> exists|got: Option<(usize, IpEndpoint)>|
                call_ensures(recv, (), got) && r == (match got {
                    Some((size, sender)) => Some((Ok::<usize, SysError>(size), sender)),
                    None => None,
                }),
    {
        if !is_open {
            return Some((Err(SysError::ENOTCONN), unspecified_endpoint()));
        }
        match recv() {
            Some((size, sender)) => Some((Ok(size), sender)),
            None => None,
        }
    }

    /// Where a datagram goes if it can go anywhere.
    pub open spec fn target(&self, sendto_endpoint: Option<IpEndpoint>) -> IpEndpoint {
        if sendto_endpoint is Some {
            sendto_endpoint->0
        } else {
            self.remote_endpoint->0
        }
    }

    /// Sends a datagram of `len` bytes. It goes to `sendto_endpoint`, else to
    /// the peer that `connect` has set; with neither the socket is not
    /// connected and nothing else happens. A socket without local port,
    /// `socket_port` being 0, is first bound with `bind` to an ephemeral port
    /// that is not among `in_use`, the local ports of the sockets that there
    /// are; when none is free the address is in use and nothing is sent.
    /// Then, if `can_send` says that the stack has room, `send` hands the
    /// datagram for the target to the stack and says whether it took it.
    pub fn write<B: FnOnce(u16), C: FnOnce() -> bool, S: FnOnce(IpEndpoint) -> bool>(
        &self,
        len: usize,
        sendto_endpoint: Option<IpEndpoint>,
        socket_port: u16,
        ports: &mut EphemeralPorts,
        random: u32,
        in_use: &Vec<u16>,
        bind: B,
        can_send: C,
        send: S,
    ) -> (r: SysResult)
        requires
            forall|port: u16| call_requires(bind, (port,)),
            call_requires(can_send, ()),
            forall|e: IpEndpoint| call_requires(send, (e,)),
        ensures
            sendto_endpoint is None && self.remote_endpoint is None ==> r == Err::<
                usize,
                SysError,
            >(SysError::ENOTCONN) && final(ports).last() == old(ports).last(),
            (sendto_endpoint is Some || self.remote_endpoint is Some) && socket_port == 0
                && free_port(old(ports).last(), random, in_use@) is None ==> r == Err::<
                usize,
                SysError,
            >(SysError::EADDRINUSE) && final(ports).last() == old(ports).last(),
            (sendto_endpoint is Some || self.remote_endpoint is Some) && (socket_port != 0
                || free_port(old(ports).last(), random, in_use@) is Some) ==> {
                &&& final(ports).last() == (if socket_port == 0 {
                    free_port(old(ports).last(), random, in_use@)->0
                } else {
                    old(ports).last()
                })
                &&& socket_port == 0 ==> call_ensures(
                    bind,
                    (free_port(old(ports).last(), random, in_use@)->0,),
                    (),
                ) && !in_use@.contains(free_port(old(ports).last(), random, in_use@)->0)
                &&& exists|room: bool|
                    call_ensures(can_send, (), room) && (!room ==> r == Err::<usize, SysError>(
                        SysError::ENOBUFS,
                    )) && (room ==> exists|taken: bool|
                        call_ensures(send, (self.target(sendto_endpoint),), taken) && r == (
                        if taken {
                            Ok::<usize, SysError>(len)
                        } else {
                            Err::<usize, SysError>(SysError::ENOBUFS)
                        }))
            },
    {
        let target = match self.write_target(sendto_endpoint) {
            Ok(e) => e,
            Err(e) => {
                return Err(e);
            },
        };
        if socket_port == 0 {
            match ports.get_ephemeral_port(random, in_use) {
                Some(temp_port) => {
                    bind(temp_port);
                },
                None => {
                    return Err(SysError::EADDRINUSE);
                },
            }
        }
        if can_send() {
            if send(target) {
                Ok(len)
            } else {
                Err(SysError::ENOBUFS)
            }
        } else {
            Err(SysError::ENOBUFS)
        }
    }

    /// The local endpoint that the stack has given the socket, if it has a
    /// port.
    pub fn endpoint(&self, socket_endpoint: IpEndpoint) -> (r: Option<IpEndpoint>)
        ensures
            r == (if socket_endpoint.port != 0 {
                Some(socket_endpoint)
            } else {
                None
            }),
    {
        if socket_endpoint.port != 0 {
            Some(socket_endpoint)
        } else {
            None
        }
    }
}

} // verus!
