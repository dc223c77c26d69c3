use rcore_thread::e1000::{
    default_mac, e1000_init, E1000Interface, InterruptAction, MacAddress, ReceivePlan, RegOp,
    SendPlan, E1000, E1000_ICR, E1000_IMS, E1000_MTA, E1000_RAH, E1000_RAL, E1000_RCTL,
    E1000_RDBAH, E1000_RDBAL, E1000_RDT, E1000_TCTL, E1000_TDBAH, E1000_TDBAL, E1000_TDLEN,
    E1000_TIPG,
};
use rcore_thread::errno::SysError;
use rcore_thread::net::{
    raw_read, sys_getsockopt, sys_socket, EphemeralPorts, IpEndpoint, SocketKind, TcpSocketState, TcpState,
    UdpSocketState,
};
use rcore_thread::sockaddr::{sockaddr_to_endpoint, Endpoint, IpAddress, SockAddr, SockAddrWrite};

fn inet(port: u16) -> IpEndpoint {
    IpEndpoint { addr: IpAddress::Ipv4(10, 0, 0, 2), port }
}

#[test]
fn ephemeral_ports_count_up_and_wrap() {
    let none = Vec::new();
    let mut ports = EphemeralPorts::new();
    assert_eq!(ports.get_ephemeral_port(0, &none), Some(49153));
    assert_eq!(ports.get_ephemeral_port(12345, &none), Some(49154));
    let mut ports = EphemeralPorts::new();
    assert_eq!(ports.get_ephemeral_port(16382, &none), Some(65535));
    assert_eq!(ports.get_ephemeral_port(7, &none), Some(49152));
    assert_eq!(ports.get_ephemeral_port(7, &none), Some(49153));
    let mut ports = EphemeralPorts::new();
    // the draw itself can hit the highest port: then the first port is the lowest
    assert_eq!(ports.get_ephemeral_port(16383 + 16384, &none), Some(49152));
}

#[test]
fn ephemeral_ports_skip_the_ports_in_use() {
    let mut ports = EphemeralPorts::new();
    let in_use = vec![49153, 80, 49154, 49156, 65535, 49152];
    assert_eq!(ports.get_ephemeral_port(0, &in_use), Some(49155));
    assert_eq!(ports.get_ephemeral_port(0, &in_use), Some(49157));
    let mut ports = EphemeralPorts::new();
    // past the highest port the search goes on at the lowest
    assert_eq!(ports.get_ephemeral_port(16381, &in_use), Some(65534));
    assert_eq!(ports.get_ephemeral_port(0, &in_use), Some(49155));
}

#[test]
fn ephemeral_ports_run_out_when_all_are_in_use() {
    let all: Vec<u16> = (49152..=65535).collect();
    let mut ports = EphemeralPorts::new();
    assert_eq!(ports.get_ephemeral_port(9, &all), None);
    let but_one: Vec<u16> = (49152..=65535).filter(|p| *p != 50000).collect();
    assert_eq!(ports.get_ephemeral_port(9, &but_one), Some(50000));
    let mut socket = TcpSocketState::new();
    socket.is_listening = true;
    assert_eq!(socket.bind(inet(0), &mut ports, 1, &all), Err(SysError::EADDRINUSE));
    assert_eq!(socket, TcpSocketState { local_endpoint: None, is_listening: true });
    // a failed search leaves the allocator where it was
    assert_eq!(ports.get_ephemeral_port(9, &Vec::new()), Some(50001));
    assert_eq!(SysError::EADDRINUSE.code(), 98);
}

#[test]
fn sockets_are_not_used_when_no_port_is_free() {
    let all: Vec<u16> = (49152..=65535).collect();
    let mut ports = EphemeralPorts::new();
    let socket = TcpSocketState::new();
    let mut asked = false;
    assert_eq!(
        socket.connect(&mut ports, 1, &all, |_| {
            asked = true;
            true
        }),
        Err(SysError::EADDRINUSE)
    );
    let mut udp = UdpSocketState::new();
    udp.connect(inet(53)).unwrap();
    let mut bound = None;
    assert_eq!(
        udp.write(5, None, 0, &mut ports, 0, &all, |p| bound = Some(p), || true, |_| {
            asked = true;
            true
        }),
        Err(SysError::EADDRINUSE)
    );
    assert_eq!((asked, bound), (false, None));
}

#[test]
fn sockets_read_what_has_come_in() {
    let nobody = IpEndpoint { addr: IpAddress::Unspecified, port: 0 };
    let tcp = TcpSocketState::new();
    let mut asked = false;
    assert_eq!(
        tcp.read(false, || {
            asked = true;
            Some((4, Some(inet(9))))
        }),
        Some((Err(SysError::ENOTCONN), nobody))
    );
    assert!(!asked);
    assert_eq!(tcp.read(true, || Some((4, Some(inet(9))))), Some((Ok(4), inet(9))));
    assert_eq!(tcp.read(true, || Some((4, None))), Some((Ok(4), nobody)));
    assert_eq!(tcp.read(true, || Some((0, Some(inet(9))))), None);
    assert_eq!(tcp.read(true, || None), None);
    let udp = UdpSocketState::new();
    assert_eq!(udp.read(false, || Some((4, inet(9)))), Some((Err(SysError::ENOTCONN), nobody)));
    assert_eq!(udp.read(true, || Some((4, inet(9)))), Some((Ok(4), inet(9))));
    assert_eq!(udp.read(true, || Some((0, inet(9)))), Some((Ok(0), inet(9))));
    assert_eq!(udp.read(true, || None), None);
    assert_eq!(
        raw_read(Some((28, (10, 0, 0, 7)))),
        Some((Ok(28), IpEndpoint { addr: IpAddress::Ipv4(10, 0, 0, 7), port: 0 }))
    );
    assert_eq!(raw_read(None), None);
}

#[test]
fn socket_kinds() {
    assert_eq!(sys_socket(2, 1, 0), Ok(SocketKind::Tcp));
    assert_eq!(sys_socket(1, 2, 0), Ok(SocketKind::Udp));
    assert_eq!(sys_socket(2, 3, 1), Ok(SocketKind::Raw(1)));
    assert_eq!(sys_socket(2, 3, 0x101), Ok(SocketKind::Raw(1)));
    // flags above the type bits are dropped
    assert_eq!(sys_socket(2, 0x801, 0), Ok(SocketKind::Tcp));
    assert_eq!(sys_socket(2, 4, 0), Err(SysError::EINVAL));
    assert_eq!(sys_socket(17, 3, 0), Ok(SocketKind::Packet));
    assert_eq!(sys_socket(17, 1, 0), Err(SysError::EINVAL));
    assert_eq!(sys_socket(16, 3, 0), Ok(SocketKind::Netlink));
    assert_eq!(sys_socket(16, 2, 0), Err(SysError::EINVAL));
    assert_eq!(sys_socket(10, 1, 0), Err(SysError::EAFNOSUPPORT));
    assert_eq!(sys_socket(0, 1, 0), Err(SysError::EAFNOSUPPORT));
    assert_eq!(sys_socket(0x10002, 1, 0), Ok(SocketKind::Tcp));
}

#[test]
fn socket_options() {
    assert_eq!(sys_getsockopt(Ok(()), 1, 7, || Ok(())), Ok(Some(512 * 1024)));
    assert_eq!(sys_getsockopt(Ok(()), 1, 8, || Ok(())), Ok(Some(512 * 1024)));
    assert_eq!(sys_getsockopt(Ok(()), 1, 7, || Err(SysError::EFAULT)), Err(SysError::EFAULT));
    assert_eq!(sys_getsockopt(Err(SysError::EFAULT), 1, 7, || Ok(())), Err(SysError::EFAULT));
    assert_eq!(sys_getsockopt(Ok(()), 1, 13, || Ok(())), Err(SysError::ENOPROTOOPT));
    assert_eq!(sys_getsockopt(Ok(()), 6, 13, || Err(SysError::EFAULT)), Ok(None));
    assert_eq!(sys_getsockopt(Ok(()), 6, 7, || Ok(())), Err(SysError::ENOPROTOOPT));
    assert_eq!(sys_getsockopt(Ok(()), 0, 7, || Ok(())), Err(SysError::ENOPROTOOPT));
}

#[test]
fn tcp_poll() {
    let mut socket = TcpSocketState::new();
    assert_eq!(socket.poll(false, false, true, true), (false, false, true));
    assert_eq!(socket.poll(true, true, true, false), (true, false, false));
    assert_eq!(socket.poll(true, true, false, true), (false, true, false));
    socket.is_listening = true;
    assert_eq!(socket.poll(true, true, false, true), (true, false, false));
    assert_eq!(socket.poll(false, true, false, true), (false, true, false));
    assert_eq!(socket.poll(false, false, false, true), (false, false, true));
}

#[test]
fn tcp_bind_takes_an_ephemeral_port_for_port_0() {
    let mut socket = TcpSocketState::new();
    let mut ports = EphemeralPorts::new();
    socket.is_listening = true;
    assert_eq!(socket.bind(inet(80), &mut ports, 5, &vec![80]), Ok(0));
    assert_eq!(socket.local_endpoint, Some(inet(80)));
    assert!(!socket.is_listening);
    assert_eq!(socket.bind(inet(0), &mut ports, 5, &vec![49158, 49159]), Ok(0));
    assert_eq!(socket.local_endpoint, Some(inet(49160)));
    assert_eq!(socket.endpoint(inet(1)), Some(inet(49160)));
    assert_eq!(socket.bind(inet(0), &mut ports, 5, &Vec::new()), Ok(0));
    assert_eq!(socket.local_endpoint, Some(inet(49161)));
}

#[test]
fn tcp_listen() {
    let mut socket = TcpSocketState::new();
    let mut ports = EphemeralPorts::new();
    assert_eq!(socket.listen(false, |_| true), Err(SysError::EINVAL));
    socket.bind(inet(80), &mut ports, 0, &Vec::new()).unwrap();
    assert_eq!(socket.listen(true, |_| false), Ok(0));
    assert!(!socket.is_listening);
    assert_eq!(socket.listen(false, |_| false), Err(SysError::EINVAL));
    assert!(!socket.is_listening);
    let mut asked = None;
    assert_eq!(
        socket.listen(false, |e| {
            asked = Some(e);
            true
        }),
        Ok(0)
    );
    assert_eq!(asked, Some(inet(80)));
    assert!(socket.is_listening);
    assert_eq!(socket.listen(false, |_| false), Ok(0));
}

#[test]
fn tcp_connect_write_and_endpoints() {
    let socket = TcpSocketState::new();
    assert_eq!(TcpSocketState::connect_outcome(TcpState::SynSent), None);
    assert_eq!(TcpSocketState::connect_outcome(TcpState::Established), Some(Ok(0)));
    assert_eq!(
        TcpSocketState::connect_outcome(TcpState::Other),
        Some(Err(SysError::ECONNREFUSED))
    );
    assert_eq!(socket.write(false, true, || Some(3)), Err(SysError::ENOTCONN));
    assert_eq!(socket.write(true, false, || Some(3)), Err(SysError::ENOBUFS));
    assert_eq!(socket.write(true, true, || None), Err(SysError::ENOBUFS));
    assert_eq!(socket.write(true, true, || Some(3)), Ok(3));
    assert_eq!(socket.endpoint(inet(0)), None);
    assert_eq!(socket.endpoint(inet(4000)), Some(inet(4000)));
    assert_eq!(socket.remote_endpoint(false, inet(7)), None);
    assert_eq!(socket.remote_endpoint(true, inet(7)), Some(inet(7)));
}

#[test]
fn tcp_connect_takes_an_ephemeral_port() {
    let socket = TcpSocketState::new();
    let mut ports = EphemeralPorts::new();
    let mut asked = None;
    assert_eq!(
        socket.connect(&mut ports, 3, &vec![49155], |port| {
            asked = Some(port);
            true
        }),
        Ok(0)
    );
    assert_eq!(asked, Some(49156));
    assert_eq!(
        socket.connect(&mut ports, 3, &Vec::new(), |port| port != 49157),
        Err(SysError::ENOBUFS)
    );
    assert_eq!(ports.get_ephemeral_port(0, &Vec::new()), Some(49158));
}

#[test]
fn tcp_accept() {
    let mut socket = TcpSocketState::new();
    let mut ports = EphemeralPorts::new();
    assert_eq!(socket.accept(true), Err(SysError::EINVAL));
    socket.bind(inet(80), &mut ports, 0, &Vec::new()).unwrap();
    socket.is_listening = true;
    assert_eq!(socket.accept(false), Ok(None));
    assert_eq!(
        socket.accept(true),
        Ok(Some(TcpSocketState { local_endpoint: Some(inet(80)), is_listening: false }))
    );
    assert!(socket.is_listening);
}

#[test]
fn udp_write() {
    let mut socket = UdpSocketState::new();
    let mut ports = EphemeralPorts::new();
    let mut bound = None;
    let mut sent = None;
    assert_eq!(
        socket.write(5, None, 0, &mut ports, 0, &vec![49153], |p| bound = Some(p), || true, |e| {
            sent = Some(e);
            true
        }),
        Err(SysError::ENOTCONN)
    );
    assert_eq!((bound, sent), (None, None));
    socket.connect(inet(53)).unwrap();
    assert_eq!(
        socket.write(5, None, 0, &mut ports, 0, &vec![49153], |p| bound = Some(p), || true, |e| {
            sent = Some(e);
            true
        }),
        Ok(5)
    );
    assert_eq!((bound, sent), (Some(49154), Some(inet(53))));
    bound = None;
    assert_eq!(
        socket.write(7, Some(inet(67)), 68, &mut ports, 0, &vec![49153], |p| bound = Some(p), || true, |e| {
            sent = Some(e);
            true
        }),
        Ok(7)
    );
    assert_eq!((bound, sent), (None, Some(inet(67))));
    assert_eq!(
        socket.write(7, None, 68, &mut ports, 0, &Vec::new(), |_| (), || false, |_| true),
        Err(SysError::ENOBUFS)
    );
    assert_eq!(
        socket.write(7, None, 68, &mut ports, 0, &Vec::new(), |_| (), || true, |_| false),
        Err(SysError::ENOBUFS)
    );
}

#[test]
fn udp_socket() {
    let mut socket = UdpSocketState::new();
    assert_eq!(socket.write_target(None), Err(SysError::ENOTCONN));
    assert_eq!(socket.write_target(Some(inet(53))), Ok(inet(53)));
    assert_eq!(socket.remote_endpoint(), None);
    assert_eq!(socket.connect(inet(123)), Ok(0));
    assert_eq!(socket.remote_endpoint(), Some(inet(123)));
    assert_eq!(socket.write_target(None), Ok(inet(123)));
    assert_eq!(socket.write_target(Some(inet(53))), Ok(inet(53)));
    assert_eq!(socket.poll(true, false), (true, false, false));
    assert_eq!(socket.endpoint(inet(0)), None);
    assert_eq!(socket.endpoint(inet(68)), Some(inet(68)));
}

#[test]
fn sockaddr_of_an_internet_endpoint() {
    let bytes = vec![2, 0, 0x1f, 0x90, 192, 168, 1, 7, 0, 0, 0, 0, 0, 0, 0, 0];
    let copy = bytes.clone();
    assert_eq!(
        sockaddr_to_endpoint(16, move || Ok(copy)),
        Ok(Endpoint::Ip(IpAddress::Ipv4(192, 168, 1, 7), 8080))
    );
    let short = bytes[..15].to_vec();
    assert_eq!(sockaddr_to_endpoint(15, move || Ok(short)), Err(SysError::EINVAL));
    let addr = SockAddr::from(Endpoint::Ip(IpAddress::Ipv4(192, 168, 1, 7), 8080));
    assert_eq!(addr.family(), 2);
    assert_eq!(
        addr.write_to(false, Ok(100), |_| Ok(())),
        Ok(Some(SockAddrWrite { bytes, addr_len: 16 }))
    );
}

#[test]
fn sockaddr_of_other_families() {
    let ll = vec![17, 0, 0, 0, 3, 1, 0, 0, 0, 0, 0, 0, 0, 0, 0, 0, 0, 0, 0, 0];
    let copy = ll.clone();
    assert_eq!(sockaddr_to_endpoint(20, move || Ok(copy)), Ok(Endpoint::LinkLevel(259)));
    let short = ll[..19].to_vec();
    assert_eq!(sockaddr_to_endpoint(19, move || Ok(short)), Err(SysError::EINVAL));
    assert_eq!(
        SockAddr::from(Endpoint::LinkLevel(259)).write_to(false, Ok(20), |_| Ok(())),
        Ok(Some(SockAddrWrite { bytes: ll, addr_len: 20 }))
    );
    let nl = vec![16, 0, 0, 0, 0x78, 0x56, 0x34, 0x12, 1, 0, 0, 0x80];
    let copy = nl.clone();
    assert_eq!(
        sockaddr_to_endpoint(12, move || Ok(copy)),
        Ok(Endpoint::Netlink(0x12345678, 0x80000001))
    );
    let short = nl[..11].to_vec();
    assert_eq!(sockaddr_to_endpoint(11, move || Ok(short)), Err(SysError::EINVAL));
    assert_eq!(
        SockAddr::from(Endpoint::Netlink(0x12345678, 0x80000001)).write_to(
            false,
            Ok(12),
            |_| Ok(())
        ),
        Ok(Some(SockAddrWrite { bytes: nl, addr_len: 12 }))
    );
    // Unix and unknown families
    assert_eq!(sockaddr_to_endpoint(4, || Ok(vec![1, 0, b'/', 0])), Err(SysError::EINVAL));
    assert_eq!(sockaddr_to_endpoint(4, || Ok(vec![10, 0, 0, 0])), Err(SysError::EINVAL));
    assert_eq!(sockaddr_to_endpoint(4, || Ok(vec![2, 1, 0, 0])), Err(SysError::EINVAL));
}

#[test]
fn sockaddr_is_not_read_when_it_is_too_short() {
    let mut loads = 0;
    assert_eq!(
        sockaddr_to_endpoint(1, || {
            loads += 1;
            Ok(vec![2])
        }),
        Err(SysError::EINVAL)
    );
    assert_eq!(loads, 0);
    assert_eq!(sockaddr_to_endpoint(16, || Err(SysError::EFAULT)), Err(SysError::EFAULT));
}

#[test]
fn write_to_cuts_the_address_to_the_buffer() {
    let endpoint = Endpoint::Ip(IpAddress::Ipv4(1, 2, 3, 4), 0x0102);
    assert_eq!(SockAddr::from(endpoint).write_to(true, Err(SysError::EFAULT), |_| Ok(())), Ok(None));
    assert_eq!(
        SockAddr::from(endpoint).write_to(false, Err(SysError::EFAULT), |_| Ok(())),
        Err(SysError::EFAULT)
    );
    let mut checked = None;
    assert_eq!(
        SockAddr::from(endpoint).write_to(false, Ok(6), |n| {
            checked = Some(n);
            Ok(())
        }),
        Ok(Some(SockAddrWrite { bytes: vec![2, 0, 1, 2, 1, 2], addr_len: 16 }))
    );
    assert_eq!(checked, Some(6));
    assert_eq!(
        SockAddr::from(endpoint).write_to(false, Ok(6), |_| Err(SysError::EFAULT)),
        Err(SysError::EFAULT)
    );
    // with no room nothing is checked or copied, but the length is told
    assert_eq!(
        SockAddr::from(endpoint).write_to(false, Ok(0), |_| Err(SysError::EFAULT)),
        Ok(Some(SockAddrWrite { bytes: vec![], addr_len: 16 }))
    );
    // an unspecified address has no family to hand out
    assert_eq!(
        SockAddr::from(Endpoint::Ip(IpAddress::Unspecified, 9)).write_to(false, Ok(16), |_| Ok(())),
        Err(SysError::EINVAL)
    );
}

fn send_buffers() -> Vec<usize> {
    (0..256).map(|i| 0x10_0000 + i * 4096).collect()
}

fn recv_buffers() -> Vec<usize> {
    (0..256).map(|i| 0x20_0000 + i * 4096).collect()
}

fn adapter() -> (E1000, Vec<RegOp>) {
    e1000_init(
        0xfeb0_0000,
        0x20000,
        0x7000,
        0x8000,
        0x1_2345_6000,
        0x9000,
        send_buffers(),
        recv_buffers(),
    )
}

#[test]
fn e1000_init_programs_the_registers_in_order() {
    let (driver, program) = adapter();
    assert_eq!(driver.mac, default_mac());
    assert_eq!(driver.mac, MacAddress(0x54, 0x51, 0x9f, 0x71, 0xc0, 0x3c));
    assert!(driver.first_trans);
    assert_eq!((driver.header, driver.size), (0xfeb0_0000, 0x20000));
    assert_eq!((driver.send_page, driver.recv_page), (0x7000, 0x8000));
    assert_eq!(driver.send_buffers.len(), 256);
    assert_eq!(driver.recv_buffers.len(), 256);
    assert_eq!((driver.send_buffers, driver.recv_buffers), (send_buffers(), recv_buffers()));
    assert_eq!(program.len(), 7 + 2 + 128 + 6 + 3);
    assert_eq!(program[0], RegOp::Write(E1000_TDBAL, 0x2345_6000));
    assert_eq!(program[1], RegOp::Write(E1000_TDBAH, 1));
    assert_eq!(program[2], RegOp::Write(E1000_TDLEN, 4096));
    assert_eq!(program[5], RegOp::Write(E1000_TCTL, 0x4010a));
    assert_eq!(program[6], RegOp::Write(E1000_TIPG, 0xc0200a));
    assert_eq!(program[7], RegOp::Write(E1000_RAL, 0x719f5154));
    assert_eq!(program[8], RegOp::Write(E1000_RAH, 0x80003cc0));
    assert_eq!(program[9], RegOp::Write(E1000_MTA, 0));
    assert_eq!(program[136], RegOp::Write(E1000_RAL - 1, 0));
    assert_eq!(program[137], RegOp::Write(E1000_RDBAL, 0x9000));
    assert_eq!(program[138], RegOp::Write(E1000_RDBAH, 0));
    assert_eq!(program[141], RegOp::Write(E1000_RDT, 255));
    assert_eq!(program[142], RegOp::Write(E1000_RCTL, 0x6038002));
    assert_eq!(program[143], RegOp::Acknowledge(E1000_ICR));
    assert_eq!(program[144], RegOp::Write(E1000_IMS, 0x80));
    assert_eq!(program[145], RegOp::Acknowledge(E1000_ICR));
    assert_eq!(E1000_RAH, 0x1501);
}

#[test]
fn e1000_interrupts() {
    let iface = E1000Interface { irq: Some(11) };
    let mut reads = 0;
    assert_eq!(
        iface.try_handle_interrupt(Some(5), || {
            reads += 1;
            1
        }),
        InterruptAction::NotOurs
    );
    assert_eq!(reads, 0);
    assert_eq!(iface.try_handle_interrupt(Some(11), || 0x80), InterruptAction::Poll(0x80));
    assert_eq!(iface.try_handle_interrupt(Some(11), || 0), InterruptAction::Nothing);
    assert_eq!(iface.try_handle_interrupt(None, || 4), InterruptAction::Poll(4));
    let unknown = E1000Interface { irq: None };
    assert_eq!(unknown.try_handle_interrupt(Some(5), || 4), InterruptAction::Poll(4));
}

#[test]
fn e1000_rings() {
    let (mut driver, _) = adapter();
    assert_eq!(E1000::send_index(0), 0);
    assert_eq!(E1000::send_index(257), 1);
    assert_eq!(E1000::recv_index(255), 0);
    assert_eq!(E1000::recv_index(u32::MAX), 0);
    assert_eq!(E1000::recv_index(7), 8);
    assert_eq!(driver.capabilities(), (1536, Some(64)));
    // before the ring has wrapped every send descriptor is free
    assert!(driver.transmit_avail(0));
    assert!(driver.transmit(3, |_| 0));
    assert_eq!(
        driver.receive(255, 0, 3),
        Some(ReceivePlan { index: 0, status: 2, rdt: 0 })
    );
    assert_eq!(driver.receive(255, 0, 2), None);
    assert_eq!(
        driver.consume(254, 0, 60),
        SendPlan { index: 254, len: 64, cmd: 0b1011, status: 0, tdt: 255 }
    );
    assert!(driver.first_trans);
    assert_eq!(
        driver.consume(255, 0, 1500),
        SendPlan { index: 255, len: 1504, cmd: 0b1011, status: 0, tdt: 0 }
    );
    assert!(!driver.first_trans);
    // now the status decides
    assert!(!driver.transmit_avail(0));
    assert!(driver.transmit_avail(1));
    let mut asked = None;
    assert!(!driver.transmit(260, |i| {
        asked = Some(i);
        2
    }));
    assert_eq!(asked, Some(4));
    assert_eq!(driver.receive(1, 0, 1), None);
    assert_eq!(driver.receive(1, 1, 1), Some(ReceivePlan { index: 2, status: 0, rdt: 2 }));
    assert_eq!(driver.consume(0, 1, 0).tdt, 1);
    assert!(!driver.first_trans);
}
