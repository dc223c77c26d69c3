use rcore_thread::serial::{init, RegWrite, SerialPort, UART_DATA, UART_STATUS, UART_STATUS_CTS, UART_STATUS_DR};

#[test]
fn registers_follow_the_base() {
    let mut port = SerialPort::new();
    assert_eq!(port.status_addr(), 0);
    port.init(0xa000_0000);
    assert_eq!(port.status_addr(), 0xa000_0000 + UART_STATUS);
    assert_eq!(port.data_addr(), 0xa000_0000 + UART_DATA);
    assert_eq!(init(0x3f8).data_addr(), 0x3fc);
    let copy = port.lock();
    copy.force_unlock();
    assert_eq!(copy.data_addr(), port.data_addr());
}

#[test]
fn putchar_writes_the_byte_to_the_data_register() {
    let mut port = init(0x1000);
    assert_eq!(port.putchar(b'x'), RegWrite { addr: 0x1004, value: b'x' });
}

#[test]
fn write_str_rubs_out_on_delete() {
    let mut port = init(0x1000);
    let values: Vec<u8> = port.write_str("a\x7fb").iter().map(|w| w.value).collect();
    assert_eq!(values, vec![b'a', 8, b' ', 8, b'b']);
    assert!(port.write_str("ok").iter().all(|w| w.addr == 0x1004));
    assert_eq!(port.write_str(""), Vec::<RegWrite>::new());
    assert_eq!(
        port.putfmt("hi"),
        vec![RegWrite { addr: 0x1004, value: b'h' }, RegWrite { addr: 0x1004, value: b'i' }]
    );
}

#[test]
fn getchar_waits_while_the_ready_bit_is_set() {
    let mut port = init(0x1000);
    let mut reads = 0;
    assert_eq!(
        port.getchar(UART_STATUS_DR, || {
            reads += 1;
            b'a'
        }),
        None
    );
    assert_eq!(reads, 0);
    assert_eq!(port.getchar(0, || b'a'), Some('a'));
    assert_eq!(port.getchar(UART_STATUS_CTS, || 255), Some('\0'));
    assert_eq!(port.getchar(0, || 254), Some('\u{fe}'));
}

#[test]
fn getchar_option_reads_only_when_data_is_ready() {
    let mut port = init(0x1000);
    let mut reads = 0;
    assert_eq!(
        port.getchar_option(UART_STATUS_CTS, || {
            reads += 1;
            b'a'
        }),
        None
    );
    assert_eq!(reads, 0);
    assert_eq!(port.getchar_option(UART_STATUS_DR, || b'z'), Some('z'));
    assert_eq!(port.getchar_option(UART_STATUS_DR | UART_STATUS_CTS, || 255), Some('\u{ff}'));
}
