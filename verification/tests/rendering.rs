use kmem::render::{dec_string, hex_string};
use kmem::uart::Uart;

#[test]
fn hex_string_values() {
    assert_eq!(hex_string(0), "0");
    assert_eq!(hex_string(9), "9");
    assert_eq!(hex_string(10), "a");
    assert_eq!(hex_string(0x10), "10");
    assert_eq!(hex_string(0xdead_beef), "deadbeef");
    assert_eq!(hex_string(u64::MAX), "ffffffffffffffff");
}

#[test]
fn dec_string_values() {
    assert_eq!(dec_string(0), "0");
    assert_eq!(dec_string(7), "7");
    assert_eq!(dec_string(10), "10");
    assert_eq!(dec_string(4096), "4096");
    assert_eq!(dec_string(33_554_432), "33554432");
}

#[test]
fn uart_keeps_base_address() {
    let u = Uart::new(0x1000_0000);
    assert_eq!(u.base_address(), 0x1000_0000);
}
