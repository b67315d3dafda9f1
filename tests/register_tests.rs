use i2cem::{byte_to_bits, Populate, Port, Register};

struct Fixed(Vec<u8>);

impl Populate for Fixed {
    fn populate(&self) -> Vec<u8> {
        self.0.clone()
    }
}

#[test]
fn wire_test_port_basic() {
    let mut port = Port::new();
    for bit in byte_to_bits(0b11010001) {
        port.write(bit);
    }
    assert_eq!(port.read_byte().unwrap(), 0b11010001);
}

#[test]
fn test_writeable_register() {
    let mut register = Register::new_writeable();
    assert_eq!(register.read_byte().unwrap(), 0x00);

    register.start_write();
    register.write_byte(0x22);
    register.write_byte(0x21);

    register.start_read();
    assert_eq!(register.read_byte().unwrap(), 0x21);
    assert_eq!(register.read_byte().unwrap(), 0x22);
    register.finish_read();

    register.start_read();
    assert_eq!(register.read_byte().unwrap(), 0x21);
    assert_eq!(register.read_byte().unwrap(), 0x22);
}

#[test]
fn test_readonly_register() {
    let mut register = Register::new_read_only(Box::new(Fixed(vec![0x21, 0x22])));
    assert_eq!(register.read_byte().unwrap(), 0x00);

    register.start_read();
    assert_eq!(register.read_byte().unwrap(), 0x21);
    assert_eq!(register.read_byte().unwrap(), 0x22);
    register.finish_read();

    register.start_read();
    assert_eq!(register.read_byte().unwrap(), 0x21);
    assert_eq!(register.read_byte().unwrap(), 0x22);
}

#[test]
fn byte_to_bits_is_msb_first() {
    assert_eq!(
        byte_to_bits(0b1000_0110),
        vec![true, false, false, false, false, true, true, false]
    );
}

#[test]
fn port_bits_come_out_in_write_order() {
    let mut port = Port::new();
    assert_eq!(port.read(), None);
    assert_eq!(port.read_byte(), None);
    port.write(true);
    port.write(false);
    assert_eq!(port.bits_read(), 2);
    assert_eq!(port.read(), Some(true));
    assert_eq!(port.read(), Some(false));
    assert_eq!(port.read(), None);
}

#[test]
fn port_read_byte_takes_the_last_written_byte() {
    let mut port = Port::new();
    port.write_byte(0x12);
    port.write_byte(0x34);
    assert_eq!(port.read_byte(), Some(0x34));
    assert_eq!(port.read_byte(), Some(0x12));
    assert_eq!(port.read_byte(), None);
}

#[test]
fn port_partial_byte_is_zero_extended() {
    let mut port = Port::new();
    port.write(true);
    port.write(true);
    assert_eq!(port.read_byte(), Some(0b11));
    let mut port = Port::from_byte(0xa5);
    assert_eq!(port.bits_read(), 8);
    port.clear();
    assert_eq!(port.bits_read(), 0);
}

#[test]
fn writeable_register_round_trip_many_cycles() {
    let mut register = Register::new_writeable();
    register.start_write();
    for b in [0x03u8, 0x02, 0x01] {
        register.write_byte(b);
    }
    for _ in 0..3 {
        register.start_read();
        assert_eq!(register.read_byte(), Some(0x01));
        assert_eq!(register.read_byte(), Some(0x02));
        assert_eq!(register.read_byte(), Some(0x03));
        assert!(register.is_done());
        assert_eq!(register.read_byte(), Some(0x00));
        assert_eq!(register.read_bit(), None);
        register.finish_read();
    }
}

#[test]
fn read_only_register_ignores_writes() {
    let mut register = Register::new_read_only(Box::new(Fixed(vec![0x7e])));
    register.start_write();
    register.write_byte(0x11);
    register.write(true);
    assert!(register.is_done());
    register.start_read();
    assert_eq!(register.read_byte(), Some(0x7e));
}

#[test]
fn load_values_reads_back_in_order() {
    let mut register = Register::new_read_only(Box::new(Fixed(vec![])));
    register.load_values(&vec![0x10, 0x20, 0x30]);
    assert_eq!(register.read_byte(), Some(0x10));
    assert_eq!(register.read_byte(), Some(0x20));
    assert_eq!(register.read_byte(), Some(0x30));
    assert!(register.is_done());
}
