use i2cem::{BusError, I2CSlave, LineCondition, Master, Populate, Register, SlaveState};
use std::sync::atomic::{AtomicU8, Ordering};

struct Fixed(Vec<u8>);

impl Populate for Fixed {
    fn populate(&self) -> Vec<u8> {
        self.0.clone()
    }
}

fn read_only(bytes: Vec<u8>) -> Register {
    Register::new_read_only(Box::new(Fixed(bytes)))
}

#[test]
fn test_bus_read() {
    let mut slave = I2CSlave::new(0x68).unwrap();
    let mut slave2 = I2CSlave::new(0x32).unwrap();
    slave.create_register(0x12, read_only(vec![0x21, 0x22]));
    slave2.create_register(0x29, read_only(vec![0x48, 0x29]));

    let mut master = Master::new();
    master.add_device(slave);
    master.add_device(slave2);

    let values = master.read_block(0x68, 0x12, 2).unwrap();
    assert_eq!(&*values, [0x21, 0x22]);

    let values = master.read_block(0x32, 0x29, 2).unwrap();
    assert_eq!(&*values, [0x48, 0x29]);

    let values = master.read_block(0x68, 0x12, 2).unwrap();
    assert_eq!(&*values, [0x21, 0x22]);
}

#[test]
fn test_read_bmi270() {
    const REAL_TEMP: f32 = 0.1234;
    let raw = ((REAL_TEMP * 10000.0) as u16).to_be_bytes();

    let mut slave = I2CSlave::new(0x68).unwrap();
    slave.create_register(0x22, read_only(vec![raw[0]]));
    slave.create_register(0x23, read_only(vec![raw[1]]));

    let mut master = Master::new();
    master.add_device(slave);

    let fst = master.read_block(0x68, 0x22, 1).unwrap()[0];
    let snd = master.read_block(0x68, 0x23, 1).unwrap()[0];

    let reconstructed = ((snd as u16) | ((fst as u16) << 8)) as f32 / 10000.0;
    assert_eq!(reconstructed, REAL_TEMP);
}

#[test]
fn basic_write() {
    let mut slave = I2CSlave::new(0x68).unwrap();
    slave.create_register(0x12, Register::new_writeable());

    let mut master = Master::new();
    master.add_device(slave);

    master.write_block(0x68, 0x12, vec![0x23, 0x48]).unwrap();

    let values = master.read_block(0x68, 0x12, 2).unwrap();
    assert_eq!(&*values, [0x23, 0x48]);

    let values = master.read_block(0x68, 0x12, 2).unwrap();
    assert_eq!(&*values, [0x23, 0x48]);

    master.write_block(0x68, 0x12, vec![0x24, 0x58]).unwrap();

    let values = master.read_block(0x68, 0x12, 2).unwrap();
    assert_eq!(&*values, [0x24, 0x58]);
}

#[test]
fn write_then_read_with_two_devices_on_the_bus() {
    let mut slave = I2CSlave::new(0x68).unwrap();
    slave.create_register(0x12, Register::new_writeable());
    let mut other = I2CSlave::new(0x32).unwrap();
    other.create_register(0x12, Register::new_writeable());

    let mut master = Master::new();
    master.add_device(slave);
    master.add_device(other);

    master.write_block(0x68, 0x12, vec![0x01, 0x02, 0x03]).unwrap();
    assert_eq!(master.read_block(0x68, 0x12, 3).unwrap(), vec![0x01, 0x02, 0x03]);
    assert_eq!(master.read_block(0x32, 0x12, 1).unwrap(), vec![0x00]);
}

#[test]
fn fresh_writeable_register_reads_zero() {
    let mut slave = I2CSlave::new(0x10).unwrap();
    slave.create_register(0x01, Register::new_writeable());
    let mut master = Master::new();
    master.add_device(slave);
    assert_eq!(master.read_block(0x10, 0x01, 1).unwrap(), vec![0x00]);
}

#[test]
fn two_devices_at_one_address_are_a_bus_fault() {
    let mut a = I2CSlave::new(0x68).unwrap();
    a.create_register(0x12, read_only(vec![0x01]));
    let mut b = I2CSlave::new(0x68).unwrap();
    b.create_register(0x12, read_only(vec![0x02]));
    let mut master = Master::new();
    master.add_device(a);
    master.add_device(b);
    assert_eq!(master.read_block(0x68, 0x12, 1), Err(BusError::MultipleDrivers));
}

#[test]
fn eight_bit_device_address_is_rejected() {
    assert!(matches!(I2CSlave::new(0x80), Err(BusError::UnsupportedAddress)));
    let mut master = Master::new();
    assert_eq!(master.read_block(0x80, 0x01, 1), Err(BusError::UnsupportedAddress));
    assert_eq!(master.read_block(0x10, 0x81, 1), Err(BusError::UnsupportedAddress));
    assert_eq!(master.write_block(0x90, 0x01, vec![1]), Err(BusError::UnsupportedAddress));
}

#[test]
fn unknown_register_is_a_configuration_error() {
    let mut slave = I2CSlave::new(0x68).unwrap();
    slave.create_register(0x12, Register::new_writeable());
    let mut master = Master::new();
    master.add_device(slave);
    assert_eq!(master.read_block(0x68, 0x13, 1), Err(BusError::UnknownRegister));
}

#[test]
fn nobody_answers_is_a_missing_ack() {
    let mut master = Master::new();
    assert_eq!(master.read_block(0x20, 0x01, 1), Err(BusError::MissingAck));
}

#[test]
fn read_write_bit_in_address_phase_is_a_protocol_error() {
    let mut slave = I2CSlave::new(0x68).unwrap();
    assert_eq!(slave.write_byte(0xd1, LineCondition::Start), Err(BusError::ReadWriteBitSet));
}

#[test]
fn mismatched_repeated_address_is_a_protocol_error() {
    let mut slave = I2CSlave::new(0x68).unwrap();
    slave.create_register(0x12, Register::new_writeable());
    assert_eq!(slave.write_byte(0xd0, LineCondition::Start), Ok(()));
    assert_eq!(slave.read_bit(), Some(false));
    assert_eq!(slave.write_byte(0x12, LineCondition::InProgress), Ok(()));
    assert_eq!(slave.read_bit(), Some(false));
    assert_eq!(slave.write_byte(0xa1, LineCondition::Start), Err(BusError::AddressMismatch));
}

#[test]
fn device_disengages_when_not_addressed() {
    let mut slave = I2CSlave::new(0x68).unwrap();
    slave.create_register(0x12, Register::new_writeable());
    assert_eq!(slave.write_byte(0x20, LineCondition::Start), Ok(()));
    assert_eq!(slave.state(), SlaveState::Idle);
    assert_eq!(slave.read_bit(), None);
    assert_eq!(slave.write_byte(0x12, LineCondition::InProgress), Ok(()));
    assert_eq!(slave.state(), SlaveState::Idle);
    assert_eq!(slave.write_byte(0xd0, LineCondition::Start), Ok(()));
    assert_eq!(slave.state(), SlaveState::WaitingForRegisterAddress);
    assert_eq!(slave.read_byte(), Some(0x00));
}

#[test]
fn empty_block_write_is_a_caller_error() {
    let mut slave = I2CSlave::new(0x68).unwrap();
    slave.create_register(0x12, Register::new_writeable());
    let mut master = Master::new();
    master.add_device(slave);
    assert_eq!(master.write_block(0x68, 0x12, vec![]), Err(BusError::EmptyWrite));
    assert_eq!(master.write_block(0xe8, 0x12, vec![]), Err(BusError::UnsupportedAddress));
    assert_eq!(master.read_block(0x68, 0x12, 1).unwrap(), vec![0x00]);
}

#[test]
fn seven_bit_addresses_are_accepted() {
    for address in [0x00u8, 0x01, 0x68, 0x7f] {
        let slave = I2CSlave::new(address).unwrap();
        assert_eq!(slave.state(), SlaveState::Idle);
    }
}

static VALUE: AtomicU8 = AtomicU8::new(0x10);

/// A populator whose output follows a shared value.
struct Live;

impl Populate for Live {
    fn populate(&self) -> Vec<u8> {
        vec![VALUE.load(Ordering::SeqCst), 0x99]
    }
}

#[test]
fn read_only_register_reflects_populator_each_cycle() {
    let mut slave = I2CSlave::new(0x68).unwrap();
    slave.create_register(0x12, Register::new_read_only(Box::new(Live)));
    let mut master = Master::new();
    master.add_device(slave);
    assert_eq!(master.read_block(0x68, 0x12, 2).unwrap(), vec![0x10, 0x99]);
    assert_eq!(master.read_block(0x68, 0x12, 2).unwrap(), vec![0x10, 0x99]);
    VALUE.store(0x20, Ordering::SeqCst);
    assert_eq!(master.read_block(0x68, 0x12, 3).unwrap(), vec![0x20, 0x99, 0x00]);
}
