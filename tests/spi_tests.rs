use i2cem::{MasterCore, Populate, Register, SlaveCore};
use std::collections::HashMap;

struct Fixed(Vec<u8>);

impl Populate for Fixed {
    fn populate(&self) -> Vec<u8> {
        self.0.clone()
    }
}

/// The lines between master and slave, kept across transfers.
struct Link {
    master: MasterCore<u32>,
    slave: SlaveCore,
    clock: bool,
    cs: bool,
    mosi: bool,
    miso: bool,
}

impl Link {
    fn new(slave: SlaveCore) -> Link {
        Link { master: MasterCore::new(), slave, clock: false, cs: true, mosi: false, miso: false }
    }

    /// Runs master and slave tick by tick, as the driver and reactor
    /// threads would, until the master fires the wake `token`.
    fn run_until_wake(&mut self, token: u32) {
        for _ in 0..10_000 {
            self.clock = !self.clock;
            let mut woken = false;
            if !self.clock {
                let action = self.master.handle_low_level(self.miso);
                if let Some(level) = action.cs {
                    self.cs = level;
                }
                if let Some(bit) = action.mosi {
                    self.mosi = bit;
                }
                woken = action.wake == Some(token);
            }
            if let Some(bit) = self.slave.observe(self.clock, self.cs, self.mosi) {
                self.miso = bit;
            }
            if woken {
                return;
            }
        }
        panic!("the wake never fired");
    }

    fn write_register(&mut self, reg: u8, bytes: Vec<u8>, token: u32) {
        self.master.enqueue_write(reg, &bytes, token);
        self.run_until_wake(token);
    }

    fn read_register(&mut self, reg: u8, count: usize, token: u32) -> Vec<u8> {
        self.master.enqueue_read(reg, count, token);
        self.run_until_wake(token);
        self.master.take_bytes(count)
    }
}

#[test]
fn basic_spi_write() {
    let mut link = Link::new(SlaveCore::new(HashMap::from([(0x15, Register::new_writeable())])));
    link.write_register(0x15, vec![0x21], 1);
    assert_eq!(link.read_register(0x15, 1, 2), vec![0x21]);
}

#[test]
fn basic_spi_write_readonly_register() {
    let mut link = Link::new(SlaveCore::new(HashMap::from([(
        0x15,
        Register::new_read_only(Box::new(Fixed(vec![0x21, 0x59]))),
    )])));
    assert_eq!(link.read_register(0x15, 2, 7), vec![0x21, 0x59]);
    assert_eq!(link.read_register(0x15, 2, 8), vec![0x21, 0x59]);
}

#[test]
fn spi_unknown_register_is_ignored() {
    let mut link = Link::new(SlaveCore::new(HashMap::from([(0x15, Register::new_writeable())])));
    link.write_register(0x16, vec![0x44], 1);
    assert_eq!(link.read_register(0x15, 1, 2), vec![0x00]);
}

#[test]
fn spi_two_byte_write_round_trip() {
    let mut link = Link::new(SlaveCore::new(HashMap::from([(0x03, Register::new_writeable())])));
    link.write_register(0x03, vec![0xab, 0xcd], 1);
    assert_eq!(link.read_register(0x03, 2, 2), vec![0xab, 0xcd]);
    assert_eq!(link.read_register(0x03, 2, 3), vec![0xab, 0xcd]);
}

#[test]
fn master_step_fires_wake_and_releases_chip_select() {
    let mut master: MasterCore<u32> = MasterCore::new();
    master.enqueue_write(0x01, &vec![], 9);
    let mut fired = None;
    let mut last_cs = None;
    for _ in 0..20 {
        let action = master.handle_low_level(false);
        if action.wake.is_some() {
            fired = action.wake;
            last_cs = action.cs;
            break;
        }
    }
    assert_eq!(fired, Some(9));
    assert_eq!(last_cs, Some(true));
}

#[test]
fn take_bytes_stops_when_empty() {
    let mut master: MasterCore<u32> = MasterCore::new();
    assert_eq!(master.take_bytes(3), Vec::<u8>::new());
}

#[test]
fn live_wire_pull_flip_read() {
    let wire = i2cem::LiveWire::new();
    assert!(!wire.read());
    wire.flip();
    assert!(wire.read());
    wire.pull(false);
    assert!(!wire.read());
    wire.pull(true);
    wire.flip();
    assert!(!wire.read());
}

#[test]
fn clock_tick_flips_line_and_releases_a_waiter() {
    let clock = i2cem::Clock::new();
    assert!(!clock.get_line_value());
    clock.tick();
    assert!(clock.get_clock());
    clock.tick();
    assert!(!clock.get_clock());
}

#[test]
fn medium_starts_deselected() {
    let medium = i2cem::SpiMedium::new();
    assert!(medium.cs_select.read());
    assert!(!medium.mosi.read());
    assert!(!medium.clock.get_line_value());
}

#[test]
fn master_does_nothing_while_clock_is_high() {
    let mut master: MasterCore<u32> = MasterCore::new();
    master.enqueue_write(0x01, &vec![0xff], 4);
    let action = master.on_tick(true, false);
    assert_eq!((action.cs, action.mosi, action.wake), (None, None, None));
    let action = master.on_tick(false, false);
    assert_eq!(action.cs, Some(false));
    assert_eq!(action.mosi, Some(false));
}
