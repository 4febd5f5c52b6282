use std::cell::RefCell;
use std::rc::Rc;

use bno055::codec::{decode_vector, CalibrationStatus, Mode, RawVector};
use bno055::bus::{BusError, TracedBus, Transport};
use bno055::device::{Bno055, Error};
use bno055::registers::{
    ReadOnlyStruct, ACCEL_CONFIG_REGISTER, ACCEL_DATA_REGISTER, CALIBRATION_REGISTER, CHIP_ID,
    ID_REGISTER, MODE_REGISTER, PAGE_REGISTER, POWER_REGISTER, TEMPERATURE_REGISTER,
    TRIGGER_REGISTER,
};

struct State {
    regs: [[u8; 256]; 2],
    page: usize,
    writes: Vec<(u8, u8)>,
    delays: Vec<u32>,
    fail_write_to: Option<u8>,
    fail_read_of: Option<u8>,
}

#[derive(Clone)]
struct MockBus(Rc<RefCell<State>>);

impl MockBus {
    fn new() -> MockBus {
        let mut regs = [[0u8; 256]; 2];
        regs[0][ID_REGISTER as usize] = CHIP_ID;
        MockBus(Rc::new(RefCell::new(State {
            regs,
            page: 0,
            writes: Vec::new(),
            delays: Vec::new(),
            fail_write_to: None,
            fail_read_of: None,
        })))
    }

    fn set(&self, page: usize, reg: u8, value: u8) {
        self.0.borrow_mut().regs[page][reg as usize] = value;
    }

    fn writes(&self) -> Vec<(u8, u8)> {
        self.0.borrow().writes.clone()
    }
}

impl Transport for MockBus {
    fn write(&mut self, _address: u8, bytes: &[u8], _timeout: u32) -> Result<(), BusError> {
        let mut s = self.0.borrow_mut();
        s.writes.push((bytes[0], bytes[1]));
        if s.fail_write_to == Some(bytes[0]) {
            return Err(BusError { code: -1 });
        }
        if bytes[0] == PAGE_REGISTER {
            s.page = bytes[1] as usize;
        } else {
            let page = s.page;
            s.regs[page][bytes[0] as usize] = bytes[1];
        }
        Ok(())
    }

    fn write_read(&mut self, _address: u8, bytes: &[u8], buffer: &mut [u8], _timeout: u32) -> Result<(), BusError> {
        let s = self.0.borrow();
        if s.fail_read_of == Some(bytes[0]) {
            return Err(BusError { code: -2 });
        }
        for (i, b) in buffer.iter_mut().enumerate() {
            *b = s.regs[s.page][bytes[0] as usize + i];
        }
        Ok(())
    }

    fn delay_ms(&mut self, ms: u32) {
        self.0.borrow_mut().delays.push(ms);
    }
}

fn opened() -> (MockBus, Bno055<TracedBus<MockBus>>) {
    let bus = MockBus::new();
    let dev = Bno055::new(TracedBus::new(bus.clone()), 0x28).ok().expect("init");
    bus.0.borrow_mut().writes.clear();
    (bus, dev)
}

const ALL_MODES: [Mode; 13] = [
    Mode::Config,
    Mode::AccelOnly,
    Mode::MagOnly,
    Mode::GyroOnly,
    Mode::AccelMag,
    Mode::AccelGyro,
    Mode::MagGyro,
    Mode::AccelMagGyro,
    Mode::Imu,
    Mode::Compass,
    Mode::M4g,
    Mode::NdofFmcOff,
    Mode::Ndof,
];

#[test]
fn init_sequence_on_matching_chip() {
    let bus = MockBus::new();
    let dev = Bno055::new(TracedBus::new(bus.clone()), 0x28).ok().expect("init");
    assert_eq!(dev.current_mode(), Mode::Ndof);
    assert_eq!(dev.current_page(), 0);
    assert_eq!(
        bus.writes(),
        vec![
            (PAGE_REGISTER, 0),
            (MODE_REGISTER, 0),
            (TRIGGER_REGISTER, 0x20),
            (POWER_REGISTER, 0),
            (PAGE_REGISTER, 0),
            (TRIGGER_REGISTER, 0),
            (MODE_REGISTER, 0x0C),
        ]
    );
    assert_eq!(bus.0.borrow().delays, vec![30, 80, 10, 10, 30]);
}

#[test]
fn chip_id_gate_rejects_other_ids() {
    for id in [0x00u8, 0x01, 0xA0, 0xFA, 0xFC, 0xFF] {
        let bus = MockBus::new();
        bus.set(0, ID_REGISTER, id);
        let r = Bno055::new(TracedBus::new(bus.clone()), 0x28);
        assert!(matches!(r, Err((Error::UnexpectedChipId(x), _)) if x == id));
        assert_eq!(bus.writes(), vec![(PAGE_REGISTER, 0)]);
    }
}

#[test]
fn init_reports_bus_failure() {
    let bus = MockBus::new();
    bus.0.borrow_mut().fail_read_of = Some(ID_REGISTER);
    let r = Bno055::new(TracedBus::new(bus.clone()), 0x28);
    assert!(matches!(r, Err((Error::Bus(BusError { code: -2 }), _))));
}

#[test]
fn open_into_requested_mode() {
    let bus = MockBus::new();
    let dev = Bno055::open(TracedBus::new(bus.clone()), 0x29, Mode::Imu).ok().expect("init");
    assert_eq!(dev.current_mode(), Mode::Imu);
    assert_eq!(bus.writes().last(), Some(&(MODE_REGISTER, 0x08)));
}

#[test]
fn mode_round_trip_for_every_mode() {
    let (_bus, mut dev) = opened();
    for m in ALL_MODES {
        dev.set_mode(m).expect("set");
        assert_eq!(dev.get_mode().expect("get"), m);
        assert_eq!(dev.current_mode(), m);
    }
}

#[test]
fn mode_codec_round_trip() {
    for (i, m) in ALL_MODES.iter().enumerate() {
        assert_eq!(m.bits() as usize, i);
        assert_eq!(Mode::from_byte(m.bits()), Some(*m));
        assert_eq!(Mode::from_byte(m.bits() | 0xF0), Some(*m));
    }
    assert!(Mode::Ndof.is_fusion());
    assert!(Mode::Imu.is_fusion());
    assert!(!Mode::AccelMagGyro.is_fusion());
}

#[test]
fn invalid_mode_decode() {
    let (bus, mut dev) = opened();
    for (byte, nibble) in [(0x0Du8, 13u8), (0x0E, 14), (0x0F, 15), (0xFD, 13)] {
        bus.set(0, MODE_REGISTER, byte);
        assert_eq!(dev.get_mode(), Err(Error::InvalidMode(nibble)));
    }
    bus.set(0, MODE_REGISTER, 0x7C);
    assert_eq!(dev.get_mode(), Ok(Mode::Ndof));
}

#[test]
fn failed_mode_write_keeps_mode() {
    let (bus, mut dev) = opened();
    bus.0.borrow_mut().fail_write_to = Some(MODE_REGISTER);
    assert!(matches!(dev.set_mode(Mode::Config), Err(Error::Bus(_))));
    assert_eq!(dev.current_mode(), Mode::Ndof);
}

#[test]
fn calibration_decode() {
    let c = CalibrationStatus::from_byte(0b11_10_01_00);
    assert_eq!(c, CalibrationStatus { sys: 3, gyro: 2, accel: 1, mag: 0 });
    let (bus, mut dev) = opened();
    bus.set(0, CALIBRATION_REGISTER, 0b11_10_01_00);
    assert_eq!(dev.get_calibration_status(), Ok(CalibrationStatus { sys: 3, gyro: 2, accel: 1, mag: 0 }));
}

#[test]
fn full_calibration() {
    assert!(CalibrationStatus::from_byte(0xFF).is_fully_calibrated());
    assert!(!CalibrationStatus { sys: 3, gyro: 3, accel: 3, mag: 2 }.is_fully_calibrated());
    assert!(!CalibrationStatus::from_byte(0xFE).is_fully_calibrated());
    assert!(!CalibrationStatus::from_byte(0x3F).is_fully_calibrated());
    let (bus, mut dev) = opened();
    bus.set(0, CALIBRATION_REGISTER, 0xFF);
    assert_eq!(dev.is_calibrated(), Ok(true));
    bus.set(0, CALIBRATION_REGISTER, 0b11_11_11_10);
    assert_eq!(dev.is_calibrated(), Ok(false));
    bus.0.borrow_mut().fail_read_of = Some(CALIBRATION_REGISTER);
    assert!(matches!(dev.is_calibrated(), Err(Error::Bus(_))));
}

#[test]
fn vector_decode_and_scale() {
    let raw = [0x64u8, 0x00, 0x00, 0x01, 0xFF, 0xFF];
    assert_eq!(decode_vector(&raw), RawVector { x: 100, y: 256, z: -1 });
    let (bus, mut dev) = opened();
    for (i, b) in raw.iter().enumerate() {
        bus.set(0, ACCEL_DATA_REGISTER + i as u8, *b);
    }
    let v = dev.read_accel().expect("read");
    assert_eq!(v, RawVector { x: 100, y: 256, z: -1 });
    let scaled = (v.x as f32 / 100.0, v.y as f32 / 100.0, v.z as f32 / 100.0);
    assert!((scaled.0 - 1.00).abs() < 1e-6);
    assert!((scaled.1 - 2.56).abs() < 1e-6);
    assert!((scaled.2 + 0.01).abs() < 1e-6);
}

#[test]
fn vector_decode_extremes() {
    assert_eq!(
        decode_vector(&[0x00, 0x80, 0xFF, 0x7F, 0x00, 0x00]),
        RawVector { x: i16::MIN, y: i16::MAX, z: 0 }
    );
}

#[test]
fn temperature_read() {
    let (bus, mut dev) = opened();
    bus.set(0, TEMPERATURE_REGISTER, 24);
    assert_eq!(dev.read_temperature(), Ok(24));
}

#[test]
fn crystal_toggle_restores_mode() {
    let (bus, mut dev) = opened();
    dev.set_external_crystal(true).expect("set");
    assert_eq!(
        bus.writes(),
        vec![
            (MODE_REGISTER, 0x00),
            (PAGE_REGISTER, 0),
            (TRIGGER_REGISTER, 0x80),
            (MODE_REGISTER, 0x0C),
        ]
    );
    assert_eq!(dev.get_external_crystal(), Ok(true));
    dev.set_external_crystal(false).expect("set");
    assert_eq!(dev.get_external_crystal(), Ok(false));
    assert_eq!(dev.current_mode(), Mode::Ndof);
}

#[test]
fn crystal_toggle_restores_mode_after_failure() {
    let (bus, mut dev) = opened();
    bus.0.borrow_mut().fail_write_to = Some(TRIGGER_REGISTER);
    let r = dev.set_external_crystal(true);
    assert!(matches!(r, Err(Error::Bus(BusError { code: -1 }))));
    let writes = bus.writes();
    assert_eq!(writes.last(), Some(&(MODE_REGISTER, 0x0C)));
    assert_eq!(dev.current_mode(), Mode::Ndof);
}

#[test]
fn crystal_read_restores_mode_after_failure() {
    let (bus, mut dev) = opened();
    bus.0.borrow_mut().fail_read_of = Some(TRIGGER_REGISTER);
    assert!(matches!(dev.get_external_crystal(), Err(Error::Bus(_))));
    assert_eq!(bus.writes().last(), Some(&(MODE_REGISTER, 0x0C)));
}

#[test]
fn accel_range_restores_page() {
    let (bus, mut dev) = opened();
    bus.set(1, ACCEL_CONFIG_REGISTER, 0b0000_1110);
    assert_eq!(dev.get_accel_range(), Ok(2));
    assert_eq!(bus.0.borrow().page, 0);
    assert_eq!(dev.current_page(), 0);
    assert_eq!(bus.writes(), vec![(PAGE_REGISTER, 1), (PAGE_REGISTER, 0)]);
}

#[test]
fn accel_range_restores_page_after_failure() {
    let (bus, mut dev) = opened();
    bus.0.borrow_mut().fail_read_of = Some(ACCEL_CONFIG_REGISTER);
    assert!(matches!(dev.get_accel_range(), Err(Error::Bus(_))));
    assert_eq!(bus.0.borrow().page, 0);
    assert_eq!(bus.writes().last(), Some(&(PAGE_REGISTER, 0)));
}

#[test]
fn power_and_reset_writes() {
    let (bus, mut dev) = opened();
    dev.set_suspend_mode().expect("suspend");
    dev.set_normal_mode().expect("normal");
    dev.reset().expect("reset");
    assert_eq!(dev.current_mode(), Mode::Config);
    assert_eq!(
        bus.writes(),
        vec![(POWER_REGISTER, 0x02), (POWER_REGISTER, 0x00), (TRIGGER_REGISTER, 0x20)]
    );
}

#[test]
fn read_register_and_page() {
    let (bus, mut dev) = opened();
    bus.set(0, 0x42, 0x24);
    assert_eq!(dev.read_register(0x42), Ok(0x24));
    dev.set_page(1).expect("page");
    assert_eq!(dev.current_page(), 1);
}

#[test]
fn read_only_register() {
    let r = ReadOnlyStruct::new(0x34);
    assert_eq!(r.register_address, 0x34);
}

#[test]
fn accel_range_write_keeps_other_bits() {
    let (bus, mut dev) = opened();
    bus.set(1, ACCEL_CONFIG_REGISTER, 0b0000_1101);
    dev.set_accel_range(2).expect("set");
    assert_eq!(bus.0.borrow().regs[1][ACCEL_CONFIG_REGISTER as usize], 0b0000_1110);
    assert_eq!(
        bus.writes(),
        vec![(PAGE_REGISTER, 1), (ACCEL_CONFIG_REGISTER, 0b0000_1110), (PAGE_REGISTER, 0)]
    );
    assert_eq!(dev.current_page(), 0);
}

#[test]
fn accel_range_write_restores_page_after_failure() {
    let (bus, mut dev) = opened();
    bus.0.borrow_mut().fail_write_to = Some(ACCEL_CONFIG_REGISTER);
    assert!(matches!(dev.set_accel_range(3), Err(Error::Bus(_))));
    assert_eq!(bus.0.borrow().page, 0);
    assert_eq!(bus.writes().last(), Some(&(PAGE_REGISTER, 0)));
}

#[test]
fn transport_error_is_returned_unchanged() {
    let (bus, mut dev) = opened();
    bus.0.borrow_mut().fail_read_of = Some(MODE_REGISTER);
    assert_eq!(dev.get_mode(), Err(Error::Bus(BusError { code: -2 })));
    assert_eq!(dev.read_register(MODE_REGISTER), Err(Error::Bus(BusError { code: -2 })));
    bus.0.borrow_mut().fail_read_of = Some(ACCEL_DATA_REGISTER);
    assert_eq!(dev.read_accel(), Err(Error::Bus(BusError { code: -2 })));
    bus.0.borrow_mut().fail_write_to = Some(MODE_REGISTER);
    assert_eq!(dev.set_mode(Mode::Imu), Err(Error::Bus(BusError { code: -1 })));
    assert_eq!(dev.current_mode(), Mode::Ndof);
}
