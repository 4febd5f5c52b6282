use vstd::prelude::*;

verus! {

/// Value read back from the chip-identity register of this device family.
pub const CHIP_ID: u8 = 0xFB;

/// Chip-identity register.
pub const ID_REGISTER: u8 = 0x00;
/// Register page selector.
pub const PAGE_REGISTER: u8 = 0x07;
/// Accelerometer data block (page 0): six bytes, little-endian x/y/z.
pub const ACCEL_DATA_REGISTER: u8 = 0x08;
/// Accelerometer configuration (page 1).
pub const ACCEL_CONFIG_REGISTER: u8 = 0x08;
/// Magnetometer configuration (page 1).
pub const MAGNET_CONFIG_REGISTER: u8 = 0x09;
/// Gyroscope configuration 0 (page 1).
pub const GYRO_CONFIG_0_REGISTER: u8 = 0x0A;
/// Gyroscope configuration 1 (page 1).
pub const GYRO_CONFIG_1_REGISTER: u8 = 0x0B;
/// Temperature, one byte.
pub const TEMPERATURE_REGISTER: u8 = 0x34;
/// Calibration status: four 2-bit fields.
pub const CALIBRATION_REGISTER: u8 = 0x35;
/// Operating mode; the low four bits hold the mode.
pub const MODE_REGISTER: u8 = 0x3D;
/// Power mode.
pub const POWER_REGISTER: u8 = 0x3E;
/// System trigger.
pub const TRIGGER_REGISTER: u8 = 0x3F;
/// Axis remap configuration.
pub const AXIS_MAP_CONFIG_REGISTER: u8 = 0x41;
/// Axis remap signs.
pub const AXIS_MAP_SIGN_REGISTER: u8 = 0x42;

/// Reset bit of the system-trigger register.
pub const TRIGGER_RESET: u8 = 0x20;
/// Crystal-select bit of the system-trigger register.
pub const TRIGGER_EXTERNAL_CRYSTAL: u8 = 0x80;

/// Power register values.
pub const POWER_NORMAL: u8 = 0x00;
pub const POWER_LOW: u8 = 0x01;
pub const POWER_SUSPEND: u8 = 0x02;

/// Register pages.
pub const PAGE_0: u8 = 0x00;
pub const PAGE_1: u8 = 0x01;

/// Accelerometer range codes (low two bits of the accelerometer configuration).
pub const ACCEL_2G: u8 = 0x00;
pub const ACCEL_4G: u8 = 0x01;
pub const ACCEL_8G: u8 = 0x02;
pub const ACCEL_16G: u8 = 0x03;

/// Gyroscope range codes.
pub const GYRO_2000_DPS: u8 = 0x00;
pub const GYRO_1000_DPS: u8 = 0x01;
pub const GYRO_500_DPS: u8 = 0x02;
pub const GYRO_250_DPS: u8 = 0x03;
pub const GYRO_125_DPS: u8 = 0x04;

/// Magnetometer output-rate codes.
pub const MAGNET_2HZ: u8 = 0x00;
pub const MAGNET_6HZ: u8 = 0x01;
pub const MAGNET_8HZ: u8 = 0x02;
pub const MAGNET_10HZ: u8 = 0x03;
pub const MAGNET_15HZ: u8 = 0x04;
pub const MAGNET_20HZ: u8 = 0x05;
pub const MAGNET_25HZ: u8 = 0x06;
pub const MAGNET_30HZ: u8 = 0x07;

/// Bus timeout for each transaction, in ticks of the transport.
pub const BUS_TIMEOUT: u32 = 1000;

/// Settling delays, in milliseconds.
pub const MODE_SWITCH_DELAY_MS: u32 = 30;
pub const RESET_DELAY_MS: u32 = 80;
pub const SETTLE_DELAY_MS: u32 = 10;

/// A register address paired with nothing else: a read-only register.
pub struct ReadOnlyStruct {
    pub register_address: u8,
}

impl ReadOnlyStruct {
    pub fn new(register_address: u8) -> (r: Self)
        ensures
            r.register_address == register_address,
    {
        ReadOnlyStruct { register_address }
    }
}

} // verus!
