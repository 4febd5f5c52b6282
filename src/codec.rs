use vstd::prelude::*;
use byteorder::{ByteOrder, LittleEndian};
use vstd::slice::slice_subrange;

verus! {

/// The thirteen operating modes of the device.
#[derive(Clone, Copy, Debug, PartialEq, Eq, Structural)]
pub enum Mode {
    Config,
    AccelOnly,
    MagOnly,
    GyroOnly,
    AccelMag,
    AccelGyro,
    MagGyro,
    AccelMagGyro,
    Imu,
    Compass,
    M4g,
    NdofFmcOff,
    Ndof,
}

/// The byte written to the mode register for a mode.
pub open spec fn mode_bits(m: Mode) -> u8 {
    match m {
        Mode::Config => 0x00,
        Mode::AccelOnly => 0x01,
        Mode::MagOnly => 0x02,
        Mode::GyroOnly => 0x03,
        Mode::AccelMag => 0x04,
        Mode::AccelGyro => 0x05,
        Mode::MagGyro => 0x06,
        Mode::AccelMagGyro => 0x07,
        Mode::Imu => 0x08,
        Mode::Compass => 0x09,
        Mode::M4g => 0x0A,
        Mode::NdofFmcOff => 0x0B,
        Mode::Ndof => 0x0C,
    }
}

/// The mode that a mode-register byte denotes: the one whose mode-register
/// byte is the byte's low nibble, if there is one.
pub open spec fn mode_of_byte(b: u8) -> Option<Mode> {
    if b % 16 <= 12 {
        Some(choose|m: Mode| mode_bits(m) == b % 16)
    } else {
        None
    }
}

/// Distinct modes have distinct mode-register bytes.
pub proof fn lemma_mode_bits_injective(m1: Mode, m2: Mode)
    ensures
        mode_bits(m1) == mode_bits(m2) ==> m1 == m2,
{
}

/// Fusion modes: those whose output is processed by the onboard fusion firmware.
pub open spec fn is_fusion_mode(m: Mode) -> bool {
    mode_bits(m) >= 8
}

impl Mode {
    /// The mode-register byte for this mode.
    pub fn bits(self) -> (r: u8)
        ensures
            r == mode_bits(self),
            r <= 12,
    {
        match self {
            Mode::Config => 0x00,
            Mode::AccelOnly => 0x01,
            Mode::MagOnly => 0x02,
            Mode::GyroOnly => 0x03,
            Mode::AccelMag => 0x04,
            Mode::AccelGyro => 0x05,
            Mode::MagGyro => 0x06,
            Mode::AccelMagGyro => 0x07,
            Mode::Imu => 0x08,
            Mode::Compass => 0x09,
            Mode::M4g => 0x0A,
            Mode::NdofFmcOff => 0x0B,
            Mode::Ndof => 0x0C,
        }
    }

    /// Decodes a mode-register byte: its low four bits select the mode.
    pub fn from_byte(b: u8) -> (r: Option<Mode>)
        ensures
            r == mode_of_byte(b),
            r.is_none() <==> b % 16 > 12,
    {
        let v: u8 = b & 0x0F;
        assert(v == b % 16) by (bit_vector)
            requires v == b & 0x0F;
        let r = if v == 0 { Some(Mode::Config) }
        else if v == 1 { Some(Mode::AccelOnly) }
        else if v == 2 { Some(Mode::MagOnly) }
        else if v == 3 { Some(Mode::GyroOnly) }
        else if v == 4 { Some(Mode::AccelMag) }
        else if v == 5 { Some(Mode::AccelGyro) }
        else if v == 6 { Some(Mode::MagGyro) }
        else if v == 7 { Some(Mode::AccelMagGyro) }
        else if v == 8 { Some(Mode::Imu) }
        else if v == 9 { Some(Mode::Compass) }
        else if v == 10 { Some(Mode::M4g) }
        else if v == 11 { Some(Mode::NdofFmcOff) }
        else if v == 12 { Some(Mode::Ndof) }
        else { None };
        proof {
            if let Some(m) = r {
                assert(mode_bits(m) == b % 16);
                let c = choose|c: Mode| mode_bits(c) == b % 16;
                lemma_mode_bits_injective(m, c);
            }
        }
        r
    }

    /// Whether the fusion firmware processes the output in this mode.
    pub fn is_fusion(self) -> (r: bool)
        ensures
            r == is_fusion_mode(self),
    {
        self.bits() >= 8
    }
}

/// Encoding a mode and decoding the byte gives the mode back.
pub proof fn lemma_mode_round_trip(m: Mode)
    ensures
        mode_of_byte(mode_bits(m)) == Some(m),
{
    assert(mode_bits(m) % 16 == mode_bits(m));
    let c = choose|c: Mode| mode_bits(c) == mode_bits(m) % 16;
    lemma_mode_bits_injective(m, c);
}

/// Decoding fails exactly on the low-nibble values that name no mode.
pub proof fn lemma_invalid_mode(b: u8)
    ensures
        mode_of_byte(b).is_none() <==> b % 16 > 12,
        mode_of_byte(b) matches Some(m) ==> mode_bits(m) == b % 16,
{
    if b % 16 <= 12 {
        let v = b % 16;
        let m = if v == 0 { Mode::Config } else if v == 1 { Mode::AccelOnly } else if v == 2 { Mode::MagOnly }
            else if v == 3 { Mode::GyroOnly } else if v == 4 { Mode::AccelMag } else if v == 5 { Mode::AccelGyro }
            else if v == 6 { Mode::MagGyro } else if v == 7 { Mode::AccelMagGyro } else if v == 8 { Mode::Imu }
            else if v == 9 { Mode::Compass } else if v == 10 { Mode::M4g } else if v == 11 { Mode::NdofFmcOff }
            else { Mode::Ndof };
        assert(mode_bits(m) == b % 16);
    }
}

/// Calibration levels of the four subsystems, each in 0..=3, 3 meaning
/// fully calibrated.
#[derive(Clone, Copy, Debug, PartialEq, Eq, Structural)]
pub struct CalibrationStatus {
    pub sys: u8,
    pub gyro: u8,
    pub accel: u8,
    pub mag: u8,
}

/// The calibration status that a calibration-register byte holds: system in
/// bits 7-6, gyroscope in 5-4, accelerometer in 3-2, magnetometer in 1-0.
pub open spec fn calibration_of_byte(b: u8) -> CalibrationStatus {
    CalibrationStatus {
        sys: (b / 64) as u8,
        gyro: ((b / 16) % 4) as u8,
        accel: ((b / 4) % 4) as u8,
        mag: (b % 4) as u8,
    }
}

/// All four subsystems report level 3.
pub open spec fn fully_calibrated(c: CalibrationStatus) -> bool {
    c.sys == 3 && c.gyro == 3 && c.accel == 3 && c.mag == 3
}

impl CalibrationStatus {
    /// Splits a calibration-register byte into its four 2-bit fields.
    pub fn from_byte(b: u8) -> (r: CalibrationStatus)
        ensures
            r == calibration_of_byte(b),
            r.sys <= 3 && r.gyro <= 3 && r.accel <= 3 && r.mag <= 3,
    {
        let sys: u8 = (b >> 6) & 0x03;
        let gyro: u8 = (b >> 4) & 0x03;
        let accel: u8 = (b >> 2) & 0x03;
        let mag: u8 = b & 0x03;
        assert(sys == b / 64 && gyro == (b / 16) % 4 && accel == (b / 4) % 4 && mag == b % 4)
            by (bit_vector)
            requires
                sys == (b >> 6) & 0x03,
                gyro == (b >> 4) & 0x03,
                accel == (b >> 2) & 0x03,
                mag == b & 0x03,
        ;
        CalibrationStatus { sys, gyro, accel, mag }
    }

    /// True iff all four fields are 3.
    pub fn is_fully_calibrated(&self) -> (r: bool)
        ensures
            r == fully_calibrated(*self),
    {
        self.sys == 3 && self.gyro == 3 && self.accel == 3 && self.mag == 3
    }
}

/// A calibration byte reports full calibration exactly when every bit is set.
pub proof fn lemma_fully_calibrated_byte(b: u8)
    ensures
        fully_calibrated(calibration_of_byte(b)) <==> b == 0xFF,
{
    let c = calibration_of_byte(b);
    if fully_calibrated(c) {
        assert(b == 64 * (b / 64) + 16 * ((b / 16) % 4) + 4 * ((b / 4) % 4) + b % 4);
    }
}

/// The signed 16-bit value of two bytes in little-endian order.
pub open spec fn i16_le(lo: u8, hi: u8) -> int {
    let u = lo as int + 256 * hi as int;
    if u < 0x8000 { u } else { u - 0x10000 }
}

/// A triple of raw axis readings.
#[derive(Clone, Copy, Debug, PartialEq, Eq, Structural)]
pub struct RawVector {
    pub x: i16,
    pub y: i16,
    pub z: i16,
}

/// The axis readings that a 6-byte register block holds.
pub open spec fn vector_of_bytes(b: Seq<u8>) -> RawVector
    recommends
        b.len() == 6,
{
    RawVector {
        x: i16_le(b[0], b[1]) as i16,
        y: i16_le(b[2], b[3]) as i16,
        z: i16_le(b[4], b[5]) as i16,
    }
}

/// Relies on byteorder's `LittleEndian::read_i16`: the first two bytes read
/// as a little-endian signed 16-bit integer (it panics on fewer than two).
#[verifier::external_body]
fn read_i16_le(buf: &[u8]) -> (r: i16)
    requires
        buf@.len() >= 2,
    ensures
        r as int == i16_le(buf@[0], buf@[1]),
{
    LittleEndian::read_i16(buf)
}

/// Decodes three little-endian signed 16-bit axis readings from a 6-byte block.
pub fn decode_vector(buf: &[u8]) -> (r: RawVector)
    requires
        buf@.len() == 6,
    ensures
        r == vector_of_bytes(buf@),
{
    let x = read_i16_le(slice_subrange(buf, 0, 2));
    let y = read_i16_le(slice_subrange(buf, 2, 4));
    let z = read_i16_le(slice_subrange(buf, 4, 6));
    RawVector { x, y, z }
}

} // verus!
