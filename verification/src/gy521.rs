//! Configuration and raw-data interpretation for the GY-521 inertial
//! sensor.
//!
//! The register bus itself is hardware work outside this library.  What
//! lives here is everything that can be checked: the configuration values
//! the chip's registers take, the sample delay its low-pass filter
//! implies, and the big-endian decoding and calibration of raw readings.
//! Turning calibrated readings into floating-point g and degree-per-second
//! units stays with the driver shell.

use vstd::prelude::*;

verus! {

/// The chip's digital low-pass filter settings, by cutoff frequency.
#[allow(non_camel_case_types)]
#[derive(Clone, Copy, Debug, PartialEq, Eq, Structural)]
pub enum Dlpf {
    Hz_256,
    Hz_188,
    Hz_98,
    Hz_42,
    Hz_20,
    Hz_10,
    Hz_5,
}

/// The gyroscope's full-range scale selections, in degrees per second.
#[allow(non_camel_case_types)]
#[derive(Clone, Copy, Debug, PartialEq, Eq, Structural)]
pub enum GFullRangeScale {
    Sel_250,
    Sel_500,
    Sel_1000,
    Sel_2000,
}

/// The accelerometer's full-range scale selections, in g.
#[allow(non_camel_case_types)]
#[derive(Clone, Copy, Debug, PartialEq, Eq, Structural)]
pub enum AFullRangeScale {
    Sel_2g,
    Sel_4g,
    Sel_8g,
    Sel_16g,
}

/// The byte the chip's low-pass-filter configuration register takes.
pub open spec fn spec_dlpf_register(d: Dlpf) -> u8 {
    match d {
        Dlpf::Hz_256 => 0,
        Dlpf::Hz_188 => 1,
        Dlpf::Hz_98 => 2,
        Dlpf::Hz_42 => 3,
        Dlpf::Hz_20 => 4,
        Dlpf::Hz_10 => 5,
        Dlpf::Hz_5 => 6,
    }
}

/// The byte the gyroscope configuration register takes: the selection
/// index shifted left by three.
pub open spec fn spec_gfs_register(g: GFullRangeScale) -> u8 {
    match g {
        GFullRangeScale::Sel_250 => 0,
        GFullRangeScale::Sel_500 => 8,
        GFullRangeScale::Sel_1000 => 16,
        GFullRangeScale::Sel_2000 => 24,
    }
}

/// The byte the accelerometer configuration register takes: the selection
/// index shifted left by three.
pub open spec fn spec_afs_register(a: AFullRangeScale) -> u8 {
    match a {
        AFullRangeScale::Sel_2g => 0,
        AFullRangeScale::Sel_4g => 8,
        AFullRangeScale::Sel_8g => 16,
        AFullRangeScale::Sel_16g => 24,
    }
}

impl Dlpf {
    /// The byte the driver writes into the low-pass-filter register.
    pub fn register_value(self) -> (r: u8)
        ensures
            r == spec_dlpf_register(self),
            r < 7,
    {
        match self {
            Dlpf::Hz_256 => 0,
            Dlpf::Hz_188 => 1,
            Dlpf::Hz_98 => 2,
            Dlpf::Hz_42 => 3,
            Dlpf::Hz_20 => 4,
            Dlpf::Hz_10 => 5,
            Dlpf::Hz_5 => 6,
        }
    }
}

impl GFullRangeScale {
    /// The byte the driver writes into the gyroscope configuration
    /// register.
    pub fn register_value(self) -> (r: u8)
        ensures
            r == spec_gfs_register(self),
    {
        match self {
            GFullRangeScale::Sel_250 => 0,
            GFullRangeScale::Sel_500 => 8,
            GFullRangeScale::Sel_1000 => 16,
            GFullRangeScale::Sel_2000 => 24,
        }
    }
}

impl AFullRangeScale {
    /// The byte the driver writes into the accelerometer configuration
    /// register.
    pub fn register_value(self) -> (r: u8)
        ensures
            r == spec_afs_register(self),
    {
        match self {
            AFullRangeScale::Sel_2g => 0,
            AFullRangeScale::Sel_4g => 8,
            AFullRangeScale::Sel_8g => 16,
            AFullRangeScale::Sel_16g => 24,
        }
    }
}

/// The sensor configuration the driver writes at initialization.
#[derive(Clone, Copy, Debug, PartialEq, Eq, Structural)]
pub struct Config {
    pub dlpf: Dlpf,
    pub a_fs: AFullRangeScale,
    pub g_fs: GFullRangeScale,
}

impl Config {
    /// The configuration with the accelerometer scale replaced.
    pub fn set_afs(self, afs: AFullRangeScale) -> (r: Self)
        ensures
            r.a_fs == afs,
            r.dlpf == self.dlpf,
            r.g_fs == self.g_fs,
    {
        let mut c = self;
        c.a_fs = afs;
        c
    }

    /// The configuration with the gyroscope scale replaced.
    pub fn set_gfs(self, gfs: GFullRangeScale) -> (r: Self)
        ensures
            r.g_fs == gfs,
            r.dlpf == self.dlpf,
            r.a_fs == self.a_fs,
    {
        let mut c = self;
        c.g_fs = gfs;
        c
    }

    /// The configuration with the low-pass filter replaced.
    pub fn set_dlpf(self, dlpf: Dlpf) -> (r: Self)
        ensures
            r.dlpf == dlpf,
            r.a_fs == self.a_fs,
            r.g_fs == self.g_fs,
    {
        let mut c = self;
        c.dlpf = dlpf;
        c
    }

    /// Raw accelerometer counts per g for this configuration.
    pub fn accel_scale(self) -> (r: u16)
        ensures
            r == spec_accel_scale(self.a_fs),
    {
        match self.a_fs {
            AFullRangeScale::Sel_2g => 16384,
            AFullRangeScale::Sel_4g => 8192,
            AFullRangeScale::Sel_8g => 4096,
            AFullRangeScale::Sel_16g => 2048,
        }
    }

    /// Ten times the raw gyroscope counts per degree per second for this
    /// configuration — the chip's table holds halves and tenths, so the
    /// exact value is kept as an integer in tenths.
    pub fn gyro_scale_tenths(self) -> (r: u16)
        ensures
            r == spec_gyro_scale_tenths(self.g_fs),
    {
        match self.g_fs {
            GFullRangeScale::Sel_250 => 1310,
            GFullRangeScale::Sel_500 => 655,
            GFullRangeScale::Sel_1000 => 328,
            GFullRangeScale::Sel_2000 => 164,
        }
    }
}

/// Raw accelerometer counts per g.
pub open spec fn spec_accel_scale(a: AFullRangeScale) -> u16 {
    match a {
        AFullRangeScale::Sel_2g => 16384,
        AFullRangeScale::Sel_4g => 8192,
        AFullRangeScale::Sel_8g => 4096,
        AFullRangeScale::Sel_16g => 2048,
    }
}

/// Ten times the raw gyroscope counts per degree per second.
pub open spec fn spec_gyro_scale_tenths(g: GFullRangeScale) -> u16 {
    match g {
        GFullRangeScale::Sel_250 => 1310,
        GFullRangeScale::Sel_500 => 655,
        GFullRangeScale::Sel_1000 => 328,
        GFullRangeScale::Sel_2000 => 164,
    }
}

impl Default for Config {
    /// The configuration the firmware starts from: a 20 Hz low-pass
    /// filter, 8 g accelerometer range and 1000 degree-per-second
    /// gyroscope range.
    fn default() -> (r: Self)
        ensures
            r.dlpf == Dlpf::Hz_20,
            r.a_fs == AFullRangeScale::Sel_8g,
            r.g_fs == GFullRangeScale::Sel_1000,
    {
        Config { dlpf: Dlpf::Hz_20, a_fs: AFullRangeScale::Sel_8g, g_fs: GFullRangeScale::Sel_1000 }
    }
}

/// Microseconds to wait between samples for a low-pass-filter code read
/// back from the chip's configuration register (only its low three bits
/// name the filter).
pub open spec fn spec_dlpf_delay_micros(code: u8) -> u32 {
    if code == 0 {
        0
    } else if code == 1 {
        2000
    } else if code == 2 {
        3000
    } else if code == 3 {
        4900
    } else if code == 4 {
        8500
    } else if code == 5 {
        13800
    } else {
        19000
    }
}

/// The sample delay the chip's current low-pass filter implies, from the
/// register byte the driver read back.  Code 7 names no filter — on it
/// the firmware halts and asks for initialization — so it is excluded.
pub fn dlpf_delay_micros(register: u8) -> (r: u32)
    requires
        register & 7 != 7,
    ensures
        r == spec_dlpf_delay_micros(register & 7),
{
    let code: u8 = register & 7;
    proof {
        assert(register & 7 < 8) by (bit_vector);
    }
    if code == 0 {
        0
    } else if code == 1 {
        2000
    } else if code == 2 {
        3000
    } else if code == 3 {
        4900
    } else if code == 4 {
        8500
    } else if code == 5 {
        13800
    } else {
        19000
    }
}

/// The signed reading two big-endian bytes of a sensor register pair
/// carry.
pub open spec fn spec_be_i16(hi: u8, lo: u8) -> int {
    let v = hi * 256 + lo;
    if v >= 0x8000 {
        v - 0x10000
    } else {
        v
    }
}

/// Decode one axis reading from its two register bytes.
pub fn be_i16(hi: u8, lo: u8) -> (r: i16)
    ensures
        r as int == spec_be_i16(hi, lo),
{
    let v: i32 = (hi as i32) * 256 + (lo as i32);
    let s: i32 = if v >= 0x8000 {
        v - 0x10000
    } else {
        v
    };
    s as i16
}

/// A decoded axis with its calibration offset subtracted; when the
/// subtraction leaves the sensor's range it saturates away from the
/// offset's sign.
pub open spec fn spec_calibrated_axis(hi: u8, lo: u8, offset: i16) -> int {
    let d = spec_be_i16(hi, lo) - offset;
    if -0x8000 <= d <= 0x7fff {
        d
    } else if offset > 0 {
        -0x8000
    } else {
        0x7fff
    }
}

/// Decode one axis reading and apply its calibration offset.
pub fn calibrated_axis(hi: u8, lo: u8, offset: i16) -> (r: i16)
    ensures
        r as int == spec_calibrated_axis(hi, lo, offset),
{
    let raw = be_i16(hi, lo);
    let d: i32 = (raw as i32) - (offset as i32);
    if -0x8000 <= d && d <= 0x7fff {
        d as i16
    } else if offset > 0 {
        i16::MIN
    } else {
        i16::MAX
    }
}

} // verus!
