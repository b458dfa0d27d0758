use flight_controller::esc::RotorStrength;
use flight_controller::gy521::{
    be_i16, calibrated_axis, dlpf_delay_micros, AFullRangeScale, Config, Dlpf, GFullRangeScale,
};

#[test]
fn default_sensor_config() {
    let c = Config::default();
    assert_eq!(c.dlpf, Dlpf::Hz_20);
    assert_eq!(c.a_fs, AFullRangeScale::Sel_8g);
    assert_eq!(c.g_fs, GFullRangeScale::Sel_1000);
}

#[test]
fn setters_replace_one_field_each() {
    let c = Config::default()
        .set_afs(AFullRangeScale::Sel_2g)
        .set_gfs(GFullRangeScale::Sel_2000)
        .set_dlpf(Dlpf::Hz_5);
    assert_eq!(c.a_fs, AFullRangeScale::Sel_2g);
    assert_eq!(c.g_fs, GFullRangeScale::Sel_2000);
    assert_eq!(c.dlpf, Dlpf::Hz_5);
    let d = c.set_afs(AFullRangeScale::Sel_16g);
    assert_eq!(d.a_fs, AFullRangeScale::Sel_16g);
    assert_eq!(d.g_fs, GFullRangeScale::Sel_2000);
    assert_eq!(d.dlpf, Dlpf::Hz_5);
}

#[test]
fn configuration_register_bytes() {
    assert_eq!(Dlpf::Hz_256.register_value(), 0);
    assert_eq!(Dlpf::Hz_20.register_value(), 4);
    assert_eq!(Dlpf::Hz_5.register_value(), 6);
    assert_eq!(GFullRangeScale::Sel_250.register_value(), 0);
    assert_eq!(GFullRangeScale::Sel_1000.register_value(), 2 << 3);
    assert_eq!(AFullRangeScale::Sel_8g.register_value(), 2 << 3);
    assert_eq!(AFullRangeScale::Sel_16g.register_value(), 3 << 3);
}

#[test]
fn scale_factors_follow_the_selected_ranges() {
    let c = Config::default();
    assert_eq!(c.accel_scale(), 4096);
    assert_eq!(c.gyro_scale_tenths(), 328);
    let wide = c.set_afs(AFullRangeScale::Sel_2g).set_gfs(GFullRangeScale::Sel_250);
    assert_eq!(wide.accel_scale(), 16384);
    assert_eq!(wide.gyro_scale_tenths(), 1310);
}

#[test]
fn filter_delay_from_register_byte() {
    assert_eq!(dlpf_delay_micros(0), 0);
    assert_eq!(dlpf_delay_micros(1), 2000);
    assert_eq!(dlpf_delay_micros(4), 8500);
    assert_eq!(dlpf_delay_micros(6), 19000);
    // only the low three bits name the filter
    assert_eq!(dlpf_delay_micros(0xF8 | 2), 3000);
    assert_eq!(dlpf_delay_micros(Dlpf::Hz_20.register_value()), 8500);
}

#[test]
fn big_endian_axis_decoding() {
    assert_eq!(be_i16(0x12, 0x34), 0x1234);
    assert_eq!(be_i16(0x00, 0x00), 0);
    assert_eq!(be_i16(0xFF, 0xFF), -1);
    assert_eq!(be_i16(0x80, 0x00), -32768);
    assert_eq!(be_i16(0x7F, 0xFF), 32767);
}

#[test]
fn calibration_subtracts_and_saturates() {
    assert_eq!(calibrated_axis(0x00, 0x10, 5), 11);
    assert_eq!(calibrated_axis(0xFF, 0xF0, -16), 0);
    // underflow with a positive offset saturates low
    assert_eq!(calibrated_axis(0x80, 0x00, 1), -32768);
    // overflow with a non-positive offset saturates high
    assert_eq!(calibrated_axis(0x7F, 0xFF, -1), 32767);
}

#[test]
fn rotor_strength_keeps_its_percentages() {
    let r = RotorStrength::new(0, 50, 100, 25);
    assert_eq!(r.m1(), 0);
    assert_eq!(r.m2(), 50);
    assert_eq!(r.m3(), 100);
    assert_eq!(r.m4(), 25);
}
