use tec_controller::cooler::{Cooler, SimCooler};
use tec_controller::delay::Delay;
use tec_controller::ds18b20::Resolution;
use tec_controller::onewire::error::Error;
use tec_controller::onewire::sim::SimLine;
use tec_controller::onewire::{Address, OneWire};
use tec_controller::sched::{ceiling_of, next_deadline, CeilingLock};
use tec_controller::thermometer::ds18b20::{average_temperature, Ds18b20Thermometer};
use tec_controller::thermometer::{FakeThermometer, Temperature, Thermometer};

#[test]
fn sim_cooler_tracks_commands() {
    let mut cooler = SimCooler::new();
    assert_eq!(cooler.is_set_low(), Ok(true));
    cooler.set_high().unwrap();
    assert_eq!(cooler.is_set_high(), Ok(true));
    cooler.set_low().unwrap();
    assert_eq!(cooler.is_set_high(), Ok(false));
}

#[test]
fn delay_accumulates_microseconds() {
    let mut delay = Delay::new();
    delay.delay_us(480);
    delay.delay_us(70);
    assert_eq!(delay.elapsed_us(), 550);
}

#[test]
fn ceiling_is_the_highest_user_priority() {
    assert_eq!(ceiling_of(&vec![]), 0);
    assert_eq!(ceiling_of(&vec![1, 3, 2]), 3);
    assert_eq!(ceiling_of(&vec![2, 2]), 2);
}

#[test]
fn ceiling_lock_raises_and_restores_priority() {
    let mut lock = CeilingLock::new(3);
    let raised = lock.acquire(1);
    assert_eq!(raised, 3);
    let restored = lock.release();
    assert_eq!(restored, 1);
}

#[test]
fn deadlines_advance_by_whole_periods() {
    let mut deadline: u64 = 1_000;
    for _ in 0..5 {
        deadline = next_deadline(deadline, 2_000_000);
    }
    assert_eq!(deadline, 1_000 + 5 * 2_000_000);
}

#[test]
fn fake_thermometer_reports_its_value() {
    let mut fake = FakeThermometer::new(Temperature::from_bits(77));
    assert_eq!(fake.read(), Ok(Temperature::from_bits(77)));
    fake.set_temp(Temperature::from_bits(-3));
    assert_eq!(fake.temp().to_bits(), -3);
}

#[test]
fn average_of_no_readings_is_timeout() {
    let temps: Vec<Temperature> = vec![];
    assert_eq!(average_temperature(&temps), Err(Error::Timeout));
}

#[test]
fn average_truncates_toward_zero() {
    // The fixed-point division the readings are averaged with truncates, so
    // a sub-zero average rounds up toward zero, not down.
    let temps = vec![Temperature::from_bits(3), Temperature::from_bits(4)];
    assert_eq!(average_temperature(&temps).unwrap().to_bits(), 3);
    let temps = vec![Temperature::from_bits(-3), Temperature::from_bits(-4)];
    assert_eq!(average_temperature(&temps).unwrap().to_bits(), -3);
    let temps = vec![Temperature::from_bits(-2), Temperature::from_bits(-3)];
    assert_eq!(average_temperature(&temps).unwrap().to_bits(), -2);
}

fn ref_crc8(data: &[u8]) -> u8 {
    let mut crc: u8 = 0;
    for &byte in data {
        let mut b = byte;
        for _ in 0..8 {
            let mix = (crc ^ b) & 1;
            crc >>= 1;
            if mix == 1 {
                crc ^= 0x8C;
            }
            b >>= 1;
        }
    }
    crc
}

fn scratchpad_levels(payload: [u8; 8]) -> Vec<bool> {
    let mut bytes = payload.to_vec();
    bytes.push(ref_crc8(&payload));
    let mut levels = vec![true, false];
    for byte in bytes {
        for i in 0..8 {
            levels.push((byte >> i) & 1 == 1);
        }
    }
    levels
}

#[test]
fn thermometer_with_no_sensors_times_out() {
    // The broadcast convert still goes out (one reset slot), then the empty
    // sensor set aggregates to a timeout.
    let mut thermometer: Ds18b20Thermometer<SimLine, 4> =
        Ds18b20Thermometer::new(OneWire::new(SimLine::new(vec![true, false])));
    assert_eq!(thermometer.read(), Err(Error::Timeout));
}

#[test]
fn thermometer_reads_one_sensor_end_to_end() {
    let sp = [0x50u8, 0x05, 0x4B, 0x46, 0x7F, 0xFF, 0xFF, 0xFF];
    let mut levels = Vec::new();
    // add(): set_resolution = scratchpad read + write (two reset slots).
    levels.extend(scratchpad_levels(sp));
    levels.extend([true, false]);
    levels.extend([true, false]);
    // read(): broadcast convert, then one scratchpad read.
    levels.extend([true, false]);
    levels.extend(scratchpad_levels(sp));

    let mut thermometer: Ds18b20Thermometer<SimLine, 4> =
        Ds18b20Thermometer::new(OneWire::new(SimLine::new(levels)));
    assert_eq!(thermometer.resolution(), Resolution::Bits12);
    thermometer.add(Address(0x05_00_00_0F_83_FB_60_28)).unwrap();
    assert_eq!(thermometer.sensor_count(), 1);
    let t = thermometer.read().unwrap();
    assert_eq!(t.to_bits(), 85 * 16);
}

#[test]
fn thermometer_averages_two_sensors() {
    // Two sensors on one bus: one add() per sensor, then one cycle reading
    // both; the result is the average over sixteenths, truncated toward
    // zero.
    let sp_warm = [0x50u8, 0x05, 0x4B, 0x46, 0x7F, 0xFF, 0xFF, 0xFF]; // +85.0
    let sp_cool = [0x91u8, 0x01, 0x4B, 0x46, 0x7F, 0xFF, 0xFF, 0xFF]; // +25.0625
    let mut levels = Vec::new();
    for sp in [sp_warm, sp_cool] {
        levels.extend(scratchpad_levels(sp));
        levels.extend([true, false]);
        levels.extend([true, false]);
    }
    levels.extend([true, false]); // broadcast convert
    levels.extend(scratchpad_levels(sp_warm));
    levels.extend(scratchpad_levels(sp_cool));

    let mut thermometer: Ds18b20Thermometer<SimLine, 4> =
        Ds18b20Thermometer::new(OneWire::new(SimLine::new(levels)));
    thermometer.add(Address(0x05_00_00_0F_83_FB_60_28)).unwrap();
    thermometer.add(Address(0x08_1F_7E_3C_12_64_61_28)).unwrap();
    let t = thermometer.read().unwrap();
    assert_eq!(t.to_bits(), (85 * 16 + 0x191) / 2);
}

#[test]
fn temperature_saturating_addition() {
    let a = Temperature::from_bits(i32::MAX - 1);
    let b = Temperature::from_bits(10);
    assert_eq!(a.saturating_add(b).to_bits(), i32::MAX);
    let c = Temperature::from_bits(i32::MIN + 1);
    let d = Temperature::from_bits(-10);
    assert_eq!(c.saturating_add(d).to_bits(), i32::MIN);
    assert_eq!(
        Temperature::from_bits(5).saturating_add(Temperature::from_bits(6)).to_bits(),
        11
    );
    assert_eq!(Temperature::from_int(5).to_bits(), 80);
}

#[test]
fn temperature_matches_reference_fixed_point_type() {
    // The shared temperature type mirrors a signed 32-bit fixed-point number
    // with four fractional bits; spot-check against a reference
    // implementation of that format.
    type Ref = fixed::types::I28F4;
    for bits in [0i32, 1, -1, 80, 1360, -111, i32::MAX, i32::MIN] {
        let ours = Temperature::from_bits(bits);
        let reference = Ref::from_bits(bits);
        assert_eq!(ours.to_bits(), reference.to_bits());
    }
    let a = 5i32 * 16 + 3;
    let b = -7i32 * 16 + 1;
    assert_eq!(
        Temperature::from_bits(a).saturating_add(Temperature::from_bits(b)).to_bits(),
        Ref::from_bits(a).saturating_add(Ref::from_bits(b)).to_bits()
    );
    assert_eq!(
        Temperature::from_bits(i32::MAX).saturating_add(Temperature::from_bits(16)).to_bits(),
        Ref::from_bits(i32::MAX).saturating_add(Ref::from_bits(16)).to_bits()
    );
}
