use tec_controller::onewire::sim::SimLine;
use tec_controller::onewire::{Address, DeviceSearch, OneWire};

/// Golden model of the devices on the bus during the alternating-pair
/// search: given the device set and the carried cursor, produce the line
/// levels each pass samples, following the open-drain semantics (a slot
/// samples high only when no participating device pulls it low).
struct BusModel {
    last_discrepancy: u8,
    last_family_discrepancy: u8,
    last_device_flag: bool,
    rom: u64,
}

impl BusModel {
    fn new() -> BusModel {
        BusModel { last_discrepancy: 0, last_family_discrepancy: 0, last_device_flag: false, rom: 0 }
    }

    /// Append the samples of one search pass to `script` and return the
    /// address this pass discovers.
    fn pass(&mut self, devices: &[u64], script: &mut Vec<bool>) -> Option<u64> {
        if self.last_device_flag {
            self.last_discrepancy = 0;
            self.last_device_flag = false;
            return None;
        }
        // Reset slot: the released line reads high, then the devices answer
        // with a presence pulse (low).
        script.push(true);
        script.push(false);

        let mut participating: Vec<u64> = devices.to_vec();
        let mut last_zero: u8 = 0;
        let mut rom = self.rom;
        for k in 0..64u32 {
            let id = participating.iter().all(|r| (r >> k) & 1 == 1);
            let cmp = participating.iter().all(|r| (r >> k) & 1 == 0);
            script.push(id);
            script.push(cmp);
            assert!(
                !(id && cmp),
                "the model lost every device, which real hardware cannot do mid-pass"
            );
            let dir = if id != cmp {
                id
            } else {
                let sd = if (k as u8) + 1 < self.last_discrepancy {
                    (rom >> k) & 1 == 1
                } else {
                    (k as u8) + 1 == self.last_discrepancy
                };
                if !sd {
                    last_zero = k as u8 + 1;
                    if last_zero < 9 {
                        self.last_family_discrepancy = last_zero;
                    }
                }
                sd
            };
            if dir {
                rom |= 1u64 << k;
            } else {
                rom &= !(1u64 << k);
            }
            participating.retain(|r| ((r >> k) & 1 == 1) == dir);
        }
        self.rom = rom;
        self.last_discrepancy = last_zero;
        if last_zero == 0 {
            self.last_device_flag = true;
        }
        if rom & 0xff == 0 {
            self.last_discrepancy = 0;
            self.last_device_flag = false;
            None
        } else {
            Some(rom)
        }
    }
}

/// Enumerate `devices` through the library's search against the modeled
/// line, and check that exactly that set comes back, each address once.
fn enumerate_and_check(devices: &[u64]) {
    // Generate the whole multi-pass script with the golden model.
    let mut model = BusModel::new();
    let mut script = Vec::new();
    let mut expected = Vec::new();
    loop {
        match model.pass(devices, &mut script) {
            Some(rom) => expected.push(rom),
            None => break,
        }
    }

    let mut wire = OneWire::new(SimLine::new(script));
    let mut cursor = DeviceSearch::new();
    let mut found: Vec<u64> = Vec::new();
    loop {
        match cursor.search(&mut wire).expect("search must not fail on the modeled line") {
            Some(Address(rom)) => found.push(rom),
            None => break,
        }
        assert!(found.len() <= devices.len() + 1, "enumeration failed to terminate");
    }

    assert_eq!(found, expected);
    let mut sorted_found = found.clone();
    sorted_found.sort_unstable();
    let mut sorted_devices = devices.to_vec();
    sorted_devices.sort_unstable();
    assert_eq!(sorted_found, sorted_devices, "enumeration must return exactly the device set");
}

#[test]
fn enumeration_single_device() {
    enumerate_and_check(&[0x05_00_00_0F_83_FB_60_28]);
}

#[test]
fn enumeration_two_devices() {
    enumerate_and_check(&[0x05_00_00_0F_83_FB_60_28, 0x08_1F_7E_3C_12_64_61_28]);
}

#[test]
fn enumeration_three_devices_with_family_discrepancy() {
    // Two sensors of one family plus a device of another family: branch
    // points fall both inside and outside the family-code byte.
    enumerate_and_check(&[
        0x05_00_00_0F_83_FB_60_28,
        0x08_1F_7E_3C_12_64_61_28,
        0x11_22_33_44_55_66_77_10,
    ]);
}

#[test]
fn enumeration_is_idempotent_after_exhaustion() {
    // After exhaustion the cursor resets, and a fresh enumeration over the
    // same bus yields the same set again.
    let devices = [0x05_00_00_0F_83_FB_60_28u64, 0x08_1F_7E_3C_12_64_61_28u64];
    let mut model = BusModel::new();
    let mut script = Vec::new();
    let mut expected = Vec::new();
    for _round in 0..2 {
        loop {
            match model.pass(&devices, &mut script) {
                Some(rom) => expected.push(rom),
                None => break,
            }
        }
    }
    let mut wire = OneWire::new(SimLine::new(script));
    let mut cursor = DeviceSearch::new();
    let mut found: Vec<u64> = Vec::new();
    for _round in 0..2 {
        loop {
            match cursor.search(&mut wire).unwrap() {
                Some(Address(rom)) => found.push(rom),
                None => break,
            }
            assert!(found.len() <= 4);
        }
    }
    assert_eq!(found, expected);
    assert_eq!(found.len(), 4);
    assert_eq!(&found[0..2], &found[2..4]);
}

#[test]
fn search_aborts_when_no_device_answers() {
    // Presence seen, but both probe bits of the first position read high:
    // no candidate, and the cursor resets.
    let mut wire = OneWire::new(SimLine::new(vec![true, false, true, true]));
    let mut cursor = DeviceSearch::new();
    assert_eq!(cursor.search(&mut wire), Ok(None));
    assert_eq!(cursor.last_discrepancy, 0);
    assert!(!cursor.last_device_flag);
}

#[test]
fn search_on_exhausted_cursor_resets_without_bus_traffic() {
    let mut wire = OneWire::new(SimLine::new(vec![]));
    let mut cursor = DeviceSearch::new();
    cursor.last_device_flag = true;
    assert_eq!(cursor.search(&mut wire), Ok(None));
    assert!(!cursor.last_device_flag);
    assert_eq!(cursor.last_discrepancy, 0);
}
