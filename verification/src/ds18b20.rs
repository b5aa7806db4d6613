//! Driver for the DS18B20 temperature sensor.
//!
//! The scratchpad is a 9-byte block laid out as
//! `[tempLSB, tempMSB, TH, TL, config, reserved, reserved, reserved, CRC]`:
//! a 2-byte raw temperature (little-endian, two's-complement, 1/16-degree
//! units), high/low alarm bytes, one configuration byte, three reserved
//! bytes, and a trailing CRC-8 byte.

use vstd::prelude::*;

use crate::onewire::address::Address;
use crate::onewire::crc::{check_crc8, crc8_prefix};
use crate::onewire::error::{Error, PinFault};
use crate::onewire::{
    bytes_bits, bytes_read_ops, bytes_write_ops, cmd_ops_match, is_op_prefix,
    lemma_bytes_read_ops_bits, read_bits_ops, BusLine, BusOp, OneWire,
};
use crate::thermometer::Temperature;

verus! {

/// Function command: start a temperature conversion.
pub const CONVERT_T: u8 = 0x44;

/// Function command: read the 9-byte scratchpad.
pub const READ_SCRATCHPAD: u8 = 0xBE;

/// Function command: write the TH, TL and configuration bytes.
pub const WRITE_SCRATCHPAD: u8 = 0x4E;

/// Function command: copy the scratchpad to EEPROM.
pub const COPY_SCRATCHPAD: u8 = 0x48;

/// Function command: recall the EEPROM into the scratchpad.
pub const RECALL_E2: u8 = 0xB8;

/// Measurement resolution of the sensor. Each resolution maps bijectively to
/// a configuration-register byte pattern and to a minimum conversion-time
/// bound.
#[derive(Debug, Copy, Clone, Eq, PartialEq, Structural)]
pub enum Resolution {
    Bits9,
    Bits10,
    Bits11,
    Bits12,
}

/// The configuration-register byte pattern of a resolution.
pub open spec fn spec_config_of(r: Resolution) -> u8 {
    match r {
        Resolution::Bits9 => 0x1f,
        Resolution::Bits10 => 0x3f,
        Resolution::Bits11 => 0x5f,
        Resolution::Bits12 => 0x7f,
    }
}

/// The resolution a configuration-register byte denotes, if any; only the
/// four patterns are valid, and any other byte read from hardware is a
/// protocol fault.
pub open spec fn spec_resolution_of(reg: u8) -> Option<Resolution> {
    if reg == 0x1f {
        Some(Resolution::Bits9)
    } else if reg == 0x3f {
        Some(Resolution::Bits10)
    } else if reg == 0x5f {
        Some(Resolution::Bits11)
    } else if reg == 0x7f {
        Some(Resolution::Bits12)
    } else {
        None
    }
}

/// The minimum conversion time of a resolution, in milliseconds.
pub open spec fn spec_conversion_ms(r: Resolution) -> u16 {
    match r {
        Resolution::Bits9 => 94,
        Resolution::Bits10 => 188,
        Resolution::Bits11 => 375,
        Resolution::Bits12 => 750,
    }
}

/// The mask that clears the low temperature bits not significant at a
/// resolution.
pub open spec fn spec_temp_mask(r: Resolution) -> u8 {
    match r {
        Resolution::Bits9 => 0xf8,
        Resolution::Bits10 => 0xfc,
        Resolution::Bits11 => 0xfe,
        Resolution::Bits12 => 0xff,
    }
}

/// The signed 16-bit value encoded little-endian by two bytes.
pub open spec fn i16_from_le(b0: u8, b1: u8) -> int {
    let v = b0 as int + 256 * (b1 as int);
    if v >= 0x8000 {
        v - 0x10000
    } else {
        v
    }
}

/// The 1/16-degree count a scratchpad's two temperature bytes decode to at a
/// resolution: the insignificant low bits are masked off, and the rest is a
/// little-endian two's-complement 16-bit value.
pub open spec fn decoded_bits(b0: u8, b1: u8, r: Resolution) -> int {
    i16_from_le(b0 & spec_temp_mask(r), b1)
}

/// A 9-byte scratchpad whose trailing CRC byte matches its data.
pub open spec fn valid_scratchpad(buf: Seq<u8>) -> bool {
    buf.len() == 9 && crc8_prefix(buf, 8) == buf[8]
}

/// The bus operations of one scratchpad read from device `a`.
pub open spec fn scratchpad_read_ops(a: u64, buf: Seq<u8>) -> Seq<BusOp> {
    cmd_ops_match(a, READ_SCRATCHPAD) + bytes_read_ops(buf)
}

/// What a failed scratchpad read leaves on the bus, relative to the log
/// `base` it started from: a prefix of the entry sequence, a reset that saw
/// no presence pulse, or the full entry sequence followed by some of the
/// read slots (all of them when the block arrived but its checksum failed).
pub open spec fn failed_scratchpad_read(a: u64, base: Seq<BusOp>, log: Seq<BusOp>) -> bool {
    ||| is_op_prefix(log, base + cmd_ops_match(a, READ_SCRATCHPAD))
    ||| log == base.push(BusOp::Reset { present: false })
    ||| exists|bs: Seq<bool>|
        bs.len() <= 72 && log == base + cmd_ops_match(a, READ_SCRATCHPAD)
            + #[trigger] read_bits_ops(bs)
}

/// What a failed scratchpad write leaves on the bus, relative to the log
/// `base` it started from: a prefix of the intended transfer, or a reset
/// (the entry one or the terminating one) that saw no presence pulse.
pub open spec fn failed_scratchpad_write(
    a: u64,
    payload: Seq<u8>,
    base: Seq<BusOp>,
    log: Seq<BusOp>,
) -> bool {
    ||| is_op_prefix(
        log,
        base + cmd_ops_match(a, WRITE_SCRATCHPAD) + bytes_write_ops(payload) + seq![
            BusOp::Reset { present: true },
        ],
    )
    ||| log == base.push(BusOp::Reset { present: false })
    ||| log == (base + cmd_ops_match(a, WRITE_SCRATCHPAD) + bytes_write_ops(payload)).push(
        BusOp::Reset { present: false },
    )
}

impl Resolution {
    pub fn from_config_register(reg: u8) -> (r: Option<Resolution>)
        ensures
            r == spec_resolution_of(reg),
    {
        match reg {
            0b0001_1111 => Some(Resolution::Bits9),
            0b0011_1111 => Some(Resolution::Bits10),
            0b0101_1111 => Some(Resolution::Bits11),
            0b0111_1111 => Some(Resolution::Bits12),
            _ => None,
        }
    }

    pub fn to_config_register(self) -> (r: u8)
        ensures
            r == spec_config_of(self),
    {
        match self {
            Resolution::Bits9 => 0b0001_1111,
            Resolution::Bits10 => 0b0011_1111,
            Resolution::Bits11 => 0b0101_1111,
            Resolution::Bits12 => 0b0111_1111,
        }
    }

    /// The minimum conversion time in milliseconds.
    pub fn conversion_time(self) -> (r: u16)
        ensures
            r == spec_conversion_ms(self),
            r <= 750,
    {
        match self {
            Resolution::Bits9 => 94,
            Resolution::Bits10 => 188,
            Resolution::Bits11 => 375,
            Resolution::Bits12 => 750,
        }
    }

    /// The resolution's bit count, as text.
    pub fn as_str(self) -> (r: &'static str)
        ensures
            self is Bits9 ==> r@ == "9"@,
            self is Bits10 ==> r@ == "10"@,
            self is Bits11 ==> r@ == "11"@,
            self is Bits12 ==> r@ == "12"@,
    {
        match self {
            Resolution::Bits9 => "9",
            Resolution::Bits10 => "10",
            Resolution::Bits11 => "11",
            Resolution::Bits12 => "12",
        }
    }
}

/// The four resolutions map to their configuration bytes and back without
/// loss: writing a resolution's pattern and rereading it yields the same
/// resolution.
pub proof fn lemma_resolution_round_trip(r: Resolution)
    ensures
        spec_resolution_of(spec_config_of(r)) == Some(r),
{
}

/// A configuration byte that denotes a resolution is that resolution's
/// pattern: the mapping is a bijection between the four resolutions and the
/// four valid bytes.
pub proof fn lemma_config_round_trip(reg: u8)
    requires
        spec_resolution_of(reg) is Some,
    ensures
        spec_config_of(spec_resolution_of(reg)->Some_0) == reg,
{
}

/// Decode a scratchpad's two raw temperature bytes at a resolution.
pub fn decode_temperature(b0: u8, b1: u8, resolution: Resolution) -> (t: Temperature)
    ensures
        t.bits == decoded_bits(b0, b1, resolution),
        -0x8000 <= t.bits <= 0x7fff,
{
    let mask: u8 = match resolution {
        Resolution::Bits9 => 0xf8,
        Resolution::Bits10 => 0xfc,
        Resolution::Bits11 => 0xfe,
        Resolution::Bits12 => 0xff,
    };
    let m0 = b0 & mask;
    let v: u32 = (m0 as u32) | ((b1 as u32) << 8);
    proof {
        let b = b1 as u32;
        let m = m0 as u32;
        assert(m | (b << 8u32) == m + 256 * b) by (bit_vector)
            requires
                m < 256,
                b < 256,
        ;
        assert(b0 & 0xff == b0) by (bit_vector);
    }
    let bits: i32 = if v >= 0x8000 {
        (v as i32) - 0x10000
    } else {
        v as i32
    };
    Temperature { bits }
}

/// One DS18B20 sensor, keyed by its bus address.
#[derive(Debug, Copy, Clone, Eq, PartialEq, Structural)]
pub struct Ds18b20 {
    addr: Address,
}

impl Ds18b20 {
    /// The sensor's bus address.
    pub closed spec fn address(&self) -> Address {
        self.addr
    }

    pub fn new(addr: Address) -> (r: Ds18b20)
        ensures
            r.address() == addr,
    {
        Ds18b20 { addr }
    }

    /// Issue a scratchpad read and validate the trailing CRC byte; corrupted
    /// data surfaces as `CrcMismatch` and is discarded.
    fn read_scratchpad<P: BusLine>(&self, wire: &mut OneWire<P>) -> (r: Result<
        [u8; 9],
        Error<PinFault>,
    >)
        ensures
            final(wire).now_us() >= old(wire).now_us(),
            r matches Ok(buf) ==> final(wire).ops_log() == old(wire).ops_log()
                + scratchpad_read_ops(self.address().0, buf@) && valid_scratchpad(buf@),
            r is Err ==> failed_scratchpad_read(
                self.address().0,
                old(wire).ops_log(),
                final(wire).ops_log(),
            ),
            r matches Err(e) ==> (e is Pin || e is BusNotHigh || e is UnexpectedResponse
                || e is CrcMismatch),
    {
        wire.send_command(Some(&self.addr), READ_SCRATCHPAD)?;
        let ghost after_cmd = wire.ops_log();
        let data = match wire.read_bytes(9) {
            Ok(v) => v,
            Err(e) => {
                proof {
                    let bs = choose|bs: Seq<bool>|
                        bs.len() < 72 && wire.ops_log() == after_cmd + #[trigger] read_bits_ops(
                            bs,
                        );
                    assert(after_cmd + read_bits_ops(bs) =~= old(wire).ops_log() + cmd_ops_match(
                        self.address().0,
                        READ_SCRATCHPAD,
                    ) + read_bits_ops(bs));
                }
                return Err(e);
            },
        };
        if let Err(e) = check_crc8::<PinFault>(data.as_slice()) {
            proof {
                lemma_bytes_read_ops_bits(data@);
                assert(after_cmd + bytes_read_ops(data@) =~= old(wire).ops_log() + cmd_ops_match(
                    self.address().0,
                    READ_SCRATCHPAD,
                ) + read_bits_ops(bytes_bits(data@)));
            }
            return Err(e);
        }

        let mut buf = [0u8; 9];
        let mut i: usize = 0;
        while i < 9
            invariant
                i <= 9,
                data@.len() == 9,
                forall|j: int| 0 <= j < i ==> buf@[j] == data@[j],
            decreases 9 - i,
        {
            buf[i] = data[i];
            i += 1;
        }
        proof {
            assert(buf@ =~= data@);
        }
        Ok(buf)
    }

    /// Write the TH, TL and configuration bytes, then reset to terminate the
    /// transfer.
    fn write_scratchpad<P: BusLine>(&mut self, wire: &mut OneWire<P>, data: [u8; 3]) -> (r: Result<
        (),
        Error<PinFault>,
    >)
        ensures
            final(wire).now_us() >= old(wire).now_us(),
            r is Ok ==> final(wire).ops_log() == old(wire).ops_log() + cmd_ops_match(
                old(self).address().0,
                WRITE_SCRATCHPAD,
            ) + bytes_write_ops(data@) + seq![BusOp::Reset { present: true }],
            r is Err ==> failed_scratchpad_write(
                old(self).address().0,
                data@,
                old(wire).ops_log(),
                final(wire).ops_log(),
            ),
            *final(self) == *old(self),
            r matches Err(e) ==> (e is Pin || e is BusNotHigh || e is UnexpectedResponse),
    {
        let ghost a = self.addr.0;
        let ghost whole = cmd_ops_match(a, WRITE_SCRATCHPAD) + bytes_write_ops(data@) + seq![
            BusOp::Reset { present: true },
        ];
        match wire.send_command(Some(&self.addr), WRITE_SCRATCHPAD) {
            Ok(()) => (),
            Err(e) => {
                proof {
                    if is_op_prefix(
                        wire.ops_log(),
                        old(wire).ops_log() + cmd_ops_match(a, WRITE_SCRATCHPAD),
                    ) {
                        crate::onewire::lemma_op_prefix_extends(
                            wire.ops_log(),
                            old(wire).ops_log() + cmd_ops_match(a, WRITE_SCRATCHPAD),
                            bytes_write_ops(data@) + seq![BusOp::Reset { present: true }],
                        );
                        assert((old(wire).ops_log() + cmd_ops_match(a, WRITE_SCRATCHPAD)) + (
                        bytes_write_ops(data@) + seq![BusOp::Reset { present: true }])
                            =~= old(wire).ops_log() + whole);
                        assert(old(wire).ops_log() + whole =~= old(wire).ops_log() + cmd_ops_match(
                            a,
                            WRITE_SCRATCHPAD,
                        ) + bytes_write_ops(data@) + seq![BusOp::Reset { present: true }]);
                    }
                }
                return Err(e);
            },
        }
        let ghost after_cmd = wire.ops_log();
        match wire.write_bytes(&data) {
            Ok(()) => (),
            Err(e) => {
                proof {
                    crate::onewire::lemma_op_prefix_extends(
                        wire.ops_log(),
                        after_cmd + bytes_write_ops(data@),
                        seq![BusOp::Reset { present: true }],
                    );
                    assert((after_cmd + bytes_write_ops(data@)) + seq![
                        BusOp::Reset { present: true },
                    ] =~= old(wire).ops_log() + cmd_ops_match(a, WRITE_SCRATCHPAD)
                        + bytes_write_ops(data@) + seq![BusOp::Reset { present: true }]);
                }
                return Err(e);
            },
        }
        let ghost before_reset = wire.ops_log();
        match wire.reset() {
            Ok(()) => (),
            Err(e) => {
                proof {
                    if wire.ops_log() == before_reset {
                        assert(is_op_prefix(
                            before_reset,
                            before_reset + seq![BusOp::Reset { present: true }],
                        )) by {
                            assert((before_reset + seq![BusOp::Reset { present: true }]).take(
                                before_reset.len() as int,
                            ) =~= before_reset);
                        };
                        assert(before_reset + seq![BusOp::Reset { present: true }] =~= old(
                            wire,
                        ).ops_log() + cmd_ops_match(a, WRITE_SCRATCHPAD) + bytes_write_ops(data@)
                            + seq![BusOp::Reset { present: true }]);
                    } else {
                        assert(before_reset =~= old(wire).ops_log() + cmd_ops_match(
                            a,
                            WRITE_SCRATCHPAD,
                        ) + bytes_write_ops(data@));
                    }
                }
                return Err(e);
            },
        }
        Ok(())
    }

    /// Retrieve the configured resolution from the scratchpad; an
    /// unrecognized configuration byte surfaces as `UnexpectedResponse`.
    pub fn resolution<P: BusLine>(&self, wire: &mut OneWire<P>) -> (r: Result<
        Resolution,
        Error<PinFault>,
    >)
        ensures
            final(wire).now_us() >= old(wire).now_us(),
            r matches Ok(res) ==> exists|buf: Seq<u8>|
                #[trigger] valid_scratchpad(buf) && final(wire).ops_log() == old(wire).ops_log()
                    + scratchpad_read_ops(self.address().0, buf) && spec_resolution_of(buf[4])
                    == Some(res),
            r matches Err(e) ==> (e is Pin || e is BusNotHigh || e is UnexpectedResponse
                || e is CrcMismatch),
    {
        let buf = self.read_scratchpad(wire)?;
        match Resolution::from_config_register(buf[4]) {
            Some(res) => Ok(res),
            None => Err(Error::UnexpectedResponse),
        }
    }

    /// Read, modify and write the configuration byte of the scratchpad so it
    /// selects the given resolution.
    pub fn set_resolution<P: BusLine>(
        &mut self,
        wire: &mut OneWire<P>,
        resolution: Resolution,
    ) -> (r: Result<(), Error<PinFault>>)
        ensures
            final(wire).now_us() >= old(wire).now_us(),
            r is Ok ==> exists|buf: Seq<u8>|
                #[trigger] valid_scratchpad(buf) && final(wire).ops_log() == old(wire).ops_log()
                    + scratchpad_read_ops(old(self).address().0, buf) + cmd_ops_match(
                    old(self).address().0,
                    WRITE_SCRATCHPAD,
                ) + bytes_write_ops(seq![buf[2], buf[3], spec_config_of(resolution)]) + seq![
                    BusOp::Reset { present: true },
                ],
            r is Err ==> ({
                ||| failed_scratchpad_read(
                    old(self).address().0,
                    old(wire).ops_log(),
                    final(wire).ops_log(),
                )
                ||| exists|buf: Seq<u8>|
                    #[trigger] valid_scratchpad(buf) && failed_scratchpad_write(
                        old(self).address().0,
                        seq![buf[2], buf[3], spec_config_of(resolution)],
                        old(wire).ops_log() + scratchpad_read_ops(old(self).address().0, buf),
                        final(wire).ops_log(),
                    )
            }),
            *final(self) == *old(self),
            r matches Err(e) ==> (e is Pin || e is BusNotHigh || e is UnexpectedResponse
                || e is CrcMismatch),
    {
        let buf = self.read_scratchpad(wire)?;
        let config = resolution.to_config_register();
        let payload = [buf[2], buf[3], config];
        proof {
            assert(payload@ =~= seq![buf@[2], buf@[3], spec_config_of(resolution)]);
        }
        self.write_scratchpad(wire, payload)?;
        Ok(())
    }

    /// Broadcast-free conversion start for this sensor; the conversion takes
    /// the resolution's minimum conversion time and is not awaited here.
    pub fn start_measurement<P: BusLine>(&mut self, wire: &mut OneWire<P>) -> (r: Result<
        (),
        Error<PinFault>,
    >)
        ensures
            final(wire).now_us() >= old(wire).now_us(),
            final(wire).now_us() <= old(wire).now_us() + 6810,
            r is Ok ==> final(wire).ops_log() == old(wire).ops_log() + cmd_ops_match(
                old(self).address().0,
                CONVERT_T,
            ),
            r is Err ==> ({
                ||| is_op_prefix(
                    final(wire).ops_log(),
                    old(wire).ops_log() + cmd_ops_match(old(self).address().0, CONVERT_T),
                )
                ||| final(wire).ops_log() == old(wire).ops_log().push(
                    BusOp::Reset { present: false },
                )
            }),
            *final(self) == *old(self),
            r matches Err(e) ==> (e is Pin || e is BusNotHigh || e is UnexpectedResponse),
    {
        wire.send_command(Some(&self.addr), CONVERT_T)
    }

    /// Read the latest conversion result: fetch the scratchpad, mask the low
    /// bits not significant at the configured resolution, and convert the
    /// little-endian two's-complement raw value to the shared temperature
    /// type.
    pub fn read_data<P: BusLine>(&self, wire: &mut OneWire<P>) -> (r: Result<
        Temperature,
        Error<PinFault>,
    >)
        ensures
            final(wire).now_us() >= old(wire).now_us(),
            r matches Ok(t) ==> exists|buf: Seq<u8>, res: Resolution|
                #![trigger decoded_bits(buf[0], buf[1], res)]
                {
                    &&& valid_scratchpad(buf)
                    &&& final(wire).ops_log() == old(wire).ops_log() + scratchpad_read_ops(
                        self.address().0,
                        buf,
                    )
                    &&& spec_resolution_of(buf[4]) == Some(res)
                    &&& t.bits == decoded_bits(buf[0], buf[1], res)
                },
            r matches Err(e) ==> (e is Pin || e is BusNotHigh || e is UnexpectedResponse
                || e is CrcMismatch),
    {
        let buf = self.read_scratchpad(wire)?;
        let res = match Resolution::from_config_register(buf[4]) {
            Some(res) => res,
            None => {
                return Err(Error::UnexpectedResponse);
            },
        };
        let t = decode_temperature(buf[0], buf[1], res);
        Ok(t)
    }

    /// Measure the temperature: read the configured resolution, start a
    /// conversion, wait the resolution's minimum conversion time, and read
    /// the result. Any protocol error from lower layers propagates
    /// unchanged.
    pub fn measure<P: BusLine>(&mut self, wire: &mut OneWire<P>) -> (r: Result<
        Temperature,
        Error<PinFault>,
    >)
        ensures
            final(wire).now_us() >= old(wire).now_us(),
            r matches Ok(t) ==> exists|buf1: Seq<u8>, res1: Resolution, buf2: Seq<u8>, res2:
                Resolution|
                #![trigger valid_scratchpad(buf1), spec_conversion_ms(res1), decoded_bits(buf2[0], buf2[1], res2)]
                {
                    &&& valid_scratchpad(buf1)
                    &&& spec_resolution_of(buf1[4]) == Some(res1)
                    &&& valid_scratchpad(buf2)
                    &&& spec_resolution_of(buf2[4]) == Some(res2)
                    &&& final(wire).ops_log() == old(wire).ops_log() + scratchpad_read_ops(
                        old(self).address().0,
                        buf1,
                    ) + cmd_ops_match(old(self).address().0, CONVERT_T) + scratchpad_read_ops(
                        old(self).address().0,
                        buf2,
                    )
                    &&& final(wire).now_us() >= old(wire).now_us() + 1000 * spec_conversion_ms(
                        res1,
                    )
                    &&& t.bits == decoded_bits(buf2[0], buf2[1], res2)
                },
            *final(self) == *old(self),
            r matches Err(e) ==> (e is Pin || e is BusNotHigh || e is UnexpectedResponse
                || e is CrcMismatch),
    {
        let ghost ops0 = wire.ops_log();
        let ghost now0 = wire.now_us();
        let a = self.addr;
        let res = self.resolution(wire)?;
        let ghost buf1 = choose|buf: Seq<u8>|
            valid_scratchpad(buf) && wire.ops_log() == ops0 + scratchpad_read_ops(a.0, buf)
                && spec_resolution_of(buf[4]) == Some(res);
        let ms = res.conversion_time();
        self.start_measurement(wire)?;
        let ghost now1 = wire.now_us();
        wire.wait_us((ms as u32) * 1000);
        proof {
            assert(wire.now_us() == now1 + 1000 * spec_conversion_ms(res));
        }
        let ghost ops2 = wire.ops_log();
        let r = self.read_data(wire);
        proof {
            if r is Ok {
                let t = r->Ok_0;
                let (buf2, res2): (Seq<u8>, Resolution) = choose|buf: Seq<u8>, res2: Resolution|
                    #![trigger decoded_bits(buf[0], buf[1], res2)]
                    valid_scratchpad(buf) && wire.ops_log() == ops2 + scratchpad_read_ops(
                        a.0,
                        buf,
                    ) && spec_resolution_of(buf[4]) == Some(res2) && t.bits == decoded_bits(
                        buf[0],
                        buf[1],
                        res2,
                    );
                assert(valid_scratchpad(buf1) && spec_conversion_ms(res) == spec_conversion_ms(res)
                    && decoded_bits(buf2[0], buf2[1], res2) == t.bits);
            }
        }
        r
    }
}

} // verus!
