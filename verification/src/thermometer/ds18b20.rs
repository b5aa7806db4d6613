//! A thermometer backed by DS18B20 sensors sharing one bus: conversions are
//! started on all sensors at once, and the reading is the average of their
//! results.

use vstd::prelude::*;

use crate::ds18b20::{
    decoded_bits, scratchpad_read_ops, spec_config_of, spec_conversion_ms, spec_resolution_of,
    valid_scratchpad, Ds18b20, Resolution, CONVERT_T, WRITE_SCRATCHPAD,
};
use crate::onewire::address::Address;
use crate::onewire::error::{Error, PinFault};
use crate::onewire::search::{
    aborted_pass, aborted_pass_ops, completed_pass, pass_prefix_ops, zero_family_pass,
    DeviceSearch,
};
use crate::onewire::{bytes_write_ops, cmd_ops_match, cmd_ops_skip, BusLine, BusOp, OneWire};
use crate::thermometer::{sat_i32, Temperature, Thermometer};

verus! {

/// The sum of a sequence of temperatures, in 1/16-degree counts.
pub open spec fn sum_bits(s: Seq<Temperature>) -> int
    decreases s.len(),
{
    if s.len() == 0 {
        0
    } else {
        sum_bits(s.drop_last()) + s.last().bits
    }
}

/// The bus operations of one scratchpad read per sensor, in order, against
/// the scratchpads each returned.
pub open spec fn sensors_read_ops(sensors: Seq<Ds18b20>, bufs: Seq<Seq<u8>>, n: int) -> Seq<BusOp>
    decreases n,
{
    if n <= 0 {
        Seq::empty()
    } else {
        sensors_read_ops(sensors, bufs, n - 1) + scratchpad_read_ops(
            sensors[n - 1].address().0,
            bufs[n - 1],
        )
    }
}

/// The bus operations of one read-modify-write configuration pass per
/// sensor, in order, each writing the pattern of resolution `r`.
pub open spec fn sensors_config_ops(
    sensors: Seq<Ds18b20>,
    bufs: Seq<Seq<u8>>,
    r: Resolution,
    n: int,
) -> Seq<BusOp>
    decreases n,
{
    if n <= 0 {
        Seq::empty()
    } else {
        sensors_config_ops(sensors, bufs, r, n - 1) + scratchpad_read_ops(
            sensors[n - 1].address().0,
            bufs[n - 1],
        ) + cmd_ops_match(sensors[n - 1].address().0, WRITE_SCRATCHPAD) + bytes_write_ops(
            seq![bufs[n - 1][2], bufs[n - 1][3], spec_config_of(r)],
        ) + seq![BusOp::Reset { present: true }]
    }
}

/// The per-sensor read operations depend only on the scratchpads already
/// collected.
proof fn lemma_sensors_read_ops_prefix(
    sensors: Seq<Ds18b20>,
    b1: Seq<Seq<u8>>,
    b2: Seq<Seq<u8>>,
    n: int,
)
    requires
        n <= b1.len(),
        n <= b2.len(),
        forall|j: int| 0 <= j < n ==> b1[j] == b2[j],
    ensures
        sensors_read_ops(sensors, b1, n) == sensors_read_ops(sensors, b2, n),
    decreases n,
{
    if n > 0 {
        lemma_sensors_read_ops_prefix(sensors, b1, b2, n - 1);
    }
}

/// The per-sensor configuration operations depend only on the scratchpads
/// already collected.
proof fn lemma_sensors_config_ops_prefix(
    sensors: Seq<Ds18b20>,
    b1: Seq<Seq<u8>>,
    b2: Seq<Seq<u8>>,
    r: Resolution,
    n: int,
)
    requires
        n <= b1.len(),
        n <= b2.len(),
        forall|j: int| 0 <= j < n ==> b1[j] == b2[j],
    ensures
        sensors_config_ops(sensors, b1, r, n) == sensors_config_ops(sensors, b2, r, n),
    decreases n,
{
    if n > 0 {
        lemma_sensors_config_ops_prefix(sensors, b1, b2, r, n - 1);
    }
}

/// The quotient of `a` over a positive `b`, rounded toward zero: the
/// rounding of the fixed-point division the readings are averaged with.
pub open spec fn div_toward_zero(a: int, b: int) -> int {
    if a >= 0 {
        a / b
    } else {
        -((-a) / b)
    }
}

/// Average a cycle's readings: their sum over their count, the division
/// rounding toward zero. An empty cycle (no sensors answered) surfaces as
/// `Timeout`.
pub fn average_temperature(temps: &Vec<Temperature>) -> (r: Result<Temperature, Error<PinFault>>)
    ensures
        temps@.len() == 0 ==> r == Err::<Temperature, Error<PinFault>>(Error::Timeout),
        temps@.len() > 0 ==> (r matches Ok(t) && t.bits == sat_i32(
            div_toward_zero(sum_bits(temps@), temps@.len() as int),
        )),
{
    if temps.len() == 0 {
        return Err(Error::Timeout);
    }
    let mut sum: i128 = 0;
    let mut i: usize = 0;
    while i < temps.len()
        invariant
            i <= temps@.len(),
            sum == sum_bits(temps@.take(i as int)),
            -0x8000_0000 * (i as int) <= sum <= 0x8000_0000 * (i as int),
        decreases temps@.len() - i,
    {
        proof {
            assert(temps@.take(i + 1).drop_last() =~= temps@.take(i as int));
        }
        sum = sum + temps[i].bits as i128;
        i += 1;
    }
    proof {
        assert(temps@.take(temps@.len() as int) =~= temps@);
    }
    proof {
        let s = sum as int;
        let l = temps@.len() as int;
        if s >= 0 {
            vstd::arithmetic::div_mod::lemma_fundamental_div_mod(s, l);
            assert(0 <= s / l <= 0x8000_0000) by (nonlinear_arith)
                requires
                    l >= 1,
                    0 <= s <= 0x8000_0000 * l,
                    s == l * (s / l) + (s % l),
                    0 <= s % l < l,
            ;
        } else {
            vstd::arithmetic::div_mod::lemma_fundamental_div_mod(-s, l);
            assert(0 <= (-s) / l <= 0x8000_0000) by (nonlinear_arith)
                requires
                    l >= 1,
                    0 <= -s <= 0x8000_0000 * l,
                    -s == l * ((-s) / l) + ((-s) % l),
                    0 <= (-s) % l < l,
            ;
        }
    }
    let q = match sum.checked_div(temps.len() as i128) {
        Some(q) => q,
        None => 0,  // unreachable: the count is positive and the sum in range
    };
    let bits: i32 = if q > 0x7fff_ffff {
        i32::MAX
    } else if q < -0x8000_0000 {
        i32::MIN
    } else {
        q as i32
    };
    Ok(Temperature { bits })
}

/// A thermometer over up to `N` DS18B20 sensors on one bus.
pub struct Ds18b20Thermometer<P: BusLine, const N: usize> {
    ow: OneWire<P>,
    therms: Vec<Ds18b20>,
    resolution: Resolution,
}

impl<P: BusLine, const N: usize> Ds18b20Thermometer<P, N> {
    /// The sensors the thermometer reads.
    pub closed spec fn sensors(&self) -> Seq<Ds18b20> {
        self.therms@
    }

    /// The resolution the thermometer asks its sensors to use.
    pub closed spec fn spec_resolution(&self) -> Resolution {
        self.resolution
    }

    /// The log of bus operations carried out so far.
    pub closed spec fn bus_ops(&self) -> Seq<BusOp> {
        self.ow.ops_log()
    }

    /// The bus line's microsecond clock.
    pub closed spec fn bus_now_us(&self) -> nat {
        self.ow.now_us()
    }

    pub fn new(ow: OneWire<P>) -> (r: Ds18b20Thermometer<P, N>)
        ensures
            r.sensors() == Seq::<Ds18b20>::empty(),
            r.spec_resolution() == Resolution::Bits12,
            r.bus_ops() == ow.ops_log(),
    {
        Ds18b20Thermometer { ow, therms: Vec::new(), resolution: Resolution::Bits12 }
    }

    /// The configured resolution.
    pub fn resolution(&self) -> (r: Resolution)
        ensures
            r == self.spec_resolution(),
    {
        self.resolution
    }

    /// Record the requested resolution and write it to every sensor, in
    /// order. On failure the request is still recorded and the remaining
    /// sensors stay unconfigured; the caller retries on its next cycle.
    pub fn set_resolution(&mut self, resolution: Resolution) -> (r: Result<(), Error<PinFault>>)
        ensures
            final(self).spec_resolution() == resolution,
            final(self).sensors() == old(self).sensors(),
            r is Ok ==> exists|bufs: Seq<Seq<u8>>|
                #![trigger sensors_config_ops(old(self).sensors(), bufs, resolution, old(self).sensors().len() as int)]
                {
                    &&& bufs.len() == old(self).sensors().len()
                    &&& (forall|j: int| 0 <= j < bufs.len() ==> valid_scratchpad(#[trigger] bufs[j]))
                    &&& final(self).bus_ops() == old(self).bus_ops() + sensors_config_ops(
                        old(self).sensors(),
                        bufs,
                        resolution,
                        old(self).sensors().len() as int,
                    )
                },
            r matches Err(e) ==> (e is Pin || e is BusNotHigh || e is UnexpectedResponse
                || e is CrcMismatch),
    {
        self.resolution = resolution;
        let ghost base = self.ow.ops_log();
        let ghost mut bufs: Seq<Seq<u8>> = Seq::empty();
        let mut i: usize = 0;
        proof {
            assert(base + sensors_config_ops(old(self).sensors(), bufs, resolution, 0) =~= base);
        }
        while i < self.therms.len()
            invariant
                i <= self.therms@.len(),
                bufs.len() == i,
                self.therms@ == old(self).sensors(),
                self.resolution == resolution,
                base == old(self).bus_ops(),
                self.ow.ops_log() == base + sensors_config_ops(
                    old(self).sensors(),
                    bufs,
                    resolution,
                    i as int,
                ),
                forall|j: int| 0 <= j < i ==> valid_scratchpad(#[trigger] bufs[j]),
            decreases self.therms@.len() - i,
        {
            let mut therm = self.therms[i];
            let ghost ops_i = self.ow.ops_log();
            therm.set_resolution(&mut self.ow, resolution)?;
            proof {
                let a = therm.address().0;
                let buf = choose|buf: Seq<u8>|
                    #[trigger] valid_scratchpad(buf) && self.ow.ops_log() == ops_i
                        + scratchpad_read_ops(a, buf) + cmd_ops_match(a, WRITE_SCRATCHPAD)
                        + bytes_write_ops(seq![buf[2], buf[3], spec_config_of(resolution)]) + seq![
                        BusOp::Reset { present: true },
                    ];
                let bufs_prev = bufs;
                bufs = bufs.push(buf);
                lemma_sensors_config_ops_prefix(
                    old(self).sensors(),
                    bufs_prev,
                    bufs,
                    resolution,
                    i as int,
                );
                assert(self.ow.ops_log() =~= base + sensors_config_ops(
                    old(self).sensors(),
                    bufs,
                    resolution,
                    i + 1,
                ));
            }
            i += 1;
        }
        Ok(())
    }

    /// Configure a new sensor to the current resolution and add it to the
    /// set that is read. The sensor arena is bounded: the caller checks for
    /// room first.
    pub fn add(&mut self, addr: Address) -> (r: Result<(), Error<PinFault>>)
        requires
            old(self).sensors().len() < N,
        ensures
            final(self).spec_resolution() == old(self).spec_resolution(),
            r is Ok ==> final(self).sensors().len() == old(self).sensors().len() + 1
                && final(self).sensors().last().address() == addr
                && final(self).sensors().take(old(self).sensors().len() as int)
                == old(self).sensors(),
            r is Err ==> final(self).sensors() == old(self).sensors(),
            r matches Err(e) ==> (e is Pin || e is BusNotHigh || e is UnexpectedResponse
                || e is CrcMismatch),
    {
        let mut therm = Ds18b20::new(addr);
        therm.set_resolution(&mut self.ow, self.resolution)?;
        self.therms.push(Ds18b20::new(addr));
        proof {
            assert(self.therms@.take(old(self).sensors().len() as int) =~= old(self).sensors());
        }
        Ok(())
    }

    /// The bus driver the thermometer owns.
    pub fn wire(&self) -> (r: &OneWire<P>)
        ensures
            r.ops_log() == self.bus_ops(),
    {
        &self.ow
    }

    /// How many sensors are configured.
    pub fn sensor_count(&self) -> (r: usize)
        ensures
            r == self.sensors().len(),
    {
        self.therms.len()
    }

    /// Start an enumeration of the devices on the bus: a fresh search
    /// cursor.
    pub fn devices(&self) -> (r: DeviceSearch)
        ensures
            r == DeviceSearch::start(),
    {
        DeviceSearch::new()
    }

    /// Run one search pass over this thermometer's bus, carrying the cursor
    /// forward; the pass's full contract carries through, stated over the
    /// thermometer's own bus-operation log.
    pub fn search_next(&mut self, cursor: &mut DeviceSearch) -> (r: Result<
        Option<Address>,
        Error<PinFault>,
    >)
        ensures
            final(self).sensors() == old(self).sensors(),
            final(self).spec_resolution() == old(self).spec_resolution(),
            r matches Err(e) ==> (e is Pin || e is BusNotHigh || e is UnexpectedResponse),
            r is Ok ==> final(self).bus_now_us() <= old(self).bus_now_us() + 13290,
            old(cursor).last_device_flag ==> r == Ok::<Option<Address>, Error<PinFault>>(None)
                && final(self).bus_ops() == old(self).bus_ops() && final(self).bus_now_us() == old(
                self,
            ).bus_now_us(),
            r is Ok && r->Ok_0 is None ==> final(cursor).last_discrepancy == 0
                && !final(cursor).last_device_flag,
            (!old(cursor).last_device_flag && r is Ok && r->Ok_0 is None) ==> exists|
                probes: Seq<(bool, bool)>,
            |
                #![trigger pass_prefix_ops(*old(cursor), probes, probes.len() as int)]
                {
                    ||| (aborted_pass(*old(cursor), probes) && final(self).bus_ops() == old(
                        self,
                    ).bus_ops() + aborted_pass_ops(*old(cursor), probes))
                    ||| (zero_family_pass(*old(cursor), probes) && final(self).bus_ops() == old(
                        self,
                    ).bus_ops() + pass_prefix_ops(*old(cursor), probes, 64))
                },
            (!old(cursor).last_device_flag && r is Ok && r->Ok_0 is Some) ==> ({
                let addr = r->Ok_0->Some_0;
                &&& addr.0 == final(cursor).rom_no
                &&& addr.0 & 0xff != 0
                &&& exists|probes: Seq<(bool, bool)>|
                    #[trigger] completed_pass(*old(cursor), *final(cursor), probes)
                        && final(self).bus_ops() == old(self).bus_ops() + pass_prefix_ops(
                        *old(cursor),
                        probes,
                        64,
                    )
            }),
    {
        cursor.search(&mut self.ow)
    }
}

impl<P: BusLine, const N: usize> Thermometer for Ds18b20Thermometer<P, N> {
    /// Start a conversion on every sensor at once (one broadcast command),
    /// wait the configured resolution's conversion time, read every sensor
    /// in order, and average the results. With no sensors configured the
    /// broadcast and the wait still happen and the reading is `Timeout`; any
    /// protocol error propagates unchanged.
    fn read(&mut self) -> (r: Result<Temperature, Error<PinFault>>)
        ensures
            final(self).sensors() == old(self).sensors(),
            final(self).spec_resolution() == old(self).spec_resolution(),
            old(self).sensors().len() == 0 ==> (r == Err::<Temperature, Error<PinFault>>(
                Error::Timeout,
            ) || (r matches Err(e) && (e is Pin || e is BusNotHigh || e is UnexpectedResponse))),
            (r matches Err(e) && e is Timeout) ==> old(self).sensors().len() == 0
                && final(self).bus_ops() == old(self).bus_ops() + cmd_ops_skip(CONVERT_T),
            (r is Ok || (r matches Err(e) && e is Timeout)) ==> final(self).bus_now_us()
                >= old(self).bus_now_us() + 1000 * spec_conversion_ms(old(self).spec_resolution()),
            r matches Ok(t) ==> exists|bufs: Seq<Seq<u8>>, temps: Seq<Temperature>|
                #![trigger sensors_read_ops(old(self).sensors(), bufs, old(self).sensors().len() as int), sum_bits(temps)]
                {
                    &&& old(self).sensors().len() > 0
                    &&& bufs.len() == old(self).sensors().len()
                    &&& temps.len() == old(self).sensors().len()
                    &&& (forall|j: int|
                        0 <= j < bufs.len() ==> valid_scratchpad(#[trigger] bufs[j])
                            && spec_resolution_of(bufs[j][4]) is Some && temps[j].bits
                            == decoded_bits(
                            bufs[j][0],
                            bufs[j][1],
                            spec_resolution_of(bufs[j][4])->Some_0,
                        ))
                    &&& final(self).bus_ops() == old(self).bus_ops() + cmd_ops_skip(CONVERT_T)
                        + sensors_read_ops(
                        old(self).sensors(),
                        bufs,
                        old(self).sensors().len() as int,
                    )
                    &&& t.bits == sat_i32(div_toward_zero(sum_bits(temps), temps.len() as int))
                },
            r matches Err(e) ==> (e is Pin || e is BusNotHigh || e is UnexpectedResponse
                || e is CrcMismatch || (e is Timeout && old(self).sensors().len() == 0)),
    {
        let ghost ops0 = self.ow.ops_log();
        let ghost now0 = self.ow.now_us();
        self.ow.send_command(None, CONVERT_T)?;

        let ms = self.resolution.conversion_time();
        self.ow.wait_us((ms as u32) * 1000);

        let ghost base = self.ow.ops_log();
        let mut temps: Vec<Temperature> = Vec::new();
        let ghost mut bufs: Seq<Seq<u8>> = Seq::empty();
        let mut i: usize = 0;
        proof {
            assert(base + sensors_read_ops(old(self).sensors(), bufs, 0) =~= base);
        }
        while i < self.therms.len()
            invariant
                i <= self.therms@.len(),
                temps@.len() == i,
                bufs.len() == i,
                self.therms@ == old(self).sensors(),
                self.resolution == old(self).spec_resolution(),
                base == old(self).bus_ops() + cmd_ops_skip(CONVERT_T),
                self.ow.ops_log() == base + sensors_read_ops(old(self).sensors(), bufs, i as int),
                self.ow.now_us() >= now0 + 1000 * spec_conversion_ms(old(self).spec_resolution()),
                now0 == old(self).bus_now_us(),
                forall|j: int|
                    0 <= j < i ==> valid_scratchpad(#[trigger] bufs[j]) && spec_resolution_of(
                        bufs[j][4],
                    ) is Some && temps@[j].bits == decoded_bits(
                        bufs[j][0],
                        bufs[j][1],
                        spec_resolution_of(bufs[j][4])->Some_0,
                    ),
            decreases self.therms@.len() - i,
        {
            let therm = self.therms[i];
            let ghost ops_i = self.ow.ops_log();
            let temp = therm.read_data(&mut self.ow)?;
            temps.push(temp);
            proof {
                let (buf, res2): (Seq<u8>, Resolution) = choose|buf: Seq<u8>, res2: Resolution|
                    #![trigger decoded_bits(buf[0], buf[1], res2)]
                    valid_scratchpad(buf) && self.ow.ops_log() == ops_i + scratchpad_read_ops(
                        therm.address().0,
                        buf,
                    ) && spec_resolution_of(buf[4]) == Some(res2) && temp.bits == decoded_bits(
                        buf[0],
                        buf[1],
                        res2,
                    );
                let bufs_prev = bufs;
                bufs = bufs.push(buf);
                lemma_sensors_read_ops_prefix(old(self).sensors(), bufs_prev, bufs, i as int);
                assert(self.ow.ops_log() =~= base + sensors_read_ops(
                    old(self).sensors(),
                    bufs,
                    i + 1,
                ));
            }
            i += 1;
        }

        let result = average_temperature(&temps);
        proof {
            if result is Ok {
                assert(sum_bits(temps@) == sum_bits(temps@));
                assert(sensors_read_ops(old(self).sensors(), bufs, old(self).sensors().len() as int)
                    == sensors_read_ops(old(self).sensors(), bufs, bufs.len() as int));
            }
        }
        result
    }
}

} // verus!
