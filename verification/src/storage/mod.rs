//! In-memory ring-buffer storage for temperature and event records, and the
//! record layouts they are stored in.

use vstd::prelude::*;

use crate::channel::LatestCell;
use crate::thermometer::Temperature;

verus! {

/// The 24-bit value encoded by three little-endian bytes.
pub open spec fn u24_of(b0: u8, b1: u8, b2: u8) -> u32 {
    (b0 as u32 + 256 * (b1 as u32) + 65536 * (b2 as u32)) as u32
}

/// Clamp a mathematical integer into the `i8` range.
pub open spec fn sat_i8(v: int) -> int {
    if v > i8::MAX {
        i8::MAX as int
    } else if v < i8::MIN {
        i8::MIN as int
    } else {
        v
    }
}

/// A stored temperature record: 4 bytes in all.
#[derive(Debug, Copy, Clone, PartialEq, Eq)]
pub struct StoredTemp {
    /// Seconds since startup, low 24 bits, little-endian.
    pub secs_bytes: [u8; 3],
    /// Reduced-precision temperature in quarter-degree units.
    pub value_q: i8,
}

impl StoredTemp {
    /// Pack a timestamp and a quarter-degree count.
    pub fn new(secs: u32, value_q: i8) -> (r: StoredTemp)
        ensures
            r.secs_bytes@ == seq![(secs & 0xff) as u8, ((secs >> 8) & 0xff) as u8, ((secs >> 16) & 0xff) as u8],
            r.value_q == value_q,
    {
        let b = [(secs & 0xff) as u8, ((secs >> 8) & 0xff) as u8, ((secs >> 16) & 0xff) as u8];
        let r = StoredTemp { secs_bytes: b, value_q };
        proof {
            assert(r.secs_bytes@ =~= seq![
                (secs & 0xff) as u8,
                ((secs >> 8) & 0xff) as u8,
                ((secs >> 16) & 0xff) as u8,
            ]);
        }
        r
    }

    /// Reduce a temperature to quarter-degree precision (rounding toward
    /// negative infinity, saturating) and pack it with a timestamp.
    pub fn now_from_temp(secs: u32, temp: Temperature) -> (r: StoredTemp)
        ensures
            r.value_q as int == sat_i8(temp.bits as int / 4),
            u24_of(r.secs_bytes@[0], r.secs_bytes@[1], r.secs_bytes@[2]) == secs % 0x100_0000,
    {
        let q_wide = match temp.bits.checked_div_euclid(4) {
            Some(q) => q,
            None => 0,  // unreachable: dividing by 4 cannot leave the range
        };
        let q: i8 = if q_wide > 127 {
            127
        } else if q_wide < -128 {
            -128
        } else {
            q_wide as i8
        };
        let r = StoredTemp::new(secs, q);
        proof {
            lemma_u24_round_trip(secs);
        }
        r
    }

    /// Seconds since startup.
    pub fn secs(&self) -> (r: u32)
        ensures
            r == u24_of(self.secs_bytes@[0], self.secs_bytes@[1], self.secs_bytes@[2]),
    {
        let b0 = self.secs_bytes[0];
        let b1 = self.secs_bytes[1];
        let b2 = self.secs_bytes[2];
        b0 as u32 + 256 * (b1 as u32) + 65536 * (b2 as u32)
    }

    /// The stored temperature, widened back to the shared fixed-point type.
    pub fn value(&self) -> (r: Temperature)
        ensures
            r.bits == 4 * self.value_q as int,
    {
        Temperature { bits: 4 * (self.value_q as i32) }
    }
}

/// Packing a timestamp into three little-endian bytes keeps its low 24 bits.
pub proof fn lemma_u24_round_trip(secs: u32)
    ensures
        u24_of((secs & 0xff) as u8, ((secs >> 8) & 0xff) as u8, ((secs >> 16) & 0xff) as u8)
            == secs % 0x100_0000,
{
    let b0 = (secs & 0xff) as u8;
    let b1 = ((secs >> 8) & 0xff) as u8;
    let b2 = ((secs >> 16) & 0xff) as u8;
    assert(b0 as u32 + 256 * (b1 as u32) + 65536 * (b2 as u32) == secs % 0x100_0000)
        by (bit_vector)
        requires
            b0 == (secs & 0xff) as u8,
            b1 == ((secs >> 8) & 0xff) as u8,
            b2 == ((secs >> 16) & 0xff) as u8,
    ;
}

/// Classification of a stored event record.
#[derive(Debug, Copy, Clone, PartialEq, Eq, Structural)]
pub enum EventCode {
    /// Unknown event type.
    Unknown,
    /// Temperature sensor error.
    TempSensorError,
    /// Temperature sensor resolution changed.
    TempSensorResolutionChanged,
    /// PID controller error.
    PidError,
    /// PID controller target changed.
    PidTargetChanged,
    /// PID parameters changed.
    PidParamsChanged,
}

impl EventCode {
    pub fn as_str(self) -> (r: &'static str)
        ensures
            self is Unknown ==> r@ == "Unknown"@,
            self is TempSensorError ==> r@ == "Temperature sensor error"@,
            self is TempSensorResolutionChanged ==> r@ == "Temperature sensor resolution changed"@,
            self is PidError ==> r@ == "PID controller error"@,
            self is PidTargetChanged ==> r@ == "PID controller target changed"@,
            self is PidParamsChanged ==> r@ == "PID parameters changed"@,
    {
        match self {
            Self::Unknown => "Unknown",
            Self::TempSensorError => "Temperature sensor error",
            Self::TempSensorResolutionChanged => "Temperature sensor resolution changed",
            Self::PidError => "PID controller error",
            Self::PidTargetChanged => "PID controller target changed",
            Self::PidParamsChanged => "PID parameters changed",
        }
    }
}

/// A stored event record: 16 bytes in all.
#[derive(Debug, Clone)]
pub struct StoredEvent {
    /// Seconds since startup, low 24 bits, little-endian.
    pub secs_bytes: [u8; 3],
    /// Event code.
    pub code: EventCode,
    /// UTF-8, NUL-terminated message.
    pub msg: [u8; 12],
}

impl StoredEvent {
    pub fn new(secs: u32, code: EventCode, msg: [u8; 12]) -> (r: StoredEvent)
        ensures
            u24_of(r.secs_bytes@[0], r.secs_bytes@[1], r.secs_bytes@[2]) == secs % 0x100_0000,
            r.code == code,
            r.msg == msg,
    {
        let b = [(secs & 0xff) as u8, ((secs >> 8) & 0xff) as u8, ((secs >> 16) & 0xff) as u8];
        proof {
            lemma_u24_round_trip(secs);
        }
        StoredEvent { secs_bytes: b, code, msg }
    }

    /// Build a record from a message in text form: the message is truncated
    /// to 12 bytes, and NUL-terminated when shorter.
    pub fn new_str(secs: u32, code: EventCode, msg: &[u8]) -> (r: StoredEvent)
        ensures
            u24_of(r.secs_bytes@[0], r.secs_bytes@[1], r.secs_bytes@[2]) == secs % 0x100_0000,
            r.code == code,
            msg@.len() >= 12 ==> r.msg@ == msg@.take(12),
            msg@.len() < 12 ==> r.msg@ == msg@ + seq![0u8] + Seq::new(
                (11 - msg@.len()) as nat,
                |i: int| 0u8,
            ),
    {
        let mut bytes = [0u8; 12];
        let len = msg.len();
        let n = if len >= 12 {
            12
        } else {
            len
        };
        let mut i: usize = 0;
        while i < n
            invariant
                i <= n,
                n <= 12,
                n <= msg@.len(),
                bytes@.len() == 12,
                forall|j: int| 0 <= j < i ==> bytes@[j] == msg@[j],
                forall|j: int| i <= j < 12 ==> bytes@[j] == 0u8,
            decreases n - i,
        {
            bytes[i] = msg[i];
            i += 1;
        }
        let r = StoredEvent::new(secs, code, bytes);
        proof {
            if msg@.len() >= 12 {
                assert(bytes@ =~= msg@.take(12));
            } else {
                assert(bytes@ =~= msg@ + seq![0u8] + Seq::new((11 - msg@.len()) as nat, |i: int| 0u8));
            }
        }
        r
    }

    /// Seconds since startup.
    pub fn secs(&self) -> (r: u32)
        ensures
            r == u24_of(self.secs_bytes@[0], self.secs_bytes@[1], self.secs_bytes@[2]),
    {
        let b0 = self.secs_bytes[0];
        let b1 = self.secs_bytes[1];
        let b2 = self.secs_bytes[2];
        b0 as u32 + 256 * (b1 as u32) + 65536 * (b2 as u32)
    }

    /// The message bytes up to (not including) the first NUL, or all 12
    /// when no NUL terminates the message; a record built by `new_str` from
    /// a short NUL-free message thus hands the same bytes back.
    pub fn msg_bytes(&self) -> (r: Vec<u8>)
        ensures
            first_nul(self.msg@) == -1 ==> r@ == self.msg@,
            first_nul(self.msg@) >= 0 ==> r@ == self.msg@.take(first_nul(self.msg@)),
    {
        let mut out: Vec<u8> = Vec::new();
        let mut i: usize = 0;
        while i < 12
            invariant
                i <= 12,
                self.msg@.len() == 12,
                out@ == self.msg@.take(i as int),
                forall|j: int| 0 <= j < i ==> self.msg@[j] != 0,
            decreases 12 - i,
        {
            let b = self.msg[i];
            if b == 0 {
                proof {
                    lemma_first_nul_at(self.msg@, i as int);
                }
                return out;
            }
            let ghost prev = out@;
            out.push(b);
            proof {
                assert(self.msg@.take(i + 1) =~= prev.push(self.msg@[i as int]));
            }
            i += 1;
        }
        proof {
            lemma_first_nul_none(self.msg@);
            assert(self.msg@.take(12) =~= self.msg@);
        }
        out
    }
}

/// The index of the first NUL byte, or -1 if there is none.
pub open spec fn first_nul(s: Seq<u8>) -> int
    decreases s.len(),
{
    if s.len() == 0 {
        -1
    } else if s[0] == 0 {
        0
    } else if first_nul(s.skip(1)) == -1 {
        -1
    } else {
        first_nul(s.skip(1)) + 1
    }
}

/// A sequence without a NUL byte has no first one.
proof fn lemma_first_nul_none(s: Seq<u8>)
    requires
        forall|j: int| 0 <= j < s.len() ==> #[trigger] s[j] != 0,
    ensures
        first_nul(s) == -1,
    decreases s.len(),
{
    if s.len() > 0 {
        assert(forall|j: int| 0 <= j < s.skip(1).len() ==> #[trigger] s.skip(1)[j] != 0);
        lemma_first_nul_none(s.skip(1));
    }
}

/// The first NUL after a NUL-free prefix is the first overall.
proof fn lemma_first_nul_at(s: Seq<u8>, i: int)
    requires
        0 <= i < s.len(),
        s[i] == 0,
        forall|j: int| 0 <= j < i ==> #[trigger] s[j] != 0,
    ensures
        first_nul(s) == i,
    decreases i,
{
    if i > 0 {
        assert(forall|j: int| 0 <= j < i - 1 ==> #[trigger] s.skip(1)[j] != 0);
        lemma_first_nul_at(s.skip(1), i - 1);
    }
}

/// How many temperature records the in-memory ring keeps.
pub const TEMP_LOG_CAP: usize = 100;

/// How many event records the in-memory ring keeps.
pub const EVENT_LOG_CAP: usize = 16;

/// A ring of the most recent temperature records, a fixed-capacity history
/// buffer whose writes overwrite the oldest record once it is full.
#[verifier::external_body]
pub struct TempLog {
    buf: heapless::HistoryBuf<StoredTemp, 100>,
}

/// The records a temperature ring holds, oldest first.
pub uninterp spec fn temp_log_contents(log: &TempLog) -> Seq<StoredTemp>;

/// A ring of the most recent event records.
#[verifier::external_body]
pub struct EventLog {
    buf: heapless::HistoryBuf<StoredEvent, 16>,
}

/// The records an event ring holds, oldest first.
pub uninterp spec fn event_log_contents(log: &EventLog) -> Seq<StoredEvent>;

/// Relies on heapless::HistoryBuf::new: a fresh buffer holds nothing.
#[verifier::external_body]
fn temp_log_new() -> (r: TempLog)
    ensures
        temp_log_contents(&r) == Seq::<StoredTemp>::empty(),
{
    TempLog { buf: heapless::HistoryBuf::new() }
}

/// Relies on heapless::HistoryBuf::write: appends the record, evicting the
/// oldest one once the buffer holds its full 100.
#[verifier::external_body]
fn temp_log_write(log: &mut TempLog, t: StoredTemp)
    ensures
        temp_log_contents(old(log)).len() < 100 ==> temp_log_contents(final(log))
            == temp_log_contents(old(log)).push(t),
        temp_log_contents(old(log)).len() >= 100 ==> temp_log_contents(final(log))
            == temp_log_contents(old(log)).skip(1).push(t),
{
    log.buf.write(t);
}

/// Relies on heapless::HistoryBuf::recent: the most recently written record.
#[verifier::external_body]
fn temp_log_recent(log: &TempLog) -> (r: Option<StoredTemp>)
    ensures
        temp_log_contents(log).len() == 0 ==> r is None,
        temp_log_contents(log).len() > 0 ==> r == Some(temp_log_contents(log).last()),
{
    log.buf.recent().copied()
}

/// Relies on heapless::HistoryBuf::oldest_ordered: the records from oldest
/// to newest.
#[verifier::external_body]
fn temp_log_oldest(log: &TempLog) -> (r: Vec<StoredTemp>)
    ensures
        r@ == temp_log_contents(log),
{
    log.buf.oldest_ordered().copied().collect()
}

/// Relies on heapless::HistoryBuf::new: a fresh buffer holds nothing.
#[verifier::external_body]
fn event_log_new() -> (r: EventLog)
    ensures
        event_log_contents(&r) == Seq::<StoredEvent>::empty(),
{
    EventLog { buf: heapless::HistoryBuf::new() }
}

/// Relies on heapless::HistoryBuf::write: appends the record, evicting the
/// oldest one once the buffer holds its full 16.
#[verifier::external_body]
fn event_log_write(log: &mut EventLog, e: StoredEvent)
    ensures
        event_log_contents(old(log)).len() < 16 ==> event_log_contents(final(log))
            == event_log_contents(old(log)).push(e),
        event_log_contents(old(log)).len() >= 16 ==> event_log_contents(final(log))
            == event_log_contents(old(log)).skip(1).push(e),
{
    log.buf.write(e);
}

/// Relies on heapless::HistoryBuf::recent: the most recently written record.
#[verifier::external_body]
fn event_log_recent(log: &EventLog) -> (r: Option<StoredEvent>)
    ensures
        event_log_contents(log).len() == 0 ==> r is None,
        event_log_contents(log).len() > 0 ==> r == Some(event_log_contents(log).last()),
{
    log.buf.recent().cloned()
}

/// Relies on heapless::HistoryBuf::oldest_ordered: the records from oldest
/// to newest.
#[verifier::external_body]
fn event_log_oldest(log: &EventLog) -> (r: Vec<StoredEvent>)
    ensures
        r@ == event_log_contents(log),
{
    log.buf.oldest_ordered().cloned().collect()
}

/// Ring-buffer storage for recent temperature and event records, plus the
/// latest-temperature mailbox feeding the console collaborator.
pub struct Storage {
    temps: TempLog,
    events: EventLog,
    latest: LatestCell<StoredTemp>,
}

impl Storage {
    /// The stored temperature records, oldest first.
    pub closed spec fn temps(&self) -> Seq<StoredTemp> {
        temp_log_contents(&self.temps)
    }

    /// The stored event records, oldest first.
    pub closed spec fn events(&self) -> Seq<StoredEvent> {
        event_log_contents(&self.events)
    }

    /// The temperature record pending in the latest-value mailbox.
    pub closed spec fn latest(&self) -> Option<StoredTemp> {
        self.latest.pending()
    }

    pub fn new() -> (r: Storage)
        ensures
            r.temps() == Seq::<StoredTemp>::empty(),
            r.events() == Seq::<StoredEvent>::empty(),
            r.latest() is None,
    {
        Storage { temps: temp_log_new(), events: event_log_new(), latest: LatestCell::new() }
    }

    /// Record a temperature: write it to the ring and publish it to the
    /// latest-value mailbox, where it replaces any stale pending record.
    pub fn write(&mut self, secs: u32, temp: Temperature)
        ensures
            ({
                let rec = final(self).temps().last();
                &&& rec.value_q as int == sat_i8(temp.bits as int / 4)
                &&& u24_of(rec.secs_bytes@[0], rec.secs_bytes@[1], rec.secs_bytes@[2]) == secs
                    % 0x100_0000
                &&& (old(self).temps().len() < 100 ==> final(self).temps()
                    == old(self).temps().push(rec))
                &&& (old(self).temps().len() >= 100 ==> final(self).temps()
                    == old(self).temps().skip(1).push(rec))
                &&& final(self).latest() == Some(rec)
                &&& final(self).events() == old(self).events()
            }),
    {
        let rec = StoredTemp::now_from_temp(secs, temp);
        temp_log_write(&mut self.temps, rec);
        self.latest.send(rec);
    }

    /// Record an event.
    pub fn write_event(&mut self, event: StoredEvent)
        ensures
            old(self).events().len() < 16 ==> final(self).events() == old(self).events().push(
                event,
            ),
            old(self).events().len() >= 16 ==> final(self).events() == old(self).events().skip(
                1,
            ).push(event),
            final(self).temps() == old(self).temps(),
            final(self).latest() == old(self).latest(),
    {
        event_log_write(&mut self.events, event);
    }

    /// The stored temperature records, oldest first.
    pub fn temp_oldest(&self) -> (r: Vec<StoredTemp>)
        ensures
            r@ == self.temps(),
    {
        temp_log_oldest(&self.temps)
    }

    /// The most recently stored temperature record.
    pub fn temp_recent(&self) -> (r: Option<StoredTemp>)
        ensures
            self.temps().len() == 0 ==> r is None,
            self.temps().len() > 0 ==> r == Some(self.temps().last()),
    {
        temp_log_recent(&self.temps)
    }

    /// The stored event records, oldest first.
    pub fn event_oldest(&self) -> (r: Vec<StoredEvent>)
        ensures
            r@ == self.events(),
    {
        event_log_oldest(&self.events)
    }

    /// The most recently stored event record.
    pub fn event_recent(&self) -> (r: Option<StoredEvent>)
        ensures
            self.events().len() == 0 ==> r is None,
            self.events().len() > 0 ==> r == Some(self.events().last()),
    {
        event_log_recent(&self.events)
    }

    /// Take the pending latest-temperature record, as the console
    /// collaborator's receive side.
    pub fn take_latest(&mut self) -> (r: Option<StoredTemp>)
        ensures
            r == old(self).latest(),
            final(self).latest() is None,
            final(self).temps() == old(self).temps(),
            final(self).events() == old(self).events(),
    {
        self.latest.recv()
    }
}

} // verus!
