//! Write-ahead log: framing of raw payloads into records, and the decisions
//! of the log about its active segment.

use byteorder::{ByteOrder, LittleEndian};
use vstd::prelude::*;
use vstd::slice::slice_subrange;

verus! {

/// Why a payload could not be turned into a record.
#[derive(Debug, Clone, Copy, PartialEq, Eq, Structural)]
pub enum EncodingError {
    /// The payload is longer than the 32-bit length field can express.
    PayloadTooLong,
}

/// The four bytes of `n`, least significant first.
pub open spec fn u32_le(n: u32) -> Seq<u8> {
    seq![
        (n % 256) as u8,
        (n / 256 % 256) as u8,
        (n / 65536 % 256) as u8,
        (n / 16777216) as u8,
    ]
}

/// The number whose four bytes, least significant first, are the first four
/// of `bytes`.
pub open spec fn u32_from_le(bytes: Seq<u8>) -> int {
    bytes[0] + bytes[1] * 256 + bytes[2] * 65536 + bytes[3] * 16777216
}

/// `byteorder::ByteOrder::write_u32` of `LittleEndian`, on a buffer of four
/// bytes: writes `n` to the buffer in little-endian order.
#[verifier::external_body]
fn le_bytes_of(n: u32) -> (r: [u8; 4])
    ensures
        r@ == u32_le(n),
{
    let mut buf = [0u8; 4];
    LittleEndian::write_u32(&mut buf, n);
    buf
}

/// `byteorder::ByteOrder::read_u32` of `LittleEndian`: reads the first four
/// bytes of `buf` as a number in little-endian order. It panics on a shorter
/// buffer.
#[verifier::external_body]
fn le_u32_at_start(buf: &[u8]) -> (r: u32)
    requires
        buf@.len() >= 4,
    ensures
        r == u32_from_le(buf@),
{
    LittleEndian::read_u32(buf)
}

/// Largest prime below 2^16, the modulus of the checksum.
pub const CHECKSUM_MODULUS: u32 = 65521;

/// Low half of the checksum: one plus the sum of the bytes, reduced.
pub open spec fn checksum_low(data: Seq<u8>) -> int
    decreases data.len(),
{
    if data.len() == 0 {
        1
    } else {
        (checksum_low(data.drop_last()) + data.last()) % 65521
    }
}

/// High half of the checksum: the sum of the low halves of all the nonempty
/// prefixes, reduced.
pub open spec fn checksum_high(data: Seq<u8>) -> int
    decreases data.len(),
{
    if data.len() == 0 {
        0
    } else {
        (checksum_high(data.drop_last()) + checksum_low(data)) % 65521
    }
}

/// The Adler-32 checksum of `data`.
pub open spec fn checksum(data: Seq<u8>) -> int {
    checksum_high(data) * 65536 + checksum_low(data)
}

/// The bytes of a record with the given payload: the length of the payload
/// as four bytes, least significant first, then the payload.
pub open spec fn frame(payload: Seq<u8>) -> Seq<u8> {
    u32_le(payload.len() as u32) + payload
}

/// The Adler-32 checksum of `data`.
pub fn compute_checksum(data: &[u8]) -> (r: u32)
    ensures
        r == checksum(data@),
{
    let mut low: u32 = 1;
    let mut high: u32 = 0;
    let mut i: usize = 0;
    while i < data.len()
        invariant
            i <= data@.len(),
            low == checksum_low(data@.subrange(0, i as int)),
            high == checksum_high(data@.subrange(0, i as int)),
            low < 65521,
            high < 65521,
        decreases data@.len() - i,
    {
        assert(data@.subrange(0, i + 1).drop_last() =~= data@.subrange(0, i as int));
        low = (low + data[i] as u32) % CHECKSUM_MODULUS;
        high = (high + low) % CHECKSUM_MODULUS;
        i = i + 1;
    }
    assert(data@.subrange(0, i as int) =~= data@);
    high * 65536 + low
}

/// One unit entry of the write-ahead log.
pub struct WriteRecord {
    crc: u32,
    len: u32,
    data: Vec<u8>,
}

impl WriteRecord {
    #[verifier::type_invariant]
    spec fn inv(&self) -> bool {
        &&& self.len == self.data@.len()
        &&& self.crc == checksum(self.data@)
    }

    /// The payload carried by the record.
    pub closed spec fn payload(&self) -> Seq<u8> {
        self.data@
    }

    /// A record for `data`. The payload must fit the 32-bit length field.
    pub fn new(data: Vec<u8>) -> (r: Result<WriteRecord, EncodingError>)
        ensures
            data@.len() <= u32::MAX <==> r is Ok,
            r matches Ok(rec) ==> rec.payload() == data@,
            r matches Err(e) ==> e == EncodingError::PayloadTooLong,
    {
        let n: usize = data.len();
        if n > 0xffff_ffff {
            return Err(EncodingError::PayloadTooLong);
        }
        let crc = compute_checksum(data.as_slice());
        Ok(WriteRecord { crc, len: n as u32, data })
    }

    /// The value of the length field: the number of payload bytes.
    pub fn length(&self) -> (r: u32)
        ensures
            r == self.payload().len(),
    {
        proof {
            use_type_invariant(self);
        }
        self.len
    }

    /// The value of the checksum field: the checksum of the payload.
    pub fn checksum(&self) -> (r: u32)
        ensures
            r == checksum(self.payload()),
    {
        proof {
            use_type_invariant(self);
        }
        self.crc
    }

    /// The payload bytes.
    pub fn data(&self) -> (r: &[u8])
        ensures
            r@ == self.payload(),
    {
        self.data.as_slice()
    }

    /// The bytes of the record as they go to a segment: length, then payload.
    pub fn encode(&self) -> (r: Vec<u8>)
        ensures
            r@ == frame(self.payload()),
    {
        proof {
            use_type_invariant(self);
        }
        let head = le_bytes_of(self.len);
        let mut out: Vec<u8> = Vec::new();
        out.push(head[0]);
        out.push(head[1]);
        out.push(head[2]);
        out.push(head[3]);
        out.extend_from_slice(self.data.as_slice());
        out
    }

    /// Reads the record that `bytes` starts with, and says how many bytes it
    /// took. `None` where `bytes` ends before the record does.
    pub fn decode(bytes: &[u8]) -> (r: Option<(WriteRecord, usize)>)
        ensures
            r is Some <==> starts_with_record(bytes@),
            r matches Some((rec, used)) ==> used == 4 + rec.payload().len() && rec.payload()
                == bytes@.subrange(4, used as int) && bytes@.subrange(0, used as int) == frame(
                rec.payload(),
            ),
    {
        if bytes.len() < 4 {
            return None;
        }
        let len: u32 = le_u32_at_start(bytes);
        if bytes.len() - 4 < len as usize {
            return None;
        }
        let end: usize = 4 + len as usize;
        let mut data: Vec<u8> = Vec::new();
        data.extend_from_slice(slice_subrange(bytes, 4, end));
        proof {
            lemma_u32_le_of_bytes(bytes@);
            assert(data@ =~= bytes@.subrange(4, end as int));
            assert(bytes@.subrange(0, end as int) =~= u32_le(len) + data@);
        }
        match WriteRecord::new(data) {
            Ok(rec) => Some((rec, end)),
            Err(_) => None,
        }
    }
}

/// Whether `bytes` starts with a whole record: a length field, and at least
/// as many bytes after it as the field says.
pub open spec fn starts_with_record(bytes: Seq<u8>) -> bool {
    bytes.len() >= 4 && bytes.len() >= 4 + u32_from_le(bytes)
}

/// Four bytes read as a little-endian number give a 32-bit value, and the
/// four little-endian bytes of that value are the bytes read.
pub proof fn lemma_u32_le_of_bytes(bytes: Seq<u8>)
    requires
        bytes.len() >= 4,
    ensures
        0 <= u32_from_le(bytes) <= u32::MAX,
        u32_le(u32_from_le(bytes) as u32) == bytes.subrange(0, 4),
{
    let b0 = bytes[0] as int;
    let b1 = bytes[1] as int;
    let b2 = bytes[2] as int;
    let b3 = bytes[3] as int;
    let n = u32_from_le(bytes);
    assert(n == 256 * (b1 + 256 * b2 + 65536 * b3) + b0);
    assert(n % 256 == b0 && n / 256 == b1 + 256 * b2 + 65536 * b3);
    assert(n == 65536 * (b2 + 256 * b3) + (b0 + 256 * b1));
    assert(n / 65536 == b2 + 256 * b3);
    assert((b2 + 256 * b3) % 256 == b2);
    assert((b1 + 256 * (b2 + 256 * b3)) % 256 == b1);
    assert(n == 16777216 * b3 + (b0 + 256 * b1 + 65536 * b2));
    assert(n / 16777216 == b3);
    assert(u32_le(n as u32) =~= bytes.subrange(0, 4));
}

/// The four little-endian bytes of a number read back as that number.
pub proof fn lemma_u32_from_le_bytes(n: u32)
    ensures
        u32_from_le(u32_le(n)) == n,
        u32_le(n).len() == 4,
{
    let m = n as int;
    assert(m == 256 * (m / 256) + m % 256);
    assert(m / 256 == 256 * (m / 256 / 256) + m / 256 % 256);
    assert(m / 256 / 256 == 256 * (m / 256 / 256 / 256) + m / 256 / 256 % 256);
    assert(m / 65536 == m / 256 / 256);
    assert(m / 16777216 == m / 256 / 256 / 256);
    assert(m / 16777216 < 256);
}

/// A frame decodes to its payload, whatever follows it; and a frame that was
/// cut short does not start with a whole record.
pub proof fn lemma_frame_round_trip(payload: Seq<u8>, rest: Seq<u8>, cut: int)
    requires
        payload.len() <= u32::MAX,
        0 <= cut < frame(payload).len(),
    ensures
        starts_with_record(frame(payload) + rest),
        u32_from_le(frame(payload) + rest) == payload.len(),
        (frame(payload) + rest).subrange(4, 4 + payload.len() as int) == payload,
        !starts_with_record(frame(payload).subrange(0, cut)),
{
    let n = payload.len() as u32;
    lemma_u32_from_le_bytes(n);
    let whole = frame(payload) + rest;
    assert(whole.subrange(4, 4 + payload.len() as int) =~= payload);
    assert(u32_from_le(whole) == u32_from_le(u32_le(n)));
    let torn = frame(payload).subrange(0, cut);
    if cut >= 4 {
        assert(u32_from_le(torn) == u32_from_le(u32_le(n)));
    }
}

/// Where a record starts in its segment, in bytes from the segment's start.
pub type SegmentOffset = u64;

/// Why an operation of the log failed.
#[derive(Debug, Clone, Copy, PartialEq, Eq, Structural)]
pub enum WalError {
    /// Opening, writing or flushing the segment failed.
    Io,
    /// The record does not fit below the largest offset of a segment.
    SegmentFull,
    /// An operation was started, or an outcome reported, while the log was
    /// waiting for something else.
    OutOfTurn,
}

/// What the log is waiting for.
#[derive(Debug, Clone, Copy, PartialEq, Eq, Structural)]
pub enum Phase {
    /// Nothing: an append or a flush may start.
    Idle,
    /// The outcome of opening a segment, for a record that waits to be written.
    Opening,
    /// The outcome of writing a record to the active segment.
    Writing,
    /// The outcome of flushing the active segment.
    Syncing,
}

/// What the caller has to do next for the log, or how the operation ended.
#[derive(Debug, PartialEq, Eq)]
pub enum WalAction {
    /// Open the segment for appending and report its length.
    OpenSegment,
    /// Write these bytes at the end of the active segment and report back.
    Write(Vec<u8>),
    /// Flush the active segment to stable storage and report back.
    Sync,
    /// The append is done: the record starts at this offset.
    Appended(SegmentOffset),
    /// The flush is done, or there was nothing to flush.
    Synced,
    /// The operation failed.
    Failed(WalError),
}

/// A `WalAction` with its bytes as a sequence.
#[verifier::ext_equal]
pub enum ActionView {
    OpenSegment,
    Write(Seq<u8>),
    Sync,
    Appended(SegmentOffset),
    Synced,
    Failed(WalError),
}

impl View for WalAction {
    type V = ActionView;

    open spec fn view(&self) -> ActionView {
        match self {
            WalAction::OpenSegment => ActionView::OpenSegment,
            WalAction::Write(bytes) => ActionView::Write(bytes@),
            WalAction::Sync => ActionView::Sync,
            WalAction::Appended(offset) => ActionView::Appended(*offset),
            WalAction::Synced => ActionView::Synced,
            WalAction::Failed(e) => ActionView::Failed(*e),
        }
    }
}

/// How the action that the log asked for went.
#[derive(Debug, Clone, Copy, PartialEq, Eq, Structural)]
pub enum IoOutcome {
    /// The segment was opened and holds this many bytes.
    Opened(u64),
    /// The write or the flush went through.
    Done,
    /// The action failed.
    Failed,
}

/// The state of a log, as its decisions see it.
#[verifier::ext_equal]
pub struct WalView {
    /// Whether a segment is open for appending.
    pub active: bool,
    /// Number of bytes in the active segment.
    pub end: u64,
    /// Offset up to which the active segment is known to be on stable storage.
    pub durable: u64,
    /// What the log is waiting for.
    pub phase: Phase,
    /// The bytes of a record that waits for the segment to be opened.
    pub pending: Seq<u8>,
    /// Number of bytes that are being written to the active segment.
    pub in_flight: u64,
}

impl WalView {
    /// The flushed part of a segment is a part of it; a record waits only
    /// while the segment is being opened, and bytes are in flight only while
    /// a write is under way.
    pub open spec fn wf(self) -> bool {
        &&& self.durable <= self.end
        &&& (self.phase == Phase::Opening ==> !self.active)
        &&& (self.phase == Phase::Writing || self.phase == Phase::Syncing ==> self.active)
        &&& (self.phase != Phase::Opening ==> self.pending.len() == 0)
        &&& (self.phase != Phase::Writing ==> self.in_flight == 0)
        &&& self.end + self.in_flight <= u64::MAX
        &&& (!self.active ==> self.end == 0)
    }

    /// The state with no active segment and nothing under way.
    pub open spec fn initial() -> WalView {
        WalView {
            active: false,
            end: 0,
            durable: 0,
            phase: Phase::Idle,
            pending: Seq::empty(),
            in_flight: 0,
        }
    }

    /// An append of a record with the given payload starts: without an
    /// active segment one has to be opened first, otherwise the record's
    /// bytes go to the active segment.
    pub open spec fn append(self, payload: Seq<u8>) -> (WalView, ActionView) {
        if self.phase != Phase::Idle {
            (self, ActionView::Failed(WalError::OutOfTurn))
        } else if !self.active {
            (
                WalView { phase: Phase::Opening, pending: frame(payload), ..self },
                ActionView::OpenSegment,
            )
        } else {
            self.write(frame(payload))
        }
    }

    /// The bytes of a record are to go to the end of the active segment,
    /// unless they would pass the largest offset.
    pub open spec fn write(self, bytes: Seq<u8>) -> (WalView, ActionView) {
        if self.end + bytes.len() > u64::MAX {
            (
                WalView { phase: Phase::Idle, pending: Seq::empty(), in_flight: 0, ..self },
                ActionView::Failed(WalError::SegmentFull),
            )
        } else {
            (
                WalView {
                    phase: Phase::Writing,
                    pending: Seq::empty(),
                    in_flight: bytes.len() as u64,
                    ..self
                },
                ActionView::Write(bytes),
            )
        }
    }

    /// A flush starts. Without an active segment there is nothing to flush.
    pub open spec fn fsync(self) -> (WalView, ActionView) {
        if self.phase != Phase::Idle {
            (self, ActionView::Failed(WalError::OutOfTurn))
        } else if !self.active {
            (self, ActionView::Synced)
        } else {
            (WalView { phase: Phase::Syncing, ..self }, ActionView::Sync)
        }
    }

    /// The caller reports how the action went that the log asked for. A
    /// failed open or write leaves the log without an active segment.
    pub open spec fn completed(self, outcome: IoOutcome) -> (WalView, ActionView) {
        match (self.phase, outcome) {
            (Phase::Opening, IoOutcome::Opened(len)) => WalView {
                active: true,
                end: len,
                durable: len,
                ..self
            }.write(self.pending),
            (Phase::Opening, IoOutcome::Failed) => (
                WalView::initial(),
                ActionView::Failed(WalError::Io),
            ),
            (Phase::Writing, IoOutcome::Done) => (
                WalView {
                    end: (self.end + self.in_flight) as u64,
                    phase: Phase::Idle,
                    in_flight: 0,
                    ..self
                },
                ActionView::Appended(self.end),
            ),
            (Phase::Writing, IoOutcome::Failed) => (
                WalView::initial(),
                ActionView::Failed(WalError::Io),
            ),
            (Phase::Syncing, IoOutcome::Done) => (
                WalView { durable: self.end, phase: Phase::Idle, ..self },
                ActionView::Synced,
            ),
            (Phase::Syncing, IoOutcome::Failed) => (
                WalView { phase: Phase::Idle, ..self },
                ActionView::Failed(WalError::Io),
            ),
            _ => (self, ActionView::Failed(WalError::OutOfTurn)),
        }
    }
}

/// Every step of the log keeps its state well formed.
pub proof fn lemma_steps_keep_wf(s: WalView, payload: Seq<u8>, outcome: IoOutcome)
    requires
        s.wf(),
    ensures
        WalView::initial().wf(),
        s.append(payload).0.wf(),
        s.fsync().0.wf(),
        s.completed(outcome).0.wf(),
{
}

/// An append on an idle log with an active segment asks for one write of
/// exactly the record's frame; once that write is reported done, the record
/// is said to start where the segment ended before, the segment has grown by
/// the frame, and the log is idle again. A flush that is then reported done
/// marks the whole segment, the record included, as durable.
pub proof fn lemma_append_then_fsync(s: WalView, payload: Seq<u8>)
    requires
        s.wf(),
        s.active,
        s.phase == Phase::Idle,
        s.end + frame(payload).len() <= u64::MAX,
    ensures
        s.append(payload).1 == ActionView::Write(frame(payload)),
        ({
            let written = s.append(payload).0.completed(IoOutcome::Done);
            let flushing = written.0.fsync();
            let flushed = flushing.0.completed(IoOutcome::Done);
            &&& written.1 == ActionView::Appended(s.end)
            &&& written.0.end == s.end + frame(payload).len()
            &&& written.0.phase == Phase::Idle
            &&& written.0.durable == s.durable
            &&& flushing.1 == ActionView::Sync
            &&& flushed.1 == ActionView::Synced
            &&& flushed.0.durable == s.end + frame(payload).len()
            &&& flushed.0.end == flushed.0.durable
            &&& flushed.0.active
        }),
{
}

/// The first append opens a segment before it writes: the log asks for the
/// segment, and once told its length asks for the write of the record's
/// frame, which will start at that length.
pub proof fn lemma_first_append_opens(s: WalView, payload: Seq<u8>, len: u64)
    requires
        s.wf(),
        !s.active,
        s.phase == Phase::Idle,
        len + frame(payload).len() <= u64::MAX,
    ensures
        s.append(payload).1 == ActionView::OpenSegment,
        ({
            let opened = s.append(payload).0.completed(IoOutcome::Opened(len));
            let written = opened.0.completed(IoOutcome::Done);
            &&& opened.1 == ActionView::Write(frame(payload))
            &&& opened.0.active
            &&& written.1 == ActionView::Appended(len)
            &&& written.0.end == len + frame(payload).len()
        }),
{
}

/// A flush without an active segment succeeds at once and changes nothing.
pub proof fn lemma_fsync_without_segment(s: WalView)
    requires
        s.wf(),
        !s.active,
        s.phase == Phase::Idle,
    ensures
        s.fsync() == (s, ActionView::Synced),
{
}

/// A failed open or write is reported as an error, never as an append, and
/// leaves the log without an active segment; a failed flush is reported as
/// an error and marks nothing more as durable.
pub proof fn lemma_failures_surface(s: WalView)
    requires
        s.wf(),
        s.phase != Phase::Idle,
    ensures
        s.completed(IoOutcome::Failed).1 == ActionView::Failed(WalError::Io),
        s.phase != Phase::Syncing ==> s.completed(IoOutcome::Failed).0 == WalView::initial(),
        s.phase == Phase::Syncing ==> s.completed(IoOutcome::Failed).0.durable == s.durable,
{
}

/// The decisions of a write-ahead log about its active segment. The log
/// does no input or output itself: each call answers with the action that
/// its caller has to perform, and `completed` takes the outcome.
pub struct Wal {
    active: bool,
    end: u64,
    durable: u64,
    phase: Phase,
    pending: Vec<u8>,
    in_flight: u64,
}

impl View for Wal {
    type V = WalView;

    closed spec fn view(&self) -> WalView {
        WalView {
            active: self.active,
            end: self.end,
            durable: self.durable,
            phase: self.phase,
            pending: self.pending@,
            in_flight: self.in_flight,
        }
    }
}

impl Wal {
    #[verifier::type_invariant]
    spec fn inv(&self) -> bool {
        self@.wf()
    }

    /// A log without an active segment.
    pub fn new() -> (r: Wal)
        ensures
            r@ == WalView::initial(),
    {
        Wal { active: false, end: 0, durable: 0, phase: Phase::Idle, pending: Vec::new(), in_flight: 0 }
    }

    /// Starts appending `record`. The answer is `OpenSegment` where no
    /// segment is active, else `Write` with the record's bytes: its length,
    /// least significant byte first, then its payload.
    pub fn append(&mut self, record: &WriteRecord) -> (a: WalAction)
        ensures
            (final(self)@, a@) == old(self)@.append(record.payload()),
            final(self)@.wf(),
    {
        proof {
            use_type_invariant(&*self);
        }
        match self.phase {
            Phase::Idle => {},
            _ => {
                return WalAction::Failed(WalError::OutOfTurn);
            },
        }
        let bytes = record.encode();
        if !self.active {
            *self = Wal {
                active: false,
                end: self.end,
                durable: self.durable,
                phase: Phase::Opening,
                pending: bytes,
                in_flight: 0,
            };
            assert(self@ =~~= old(self)@.append(record.payload()).0);
            return WalAction::OpenSegment;
        }
        self.start_write(bytes)
    }

    /// Starts flushing the active segment. Without one the flush is done at
    /// once.
    pub fn fsync(&mut self) -> (a: WalAction)
        ensures
            (final(self)@, a@) == old(self)@.fsync(),
            final(self)@.wf(),
    {
        proof {
            use_type_invariant(&*self);
        }
        match self.phase {
            Phase::Idle => {},
            _ => {
                return WalAction::Failed(WalError::OutOfTurn);
            },
        }
        if !self.active {
            return WalAction::Synced;
        }
        self.phase = Phase::Syncing;
        assert(self@ =~~= old(self)@.fsync().0);
        WalAction::Sync
    }

    /// Takes the outcome of the action that the log asked for last, and
    /// answers with the next action or with the end of the operation.
    pub fn completed(&mut self, outcome: IoOutcome) -> (a: WalAction)
        ensures
            (final(self)@, a@) == old(self)@.completed(outcome),
            final(self)@.wf(),
    {
        proof {
            use_type_invariant(&*self);
        }
        match (self.phase, outcome) {
            (Phase::Opening, IoOutcome::Opened(len)) => {
                let mut bytes: Vec<u8> = Vec::new();
                core::mem::swap(&mut bytes, &mut self.pending);
                *self = Wal {
                    active: true,
                    end: len,
                    durable: len,
                    phase: Phase::Idle,
                    pending: Vec::new(),
                    in_flight: 0,
                };
                let a = self.start_write(bytes);
                assert(self@ =~~= old(self)@.completed(outcome).0);
                a
            },
            (Phase::Opening, IoOutcome::Failed) | (Phase::Writing, IoOutcome::Failed) => {
                *self = Wal::new();
                WalAction::Failed(WalError::Io)
            },
            (Phase::Writing, IoOutcome::Done) => {
                let offset: u64 = self.end;
                *self = Wal {
                    active: true,
                    end: self.end + self.in_flight,
                    durable: self.durable,
                    phase: Phase::Idle,
                    pending: Vec::new(),
                    in_flight: 0,
                };
                assert(self@ =~~= old(self)@.completed(outcome).0);
                WalAction::Appended(offset)
            },
            (Phase::Syncing, IoOutcome::Done) => {
                *self = Wal {
                    active: true,
                    end: self.end,
                    durable: self.end,
                    phase: Phase::Idle,
                    pending: Vec::new(),
                    in_flight: 0,
                };
                assert(self@ =~~= old(self)@.completed(outcome).0);
                WalAction::Synced
            },
            (Phase::Syncing, IoOutcome::Failed) => {
                self.phase = Phase::Idle;
                assert(self@ =~~= old(self)@.completed(outcome).0);
                WalAction::Failed(WalError::Io)
            },
            _ => WalAction::Failed(WalError::OutOfTurn),
        }
    }

    /// The bytes of a record go to the end of the active segment, unless
    /// they would pass the largest offset.
    fn start_write(&mut self, bytes: Vec<u8>) -> (a: WalAction)
        requires
            old(self).active,
            old(self).phase == Phase::Idle,
        ensures
            (final(self)@, a@) == old(self)@.write(bytes@),
            final(self)@.wf(),
    {
        proof {
            use_type_invariant(&*self);
        }
        let n: usize = bytes.len();
        if n as u64 > u64::MAX - self.end {
            assert(self@ =~~= old(self)@.write(bytes@).0);
            return WalAction::Failed(WalError::SegmentFull);
        }
        *self = Wal {
            active: true,
            end: self.end,
            durable: self.durable,
            phase: Phase::Writing,
            pending: Vec::new(),
            in_flight: n as u64,
        };
        assert(self@ =~~= old(self)@.write(bytes@).0);
        WalAction::Write(bytes)
    }
}

} // verus!
