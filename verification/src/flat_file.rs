//! Flat-file replay: the record formats, how one record decodes, how a read
//! fills a record buffer, and the replay's looping state machine.
//!
//! The replay's I/O (opening the file, reading bytes) is done by its caller:
//! this module decides what is read next and what each outcome means.

use vstd::prelude::*;

use crate::bytes::{
    read_word32, read_word64, read_words32, read_words64, spec_word32, spec_word64, ByteOrder,
};

verus! {

/// Wire format used for flat-file replay.
#[derive(Clone, Copy, Debug, PartialEq, Eq, Structural)]
pub enum FlatFileFormat {
    /// `f32 timestamp_seconds`, followed by `variable_count` payload `f32`s.
    F32 { variable_count: usize },
    /// `u32 marker`, `f64 timestamp_seconds`, `variable_count` payload `f64`s, `u32 marker`.
    SentinelF64 { variable_count: usize },
}

impl FlatFileFormat {
    pub open spec fn spec_variable_count(self) -> usize {
        match self {
            FlatFileFormat::F32 { variable_count } => variable_count,
            FlatFileFormat::SentinelF64 { variable_count } => variable_count,
        }
    }

    /// The bytes of one record.
    pub open spec fn spec_record_len(self) -> int {
        match self {
            FlatFileFormat::F32 { variable_count } => 4 + 4 * variable_count,
            FlatFileFormat::SentinelF64 { variable_count } => 16 + 8 * variable_count,
        }
    }

    /// The bytes read before the replay knows whether the file has ended:
    /// the timestamp of an `F32` record, the whole of a sentinel record.
    pub open spec fn spec_head_len(self) -> int {
        match self {
            FlatFileFormat::F32 { .. } => 4,
            FlatFileFormat::SentinelF64 { variable_count } => 16 + 8 * variable_count,
        }
    }

    /// The number of payload values in one record.
    pub fn variable_count(&self) -> (r: usize)
        ensures
            r == self.spec_variable_count(),
    {
        match self {
            FlatFileFormat::F32 { variable_count } => *variable_count,
            FlatFileFormat::SentinelF64 { variable_count } => *variable_count,
        }
    }

    /// The bytes of one record, when that fits in `usize`.
    pub fn record_len(&self) -> (r: Option<usize>)
        ensures
            match r {
                Some(n) => n == self.spec_record_len(),
                None => self.spec_record_len() > usize::MAX,
            },
    {
        match self {
            FlatFileFormat::F32 { variable_count } => {
                if *variable_count <= (usize::MAX - 4) / 4 {
                    Some(4 + 4 * *variable_count)
                } else {
                    None
                }
            },
            FlatFileFormat::SentinelF64 { variable_count } => {
                if *variable_count <= (usize::MAX - 16) / 8 {
                    Some(16 + 8 * *variable_count)
                } else {
                    None
                }
            },
        }
    }

    /// The bytes read first from each record: a clean end of file may only
    /// come before them.
    pub fn head_len(&self) -> (r: usize)
        requires
            self.spec_record_len() <= usize::MAX,
        ensures
            r == self.spec_head_len(),
    {
        match self {
            FlatFileFormat::F32 { .. } => 4,
            FlatFileFormat::SentinelF64 { variable_count } => 16 + 8 * *variable_count,
        }
    }
}

/// How a timestamp stands for the replay.
#[derive(Clone, Copy, Debug, PartialEq, Eq, Structural)]
pub enum TimestampClass {
    /// Infinite or NaN: the file is corrupt.
    NonFinite,
    /// Below zero: the recording has ended.
    Negative,
    /// Zero or above (including `-0.0`): a frame time.
    Usable,
}

/// The class of an IEEE-754 single-precision value, given by its bits: all
/// exponent bits set means infinite or NaN; otherwise the sign bit with any
/// nonzero magnitude means below zero.
pub open spec fn spec_classify_f32(bits: u32) -> TimestampClass {
    if (bits / 0x80_0000) % 0x100 == 0xff {
        TimestampClass::NonFinite
    } else if bits >= 0x8000_0000 && bits != 0x8000_0000 {
        TimestampClass::Negative
    } else {
        TimestampClass::Usable
    }
}

/// The class of an IEEE-754 double-precision value, given by its bits.
pub open spec fn spec_classify_f64(bits: u64) -> TimestampClass {
    if (bits / 0x10_0000_0000_0000) % 0x800 == 0x7ff {
        TimestampClass::NonFinite
    } else if bits >= 0x8000_0000_0000_0000 && bits != 0x8000_0000_0000_0000 {
        TimestampClass::Negative
    } else {
        TimestampClass::Usable
    }
}

/// A single-precision timestamp's class follows its IEEE-754 fields: all
/// eight exponent bits set is infinite or NaN; any other value ends the
/// recording exactly when its sign bit is set and its magnitude is not zero.
/// Every value from `0.0` up, and `-0.0`, is a frame time.
pub proof fn lemma_f32_class_by_fields(bits: u32)
    ensures
        (spec_classify_f32(bits) == TimestampClass::NonFinite) == ((bits >> 23u32) & 0xffu32
            == 0xffu32),
        (bits >> 23u32) & 0xffu32 != 0xffu32 ==> ((spec_classify_f32(bits)
            == TimestampClass::Negative) == ((bits >> 31u32) == 1u32 && (bits & 0x7fff_ffffu32)
            != 0u32)),
        (bits >> 23u32) & 0xffu32 != 0xffu32 ==> ((spec_classify_f32(bits)
            == TimestampClass::Usable) == ((bits >> 31u32) == 0u32 || (bits & 0x7fff_ffffu32)
            == 0u32)),
{
    assert((bits / 0x80_0000) % 0x100 == (bits >> 23u32) & 0xffu32) by (bit_vector);
    assert((bits >= 0x8000_0000u32 && bits != 0x8000_0000u32) == ((bits >> 31u32) == 1u32 && (bits
        & 0x7fff_ffffu32) != 0u32)) by (bit_vector);
    assert((bits >> 31u32) == 0u32 || (bits >> 31u32) == 1u32) by (bit_vector);
}

/// A double-precision timestamp's class follows its IEEE-754 fields: all
/// eleven exponent bits set is infinite or NaN; any other value ends the
/// recording exactly when its sign bit is set and its magnitude is not zero.
/// Every value from `0.0` up, and `-0.0`, is a frame time.
pub proof fn lemma_f64_class_by_fields(bits: u64)
    ensures
        (spec_classify_f64(bits) == TimestampClass::NonFinite) == ((bits >> 52u64) & 0x7ffu64
            == 0x7ffu64),
        (bits >> 52u64) & 0x7ffu64 != 0x7ffu64 ==> ((spec_classify_f64(bits)
            == TimestampClass::Negative) == ((bits >> 63u64) == 1u64 && (bits
            & 0x7fff_ffff_ffff_ffffu64) != 0u64)),
        (bits >> 52u64) & 0x7ffu64 != 0x7ffu64 ==> ((spec_classify_f64(bits)
            == TimestampClass::Usable) == ((bits >> 63u64) == 0u64 || (bits
            & 0x7fff_ffff_ffff_ffffu64) == 0u64)),
{
    assert((bits / 0x10_0000_0000_0000) % 0x800 == (bits >> 52u64) & 0x7ffu64) by (bit_vector);
    assert((bits >= 0x8000_0000_0000_0000u64 && bits != 0x8000_0000_0000_0000u64) == ((bits
        >> 63u64) == 1u64 && (bits & 0x7fff_ffff_ffff_ffffu64) != 0u64)) by (bit_vector);
    assert((bits >> 63u64) == 0u64 || (bits >> 63u64) == 1u64) by (bit_vector);
}

/// Classifies a single-precision timestamp by its bits.
pub fn classify_f32_bits(bits: u32) -> (r: TimestampClass)
    ensures
        r == spec_classify_f32(bits),
{
    if (bits / 0x80_0000) % 0x100 == 0xff {
        TimestampClass::NonFinite
    } else if bits >= 0x8000_0000 && bits != 0x8000_0000 {
        TimestampClass::Negative
    } else {
        TimestampClass::Usable
    }
}

/// Classifies a double-precision timestamp by its bits.
pub fn classify_f64_bits(bits: u64) -> (r: TimestampClass)
    ensures
        r == spec_classify_f64(bits),
{
    if (bits / 0x10_0000_0000_0000) % 0x800 == 0x7ff {
        TimestampClass::NonFinite
    } else if bits >= 0x8000_0000_0000_0000 && bits != 0x8000_0000_0000_0000 {
        TimestampClass::Negative
    } else {
        TimestampClass::Usable
    }
}

/// One decoded record, before its floats are converted: the bits of its
/// timestamp and of its payload values.
#[derive(Clone, Debug, PartialEq, Eq)]
#[allow(inconsistent_fields)]
pub enum RawFrame {
    /// An `F32` record: single-precision timestamp and payload.
    F32 { time_bits: u32, payload: Vec<u32> },
    /// A sentinel record: double-precision timestamp and payload.
    F64 { time_bits: u64, payload: Vec<u64> },
}

/// What one read from a flat file gives.
#[derive(Clone, Debug, PartialEq, Eq)]
pub enum FlatFileRead {
    Frame(RawFrame),
    /// The file ended cleanly, or its recording ended (a negative timestamp).
    Closed,
}

/// Why a record could not be read.
#[derive(Clone, Copy, Debug, PartialEq, Eq, Structural)]
pub enum FlatFileError {
    /// The two markers of a sentinel record differ.
    MarkerMismatch,
    /// A single-precision timestamp is infinite or NaN (its bits).
    NonFiniteTimestamp32(u32),
    /// A double-precision timestamp is infinite or NaN (its bits).
    NonFiniteTimestamp64(u64),
    /// The file ended inside a record.
    PartialFrame,
}

/// `r` is what the `F32` record `record` decodes to: a non-finite timestamp
/// is an error, a negative one ends the replay, otherwise the timestamp bits
/// and the `variable_count` payload words that follow it.
pub open spec fn decodes_f32(
    record: Seq<u8>,
    variable_count: usize,
    order: ByteOrder,
    r: Result<FlatFileRead, FlatFileError>,
) -> bool {
    let time = spec_word32(record, 0, order);
    match r {
        Ok(FlatFileRead::Frame(RawFrame::F32 { time_bits, payload })) => {
            &&& spec_classify_f32(time) == TimestampClass::Usable
            &&& time_bits == time
            &&& payload.len() == variable_count
            &&& forall|i: int|
                0 <= i < variable_count ==> #[trigger] payload@[i] == spec_word32(
                    record,
                    4 + 4 * i,
                    order,
                )
        },
        Ok(FlatFileRead::Frame(RawFrame::F64 { .. })) => false,
        Ok(FlatFileRead::Closed) => spec_classify_f32(time) == TimestampClass::Negative,
        Err(e) => spec_classify_f32(time) == TimestampClass::NonFinite
            && e == FlatFileError::NonFiniteTimestamp32(time),
    }
}

/// `r` is what the sentinel record `record` decodes to: differing markers
/// are an error, then a non-finite timestamp is an error, a negative one
/// ends the replay, otherwise the timestamp bits and the payload words.
pub open spec fn decodes_f64(
    record: Seq<u8>,
    variable_count: usize,
    order: ByteOrder,
    r: Result<FlatFileRead, FlatFileError>,
) -> bool {
    let start = spec_word32(record, 0, order);
    let end = spec_word32(record, 12 + 8 * variable_count, order);
    let time = spec_word64(record, 4, order);
    match r {
        Err(FlatFileError::MarkerMismatch) => start != end,
        Err(e) => start == end && spec_classify_f64(time) == TimestampClass::NonFinite && e
            == FlatFileError::NonFiniteTimestamp64(time),
        Ok(FlatFileRead::Closed) => start == end && spec_classify_f64(time)
            == TimestampClass::Negative,
        Ok(FlatFileRead::Frame(RawFrame::F64 { time_bits, payload })) => {
            &&& start == end
            &&& time_bits == time
            &&& spec_classify_f64(time) == TimestampClass::Usable
            &&& payload.len() == variable_count
            &&& forall|i: int|
                0 <= i < variable_count ==> #[trigger] payload@[i] == spec_word64(
                    record,
                    12 + 8 * i,
                    order,
                )
        },
        Ok(FlatFileRead::Frame(RawFrame::F32 { .. })) => false,
    }
}

/// `r` is what one record of `format` decodes to.
pub open spec fn decodes_record(
    record: Seq<u8>,
    format: FlatFileFormat,
    order: ByteOrder,
    r: Result<FlatFileRead, FlatFileError>,
) -> bool {
    match format {
        FlatFileFormat::F32 { variable_count } => decodes_f32(record, variable_count, order, r),
        FlatFileFormat::SentinelF64 { variable_count } => decodes_f64(
            record,
            variable_count,
            order,
            r,
        ),
    }
}

/// Decodes one `F32` record: the timestamp word, then `variable_count`
/// payload words. A negative timestamp ends the replay; a non-finite one is
/// an error.
pub fn decode_f32_record(record: &[u8], variable_count: usize, order: ByteOrder) -> (r: Result<
    FlatFileRead,
    FlatFileError,
>)
    requires
        record.len() == 4 + 4 * variable_count,
    ensures
        decodes_f32(record@, variable_count, order, r),
{
    let time_bits = read_word32(record, 0, order);
    match classify_f32_bits(time_bits) {
        TimestampClass::NonFinite => Err(FlatFileError::NonFiniteTimestamp32(time_bits)),
        TimestampClass::Negative => Ok(FlatFileRead::Closed),
        TimestampClass::Usable => {
            let payload = read_words32(record, 4, variable_count, order);
            Ok(FlatFileRead::Frame(RawFrame::F32 { time_bits, payload }))
        },
    }
}

/// Decodes one sentinel record: start marker, double-precision timestamp,
/// `variable_count` double-precision payload words, end marker. Differing
/// markers are an error, checked before the timestamp.
pub fn decode_sentinel_f64_record(record: &[u8], variable_count: usize, order: ByteOrder) -> (r:
    Result<FlatFileRead, FlatFileError>)
    requires
        record.len() == 16 + 8 * variable_count,
    ensures
        decodes_f64(record@, variable_count, order, r),
{
    let start = read_word32(record, 0, order);
    let end = read_word32(record, 12 + 8 * variable_count, order);
    if start != end {
        return Err(FlatFileError::MarkerMismatch);
    }
    let time_bits = read_word64(record, 4, order);
    match classify_f64_bits(time_bits) {
        TimestampClass::NonFinite => Err(FlatFileError::NonFiniteTimestamp64(time_bits)),
        TimestampClass::Negative => Ok(FlatFileRead::Closed),
        TimestampClass::Usable => {
            let payload = read_words64(record, 12, variable_count, order);
            Ok(FlatFileRead::Frame(RawFrame::F64 { time_bits, payload }))
        },
    }
}

/// Decodes one record of `format`.
pub fn decode_record(record: &[u8], format: FlatFileFormat, order: ByteOrder) -> (r: Result<
    FlatFileRead,
    FlatFileError,
>)
    requires
        record.len() == format.spec_record_len(),
    ensures
        decodes_record(record@, format, order, r),
{
    match format {
        FlatFileFormat::F32 { variable_count } => decode_f32_record(record, variable_count, order),
        FlatFileFormat::SentinelF64 { variable_count } => decode_sentinel_f64_record(
            record,
            variable_count,
            order,
        ),
    }
}

/// Progress in filling a record buffer of `len` bytes from a stream.
#[derive(Clone, Copy, Debug, PartialEq, Eq, Structural)]
pub struct FillState {
    /// The bytes the record needs.
    pub len: usize,
    /// The bytes read so far.
    pub filled: usize,
}

impl FillState {
    /// Nothing read yet.
    pub fn new(len: usize) -> (r: FillState)
        ensures
            r.len == len,
            r.filled == 0,
    {
        FillState { len, filled: 0 }
    }

    /// Whether the whole record has been read.
    pub fn is_complete(&self) -> (r: bool)
        ensures
            r == (self.filled == self.len),
    {
        self.filled == self.len
    }

    /// Where the next read stores its bytes: `filled..len`.
    pub fn remaining(&self) -> (r: usize)
        requires
            self.filled <= self.len,
        ensures
            r == self.len - self.filled,
    {
        self.len - self.filled
    }
}

/// What one read from the stream gave.
#[derive(Clone, Copy, Debug, PartialEq, Eq, Structural)]
pub enum ReadOutcome {
    /// `n` bytes were stored; zero means the end of the stream.
    Bytes(usize),
    /// The read was interrupted before any byte; it is tried again.
    Interrupted,
    /// Any other read error.
    Failed,
}

/// What to do after a read.
#[derive(Clone, Copy, Debug, PartialEq, Eq, Structural)]
pub enum FillStep {
    /// Read again into the rest of the buffer.
    Continue,
    /// The record is complete.
    Complete,
    /// The stream ended before the record's first byte: a clean end.
    Closed,
    /// The stream ended inside the record.
    PartialFrame,
    /// The read error is passed on.
    Failed,
}

/// The state after one read, and what to do next.
pub open spec fn spec_fill_step(s: FillState, outcome: ReadOutcome) -> (FillState, FillStep) {
    match outcome {
        ReadOutcome::Bytes(n) => if n == 0 {
            if s.filled == 0 {
                (s, FillStep::Closed)
            } else {
                (s, FillStep::PartialFrame)
            }
        } else {
            let t = FillState { filled: (s.filled + n) as usize, ..s };
            if t.filled == s.len {
                (t, FillStep::Complete)
            } else {
                (t, FillStep::Continue)
            }
        },
        ReadOutcome::Interrupted => (s, FillStep::Continue),
        ReadOutcome::Failed => (s, FillStep::Failed),
    }
}

/// Whether a read may follow in state `s` with this outcome: the record is
/// not complete yet, and a read stores no more bytes than it was offered.
pub open spec fn fill_accepts(s: FillState, outcome: ReadOutcome) -> bool {
    &&& s.filled < s.len
    &&& outcome matches ReadOutcome::Bytes(n) ==> n <= s.len - s.filled
}

/// One read towards a whole record, or towards a clean end of stream: an
/// end of stream before the first byte is a clean end, one after it is a
/// partial frame; interrupted reads are tried again; other errors end the
/// fill.
pub fn read_exact_or_closed(state: &mut FillState, outcome: ReadOutcome) -> (step: FillStep)
    requires
        fill_accepts(*old(state), outcome),
    ensures
        (*final(state), step) == spec_fill_step(*old(state), outcome),
{
    match outcome {
        ReadOutcome::Bytes(n) => {
            if n == 0 {
                if state.filled == 0 {
                    FillStep::Closed
                } else {
                    FillStep::PartialFrame
                }
            } else {
                state.filled = state.filled + n;
                if state.filled == state.len {
                    FillStep::Complete
                } else {
                    FillStep::Continue
                }
            }
        },
        ReadOutcome::Interrupted => FillStep::Continue,
        ReadOutcome::Failed => FillStep::Failed,
    }
}

/// The bytes stored by a sequence of reads.
pub open spec fn bytes_read(outcomes: Seq<ReadOutcome>) -> nat
    decreases outcomes.len(),
{
    if outcomes.len() == 0 {
        0
    } else {
        (match outcomes.last() {
            ReadOutcome::Bytes(n) => n as nat,
            _ => 0nat,
        }) + bytes_read(outcomes.drop_last())
    }
}

/// The fill state after a sequence of reads.
pub open spec fn fill_run(s: FillState, outcomes: Seq<ReadOutcome>) -> FillState
    decreases outcomes.len(),
{
    if outcomes.len() == 0 {
        s
    } else {
        spec_fill_step(fill_run(s, outcomes.drop_last()), outcomes.last()).0
    }
}

/// Every read of the sequence was allowed and asked for more (`Continue`),
/// but possibly the last.
pub open spec fn fill_run_continues(s: FillState, outcomes: Seq<ReadOutcome>) -> bool
    decreases outcomes.len(),
{
    outcomes.len() == 0 || ({
        let before = fill_run(s, outcomes.drop_last());
        &&& fill_run_continues(s, outcomes.drop_last())
        &&& fill_accepts(before, outcomes.last())
        &&& (outcomes.len() > 1 ==> spec_fill_step(
            fill_run(s, outcomes.drop_last().drop_last()),
            outcomes.drop_last().last(),
        ).1 == FillStep::Continue)
    })
}

/// A fill counts every byte it is given: after a run of reads, the buffer
/// holds exactly the bytes those reads stored, never more than the record;
/// so a completed record is exactly `len` bytes of reads, and a clean end
/// is reported only when no byte of the record was read.
pub proof fn lemma_fill_counts_bytes(len: usize, outcomes: Seq<ReadOutcome>)
    requires
        fill_run_continues(FillState::new_spec(len), outcomes),
    ensures
        fill_run(FillState::new_spec(len), outcomes).filled == bytes_read(outcomes),
        fill_run(FillState::new_spec(len), outcomes).len == len,
        bytes_read(outcomes) <= len,
        outcomes.len() > 0 ==> (spec_fill_step(
            fill_run(FillState::new_spec(len), outcomes.drop_last()),
            outcomes.last(),
        ).1 == FillStep::Complete ==> bytes_read(outcomes) == len),
        outcomes.len() > 0 ==> (spec_fill_step(
            fill_run(FillState::new_spec(len), outcomes.drop_last()),
            outcomes.last(),
        ).1 == FillStep::Closed ==> bytes_read(outcomes) == 0),
    decreases outcomes.len(),
{
    if outcomes.len() > 0 {
        lemma_fill_counts_bytes(len, outcomes.drop_last());
    }
}

impl FillState {
    pub open spec fn new_spec(len: usize) -> FillState {
        FillState { len, filled: 0 }
    }
}

/// Where a replay is within a read: between reads, waiting for the file to
/// be opened again, or waiting for a record.
#[derive(Clone, Copy, Debug, PartialEq, Eq, Structural)]
pub enum ReplayPhase {
    Idle,
    Reopening,
    Reading,
}

/// The state of a flat-file replay.
#[derive(Clone, Copy, Debug, PartialEq, Eq, Structural)]
pub struct ReplayState {
    /// A file path and an open reader exist (they come and go together).
    pub has_source: bool,
    /// The last read ended the file; the next read starts it over.
    pub finished: bool,
    /// The current read has already started the file over once.
    pub looped: bool,
    pub phase: ReplayPhase,
    /// Records skipped after each one returned.
    pub skip: usize,
    /// Records still to skip before the next one is returned.
    pub to_skip: usize,
}

/// What happened since the replay's last action.
#[derive(Clone, Copy, Debug, PartialEq, Eq, Structural)]
pub enum ReplayEvent {
    /// A new read is asked for.
    Begin,
    /// The file was opened again.
    Reopened,
    /// Opening the file again failed.
    ReopenFailed,
    /// A record was read and decoded into a frame.
    Frame,
    /// The file ended cleanly, or a record ended the recording.
    Closed,
    /// Reading or decoding a record failed.
    ReadFailed,
}

/// What the replay's caller does next.
#[derive(Clone, Copy, Debug, PartialEq, Eq, Structural)]
pub enum ReplayAction {
    /// Open the file again from its start, replacing the reader.
    Reopen,
    /// Read and decode the next record.
    ReadRecord,
    /// Return the frame just read.
    ReturnFrame,
    /// Return that the replay is closed.
    ReturnClosed,
    /// Return the read error; the path and reader are dropped.
    ReturnReadError,
    /// Return the error of opening the file again; path and reader stay.
    ReturnReopenError,
}

/// Whether the replay waits for this event.
pub open spec fn replay_accepts(s: ReplayState, e: ReplayEvent) -> bool {
    match s.phase {
        ReplayPhase::Idle => e is Begin,
        ReplayPhase::Reopening => e is Reopened || e is ReopenFailed,
        ReplayPhase::Reading => e is Frame || e is Closed || e is ReadFailed,
    }
}

/// The replay's next state and action after an event.
///
/// A read first starts a finished file over; then reads records. The first
/// end of file within a read starts the file over once more; a second one,
/// or an end with no file, ends the read as closed. A failed read drops the
/// file for good. After a returned frame, `skip` frames are read and
/// dropped before the next one is returned.
pub open spec fn spec_replay_step(s: ReplayState, e: ReplayEvent) -> (ReplayState, ReplayAction) {
    match e {
        ReplayEvent::Begin => {
            if s.finished && s.has_source {
                (ReplayState { looped: false, phase: ReplayPhase::Reopening, ..s }, ReplayAction::Reopen)
            } else if !s.has_source {
                (
                    ReplayState { looped: false, finished: true, phase: ReplayPhase::Idle, ..s },
                    ReplayAction::ReturnClosed,
                )
            } else {
                (
                    ReplayState { looped: false, phase: ReplayPhase::Reading, ..s },
                    ReplayAction::ReadRecord,
                )
            }
        },
        ReplayEvent::Reopened => (
            ReplayState { finished: false, phase: ReplayPhase::Reading, ..s },
            ReplayAction::ReadRecord,
        ),
        ReplayEvent::ReopenFailed => (
            ReplayState { phase: ReplayPhase::Idle, ..s },
            ReplayAction::ReturnReopenError,
        ),
        ReplayEvent::Frame => {
            if s.to_skip > 0 {
                (ReplayState { to_skip: (s.to_skip - 1) as usize, ..s }, ReplayAction::ReadRecord)
            } else {
                (
                    ReplayState { to_skip: s.skip, phase: ReplayPhase::Idle, ..s },
                    ReplayAction::ReturnFrame,
                )
            }
        },
        ReplayEvent::Closed => {
            if s.has_source && !s.looped {
                (
                    ReplayState { looped: true, phase: ReplayPhase::Reopening, ..s },
                    ReplayAction::Reopen,
                )
            } else {
                (
                    ReplayState { finished: true, phase: ReplayPhase::Idle, ..s },
                    ReplayAction::ReturnClosed,
                )
            }
        },
        ReplayEvent::ReadFailed => (
            ReplayState {
                has_source: false,
                finished: true,
                phase: ReplayPhase::Idle,
                ..s
            },
            ReplayAction::ReturnReadError,
        ),
    }
}

/// A flat-file replay: which file operation comes next, and what each
/// outcome means. Its caller holds the file and performs the operations.
pub struct FlatFileReplay {
    format: FlatFileFormat,
    state: ReplayState,
}

impl View for FlatFileReplay {
    type V = ReplayState;

    closed spec fn view(&self) -> ReplayState {
        self.state
    }
}

impl FlatFileReplay {
    pub closed spec fn spec_format(&self) -> FlatFileFormat {
        self.format
    }

    /// A replay of a file that was just opened: the next read reads its
    /// first record; after each returned frame `skip` frames are dropped.
    pub fn opened(format: FlatFileFormat, skip: usize) -> (r: FlatFileReplay)
        ensures
            r.spec_format() == format,
            r@ == (ReplayState {
                has_source: true,
                finished: false,
                looped: false,
                phase: ReplayPhase::Idle,
                skip,
                to_skip: 0,
            }),
    {
        FlatFileReplay {
            format,
            state: ReplayState {
                has_source: true,
                finished: false,
                looped: false,
                phase: ReplayPhase::Idle,
                skip,
                to_skip: 0,
            },
        }
    }

    /// A replay with no file: every read is closed.
    pub fn closed(format: FlatFileFormat) -> (r: FlatFileReplay)
        ensures
            r.spec_format() == format,
            r@ == (ReplayState {
                has_source: false,
                finished: true,
                looped: false,
                phase: ReplayPhase::Idle,
                skip: 0,
                to_skip: 0,
            }),
    {
        FlatFileReplay {
            format,
            state: ReplayState {
                has_source: false,
                finished: true,
                looped: false,
                phase: ReplayPhase::Idle,
                skip: 0,
                to_skip: 0,
            },
        }
    }

    /// The record format.
    pub fn format(&self) -> (r: FlatFileFormat)
        ensures
            r == self.spec_format(),
    {
        self.format
    }

    /// Drops the file: every later read is closed.
    pub fn mark_finished(&mut self)
        ensures
            final(self).spec_format() == old(self).spec_format(),
            final(self)@ == (ReplayState {
                has_source: false,
                finished: true,
                phase: ReplayPhase::Idle,
                ..old(self)@
            }),
    {
        self.state = ReplayState {
            has_source: false,
            finished: true,
            phase: ReplayPhase::Idle,
            ..self.state
        };
    }

    /// Whether the replay waits for `event` now.
    pub fn accepts(&self, event: ReplayEvent) -> (r: bool)
        ensures
            r == replay_accepts(self@, event),
    {
        match self.state.phase {
            ReplayPhase::Idle => event == ReplayEvent::Begin,
            ReplayPhase::Reopening => event == ReplayEvent::Reopened || event
                == ReplayEvent::ReopenFailed,
            ReplayPhase::Reading => event == ReplayEvent::Frame || event == ReplayEvent::Closed
                || event == ReplayEvent::ReadFailed,
        }
    }

    /// Takes the outcome of the last action (or the start of a read) and
    /// gives the next action.
    pub fn step(&mut self, event: ReplayEvent) -> (action: ReplayAction)
        requires
            replay_accepts(old(self)@, event),
        ensures
            final(self).spec_format() == old(self).spec_format(),
            (final(self)@, action) == spec_replay_step(old(self)@, event),
    {
        let s = self.state;
        match event {
            ReplayEvent::Begin => {
                if s.finished && s.has_source {
                    self.state = ReplayState { looped: false, phase: ReplayPhase::Reopening, ..s };
                    ReplayAction::Reopen
                } else if !s.has_source {
                    self.state = ReplayState {
                        looped: false,
                        finished: true,
                        phase: ReplayPhase::Idle,
                        ..s
                    };
                    ReplayAction::ReturnClosed
                } else {
                    self.state = ReplayState { looped: false, phase: ReplayPhase::Reading, ..s };
                    ReplayAction::ReadRecord
                }
            },
            ReplayEvent::Reopened => {
                self.state = ReplayState { finished: false, phase: ReplayPhase::Reading, ..s };
                ReplayAction::ReadRecord
            },
            ReplayEvent::ReopenFailed => {
                self.state = ReplayState { phase: ReplayPhase::Idle, ..s };
                ReplayAction::ReturnReopenError
            },
            ReplayEvent::Frame => {
                if s.to_skip > 0 {
                    self.state = ReplayState { to_skip: s.to_skip - 1, ..s };
                    ReplayAction::ReadRecord
                } else {
                    self.state = ReplayState { to_skip: s.skip, phase: ReplayPhase::Idle, ..s };
                    ReplayAction::ReturnFrame
                }
            },
            ReplayEvent::Closed => {
                if s.has_source && !s.looped {
                    self.state = ReplayState { looped: true, phase: ReplayPhase::Reopening, ..s };
                    ReplayAction::Reopen
                } else {
                    self.state = ReplayState { finished: true, phase: ReplayPhase::Idle, ..s };
                    ReplayAction::ReturnClosed
                }
            },
            ReplayEvent::ReadFailed => {
                self.state = ReplayState {
                    has_source: false,
                    finished: true,
                    phase: ReplayPhase::Idle,
                    ..s
                };
                ReplayAction::ReturnReadError
            },
        }
    }
}

/// The state and the actions of a replay after a sequence of events.
pub open spec fn replay_run(s: ReplayState, events: Seq<ReplayEvent>) -> (
    ReplayState,
    Seq<ReplayAction>,
)
    decreases events.len(),
{
    if events.len() == 0 {
        (s, Seq::empty())
    } else {
        let (s1, a) = spec_replay_step(s, events[0]);
        let (s2, actions) = replay_run(s1, events.drop_first());
        (s2, seq![a] + actions)
    }
}

/// Each event of the sequence is one the replay waits for at that point.
pub open spec fn replay_run_accepted(s: ReplayState, events: Seq<ReplayEvent>) -> bool
    decreases events.len(),
{
    events.len() == 0 || (replay_accepts(s, events[0]) && replay_run_accepted(
        spec_replay_step(s, events[0]).0,
        events.drop_first(),
    ))
}

/// The number of `Frame` events in a sequence.
pub open spec fn count_frames(events: Seq<ReplayEvent>) -> nat
    decreases events.len(),
{
    if events.len() == 0 {
        0
    } else {
        (if events[0] is Frame {
            1nat
        } else {
            0nat
        }) + count_frames(events.drop_first())
    }
}

proof fn lemma_run_shape(s: ReplayState, events: Seq<ReplayEvent>)
    requires
        events.len() > 0,
    ensures
        replay_run(s, events).1.len() == events.len(),
        replay_run(s, events).1[0] == spec_replay_step(s, events[0]).1,
        forall|i: int|
            1 <= i < events.len() ==> #[trigger] replay_run(s, events).1[i] == replay_run(
                spec_replay_step(s, events[0]).0,
                events.drop_first(),
            ).1[i - 1],
    decreases events.len(),
{
    lemma_run_len(spec_replay_step(s, events[0]).0, events.drop_first());
}

proof fn lemma_run_len(s: ReplayState, events: Seq<ReplayEvent>)
    ensures
        replay_run(s, events).1.len() == events.len(),
    decreases events.len(),
{
    if events.len() > 0 {
        lemma_run_len(spec_replay_step(s, events[0]).0, events.drop_first());
    }
}

proof fn lemma_within_read(s: ReplayState, events: Seq<ReplayEvent>)
    requires
        replay_run_accepted(s, events),
        forall|i: int| 0 <= i < events.len() ==> !(#[trigger] events[i] is Begin),
    ensures
        s.looped ==> forall|i: int|
            0 <= i < events.len() && #[trigger] events[i] is Closed ==> i == events.len() - 1
                && replay_run(s, events).1[i] is ReturnClosed,
        forall|i: int, j: int|
            0 <= i < j < events.len() && #[trigger] events[i] is Closed
                && #[trigger] events[j] is Closed ==> j == events.len() - 1 && replay_run(
                s,
                events,
            ).1[j] is ReturnClosed,
    decreases events.len(),
{
    if events.len() > 0 {
        let (s1, a0) = spec_replay_step(s, events[0]);
        let rest = events.drop_first();
        assert(!(events[0] is Begin));
        assert forall|i: int| 0 <= i < rest.len() implies !(#[trigger] rest[i] is Begin) by {
            assert(rest[i] == events[i + 1]);
        }
        lemma_within_read(s1, rest);
        lemma_run_shape(s, events);
        if s1.phase is Idle {
            if rest.len() > 0 {
                assert(replay_run_accepted(s1, rest));
                assert(replay_accepts(s1, rest[0]));
                assert(rest[0] == events[1]);
            }
            assert(rest.len() == 0);
        }
        assert forall|i: int, j: int|
            0 <= i < j < events.len() && #[trigger] events[i] is Closed
                && #[trigger] events[j] is Closed implies j == events.len() - 1 && replay_run(
            s,
            events,
        ).1[j] is ReturnClosed by {
            assert(events[j] == rest[j - 1]);
            if i > 0 {
                assert(events[i] == rest[i - 1]);
            }
        }
        assert forall|i: int|
            s.looped && 0 <= i < events.len() && #[trigger] events[i] is Closed implies i
            == events.len() - 1 && replay_run(s, events).1[i] is ReturnClosed by {
            if i > 0 {
                assert(events[i] == rest[i - 1]);
            }
        }
    }
}

/// A replay read never spins: within one read (one `Begin` at most, at the
/// start), the file is started over at most once, so the second end of file
/// the read meets is its last event and returns closed. An empty or ended
/// file therefore returns closed instead of looping forever.
pub proof fn lemma_read_ends_by_second_end_of_file(s: ReplayState, events: Seq<ReplayEvent>)
    requires
        replay_run_accepted(s, events),
        forall|i: int| 0 < i < events.len() ==> !(#[trigger] events[i] is Begin),
    ensures
        forall|i: int, j: int|
            0 <= i < j < events.len() && #[trigger] events[i] is Closed
                && #[trigger] events[j] is Closed ==> j == events.len() - 1 && replay_run(
                s,
                events,
            ).1[j] is ReturnClosed,
{
    if events.len() > 0 && events[0] is Begin {
        let (s1, a0) = spec_replay_step(s, events[0]);
        let rest = events.drop_first();
        assert forall|i: int| 0 <= i < rest.len() implies !(#[trigger] rest[i] is Begin) by {
            assert(rest[i] == events[i + 1]);
        }
        lemma_within_read(s1, rest);
        lemma_run_shape(s, events);
        assert forall|i: int, j: int|
            0 <= i < j < events.len() && #[trigger] events[i] is Closed
                && #[trigger] events[j] is Closed implies j == events.len() - 1 && replay_run(
            s,
            events,
        ).1[j] is ReturnClosed by {
            assert(events[j] == rest[j - 1]);
            assert(events[i] == rest[i - 1]);
        }
    } else {
        assert forall|i: int| 0 <= i < events.len() implies !(#[trigger] events[i] is Begin) by {}
        lemma_within_read(s, events);
    }
}

/// At the end of its file a replay starts over: the first end of file that
/// a read meets opens the file again, and the read goes on with the file's
/// first record.
pub proof fn lemma_end_of_file_starts_over(s: ReplayState)
    requires
        s.has_source,
        !s.looped,
        s.phase is Reading,
    ensures
        ({
            let (s1, a1) = spec_replay_step(s, ReplayEvent::Closed);
            let (s2, a2) = spec_replay_step(s1, ReplayEvent::Reopened);
            &&& a1 is Reopen
            &&& a2 is ReadRecord
            &&& s2 == ReplayState { looped: true, finished: false, ..s }
        }),
{
}

/// A replay without a file (opened as closed, or after a failed read or
/// after `mark_finished`) stays closed: every read returns closed and the
/// file never comes back.
pub proof fn lemma_without_file_stays_closed(s: ReplayState, events: Seq<ReplayEvent>)
    requires
        !s.has_source,
        s.phase is Idle,
        replay_run_accepted(s, events),
    ensures
        !replay_run(s, events).0.has_source,
        forall|i: int| 0 <= i < events.len() ==> #[trigger] replay_run(s, events).1[i] is ReturnClosed,
    decreases events.len(),
{
    if events.len() > 0 {
        let (s1, a0) = spec_replay_step(s, events[0]);
        lemma_without_file_stays_closed(s1, events.drop_first());
        lemma_run_shape(s, events);
    }
}

/// A failed read drops the file: the replay returns the error and is left
/// without a file, idle, so every later read is closed.
pub proof fn lemma_failed_read_drops_file(s: ReplayState)
    requires
        s.phase is Reading,
    ensures
        spec_replay_step(s, ReplayEvent::ReadFailed).1 is ReturnReadError,
        !spec_replay_step(s, ReplayEvent::ReadFailed).0.has_source,
        spec_replay_step(s, ReplayEvent::ReadFailed).0.phase is Idle,
{
}

/// Without an end of file or a failed read, a replay of an open file reads
/// on record after record: it is never opened again, and it stays open and
/// unfinished, so each read after a returned frame continues with the next
/// record.
pub proof fn lemma_reads_on_until_end_of_file(s: ReplayState, events: Seq<ReplayEvent>)
    requires
        s.has_source,
        !s.finished,
        forall|i: int|
            0 <= i < events.len() ==> !(#[trigger] events[i] is Closed) && !(events[i] is ReadFailed),
    ensures
        replay_run(s, events).0.has_source,
        !replay_run(s, events).0.finished,
        forall|i: int| 0 <= i < events.len() ==> !(#[trigger] replay_run(s, events).1[i] is Reopen),
    decreases events.len(),
{
    if events.len() > 0 {
        let (s1, a0) = spec_replay_step(s, events[0]);
        let rest = events.drop_first();
        assert(!(events[0] is Closed) && !(events[0] is ReadFailed));
        assert forall|i: int| 0 <= i < rest.len() implies !(#[trigger] rest[i] is Closed) && !(
        rest[i] is ReadFailed) by {
            assert(rest[i] == events[i + 1]);
        }
        lemma_reads_on_until_end_of_file(s1, rest);
        lemma_run_shape(s, events);
    }
}

/// A returned frame leaves the replay where it was in its file: the next
/// read of an open, unfinished replay reads the following record.
pub proof fn lemma_next_read_follows_returned_frame(s: ReplayState)
    requires
        s.phase is Reading,
        s.has_source,
        !s.finished,
        spec_replay_step(s, ReplayEvent::Frame).1 is ReturnFrame,
    ensures
        spec_replay_step(spec_replay_step(s, ReplayEvent::Frame).0, ReplayEvent::Begin).1 is ReadRecord,
{
}

proof fn lemma_mod_step(x: int, m: int, t: int)
    requires
        x >= 1,
        m >= 1,
        0 <= t < m,
    ensures
        (x - 1) % m == (if t == 0 {
            m - 1
        } else {
            t - 1
        }) <==> x % m == t,
{
    vstd::arithmetic::div_mod::lemma_fundamental_div_mod(x, m);
    vstd::arithmetic::div_mod::lemma_fundamental_div_mod(x - 1, m);
    vstd::arithmetic::div_mod::lemma_mod_bound(x, m);
    vstd::arithmetic::div_mod::lemma_mod_bound(x - 1, m);
    if x % m == 0 {
        vstd::arithmetic::div_mod::lemma_mod_sub_multiples_vanish(x - 1, m);
        assert((x - 1) % m == m - 1) by {
            vstd::arithmetic::div_mod::lemma_mod_multiples_vanish(x / m - 1, m - 1, m);
            assert(x - 1 == m * (x / m - 1) + (m - 1)) by (nonlinear_arith)
                requires
                    x == m * (x / m) + x % m,
                    x % m == 0,
            ;
            vstd::arithmetic::div_mod::lemma_mod_multiples_vanish(x / m - 1, m - 1, m);
            vstd::arithmetic::div_mod::lemma_small_mod((m - 1) as nat, m as nat);
        }
    } else {
        assert(x - 1 == m * (x / m) + (x % m - 1)) by (nonlinear_arith)
            requires
                x == m * (x / m) + x % m,
        ;
        vstd::arithmetic::div_mod::lemma_mod_multiples_vanish(x / m, x % m - 1, m);
        vstd::arithmetic::div_mod::lemma_small_mod((x % m - 1) as nat, m as nat);
    }
}

proof fn lemma_skip_from(s: ReplayState, events: Seq<ReplayEvent>)
    requires
        replay_run_accepted(s, events),
        s.to_skip <= s.skip,
    ensures
        forall|i: int|
            0 <= i < events.len() && #[trigger] events[i] is Frame ==> (replay_run(
                s,
                events,
            ).1[i] is ReturnFrame <==> (count_frames(events.take(i)) as int) % (s.skip + 1) == s.to_skip),
    decreases events.len(),
{
    if events.len() > 0 {
        let (s1, a0) = spec_replay_step(s, events[0]);
        let rest = events.drop_first();
        lemma_skip_from(s1, rest);
        lemma_run_shape(s, events);
        assert(s1.skip == s.skip);
        assert forall|i: int|
            0 <= i < events.len() && #[trigger] events[i] is Frame implies (replay_run(
            s,
            events,
        ).1[i] is ReturnFrame <==> (count_frames(events.take(i)) as int) % (s.skip + 1) == s.to_skip) by {
            let m = s.skip + 1;
            if i == 0 {
                assert(events.take(0) =~= Seq::<ReplayEvent>::empty());
                vstd::arithmetic::div_mod::lemma_small_mod(0, m as nat);
            } else {
                assert(events[i] == rest[i - 1]);
                assert(events.take(i).drop_first() =~= rest.take(i - 1));
                let c = count_frames(events.take(i));
                if events[0] is Frame {
                    assert(c == 1 + count_frames(rest.take(i - 1)));
                    lemma_mod_step(c as int, m, s.to_skip as int);
                } else {
                    assert(c == count_frames(rest.take(i - 1)));
                }
            }
        }
    }
}

/// A replay with `skip` returns one frame, drops `skip` frames, returns the
/// next one, and so on: counting the frames it reads from a start with no
/// frame pending to drop, it returns exactly those whose position is a
/// multiple of `skip + 1`. Ends of file and reopening do not reset the
/// count.
pub proof fn lemma_skip_returns_every_nth_frame(s: ReplayState, events: Seq<ReplayEvent>)
    requires
        replay_run_accepted(s, events),
        s.to_skip == 0,
    ensures
        forall|i: int|
            0 <= i < events.len() && #[trigger] events[i] is Frame ==> (replay_run(
                s,
                events,
            ).1[i] is ReturnFrame <==> (count_frames(events.take(i)) as int) % (s.skip + 1) == 0),
{
    lemma_skip_from(s, events);
}

} // verus!
