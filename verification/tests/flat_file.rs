use nypa_db_connector::bytes::ByteOrder;
use nypa_db_connector::flat_file::{
    classify_f32_bits, classify_f64_bits, decode_f32_record, decode_record,
    decode_sentinel_f64_record, read_exact_or_closed, FillState, FillStep, FlatFileError,
    FlatFileFormat, FlatFileRead, FlatFileReplay, RawFrame, ReadOutcome, ReplayAction,
    ReplayEvent, TimestampClass,
};

fn stamp_us_f32(bits: u32) -> u64 {
    (f32::from_bits(bits) * 1e6).round() as u64
}

fn stamp_us_f64(bits: u64) -> u64 {
    (f64::from_bits(bits) * 1e6).round() as u64
}

fn f32_bytes(values: &[f32]) -> Vec<u8> {
    values.iter().flat_map(|v| v.to_ne_bytes()).collect()
}

fn f64_bytes(values: &[f64]) -> Vec<u8> {
    values.iter().flat_map(|v| v.to_ne_bytes()).collect()
}

/// Reads the record at the front of `source` the way a replay does: the
/// head with a clean end allowed, then the rest of the record.
fn next_record(source: &mut &[u8], format: FlatFileFormat) -> Result<Option<Vec<u8>>, FlatFileError> {
    let len = format.record_len().unwrap();
    let head = format.head_len();
    let mut buf = vec![0u8; len];
    let mut state = FillState::new(head);
    while !state.is_complete() {
        let n = state.remaining().min(source.len());
        buf[state.filled..state.filled + n].copy_from_slice(&source[..n]);
        *source = &source[n..];
        match read_exact_or_closed(&mut state, ReadOutcome::Bytes(n)) {
            FillStep::Continue | FillStep::Complete => {}
            FillStep::Closed => return Ok(None),
            FillStep::PartialFrame => return Err(FlatFileError::PartialFrame),
            FillStep::Failed => unreachable!(),
        }
    }
    let rest = len - head;
    if source.len() < rest {
        return Err(FlatFileError::PartialFrame);
    }
    buf[head..].copy_from_slice(&source[..rest]);
    *source = &source[rest..];
    Ok(Some(buf))
}

/// Runs one replay read over an in-memory file.
fn replay_read(
    replay: &mut FlatFileReplay,
    file: &[u8],
    position: &mut usize,
) -> Result<FlatFileRead, FlatFileError> {
    let order = ByteOrder::native();
    let mut event = ReplayEvent::Begin;
    let mut last = FlatFileRead::Closed;
    let mut error = FlatFileError::PartialFrame;
    loop {
        match replay.step(event) {
            ReplayAction::Reopen => {
                *position = 0;
                event = ReplayEvent::Reopened;
            }
            ReplayAction::ReadRecord => {
                let mut source = &file[*position..];
                let before = source.len();
                let record = next_record(&mut source, replay.format());
                *position += before - source.len();
                event = match record {
                    Ok(None) => ReplayEvent::Closed,
                    Ok(Some(bytes)) => match decode_record(&bytes, replay.format(), order) {
                        Ok(FlatFileRead::Frame(frame)) => {
                            last = FlatFileRead::Frame(frame);
                            ReplayEvent::Frame
                        }
                        Ok(FlatFileRead::Closed) => ReplayEvent::Closed,
                        Err(e) => {
                            error = e;
                            ReplayEvent::ReadFailed
                        }
                    },
                    Err(e) => {
                        error = e;
                        ReplayEvent::ReadFailed
                    }
                };
            }
            ReplayAction::ReturnFrame => return Ok(last),
            ReplayAction::ReturnClosed => return Ok(FlatFileRead::Closed),
            ReplayAction::ReturnReadError | ReplayAction::ReturnReopenError => return Err(error),
        }
    }
}

#[test]
fn flat_file_f32_reads_one_frame() {
    let mut bytes = Vec::new();
    bytes.extend_from_slice(&0.25f32.to_ne_bytes());
    bytes.extend_from_slice(&f32_bytes(&[2.0f32, 5.0, -10.5]));

    let result = decode_f32_record(&bytes, 3, ByteOrder::native()).unwrap();

    let FlatFileRead::Frame(RawFrame::F32 { time_bits, payload }) = result else {
        panic!("expected frame");
    };
    assert_eq!(stamp_us_f32(time_bits), 250_000);
    let content: Vec<f32> = payload.iter().map(|b| f32::from_bits(*b)).collect();
    assert_eq!(content, [2.0, 5.0, -10.5]);
}

#[test]
fn flat_file_sentinel_f64_reads_one_frame_and_converts_payload() {
    let mut bytes = Vec::new();
    bytes.extend_from_slice(&3u32.to_ne_bytes());
    bytes.extend_from_slice(&2.25f64.to_ne_bytes());
    bytes.extend_from_slice(&f64_bytes(&[6.5f64, -7.25]));
    bytes.extend_from_slice(&3u32.to_ne_bytes());

    let result = decode_sentinel_f64_record(&bytes, 2, ByteOrder::native()).unwrap();

    let FlatFileRead::Frame(RawFrame::F64 { time_bits, payload }) = result else {
        panic!("expected frame");
    };
    assert_eq!(stamp_us_f64(time_bits), 2_250_000);
    let content: Vec<f32> = payload.iter().map(|b| f64::from_bits(*b) as f32).collect();
    assert_eq!(content, [6.5, -7.25]);
}

#[test]
fn flat_file_sentinel_f64_rejects_marker_mismatch() {
    let mut bytes = Vec::new();
    bytes.extend_from_slice(&3u32.to_ne_bytes());
    bytes.extend_from_slice(&2.25f64.to_ne_bytes());
    bytes.extend_from_slice(&f64_bytes(&[6.5f64, -7.25]));
    bytes.extend_from_slice(&4u32.to_ne_bytes());

    let err = decode_sentinel_f64_record(&bytes, 2, ByteOrder::native())
        .expect_err("marker mismatch should fail");

    assert_eq!(err, FlatFileError::MarkerMismatch);
}

#[test]
fn flat_file_read_returns_closed_on_clean_eof() {
    let mut state = FillState::new(FlatFileFormat::F32 { variable_count: 3 }.head_len());

    let result = read_exact_or_closed(&mut state, ReadOutcome::Bytes(0));

    assert!(matches!(result, FillStep::Closed));
}

#[test]
fn negative_flat_file_timestamp_closes_replay() {
    let mut bytes = Vec::new();
    bytes.extend_from_slice(&(-1.0f32).to_ne_bytes());
    bytes.extend_from_slice(&f32_bytes(&[2.0f32, 5.0, -10.5]));

    let result = decode_f32_record(&bytes, 3, ByteOrder::native()).unwrap();

    assert!(matches!(result, FlatFileRead::Closed));
}

#[test]
fn flat_file_replay_loops_after_eof() {
    let mut bytes = Vec::new();
    bytes.extend_from_slice(&0.25f32.to_ne_bytes());
    bytes.extend_from_slice(&f32_bytes(&[2.0f32, 5.0]));

    let mut replay = FlatFileReplay::opened(FlatFileFormat::F32 { variable_count: 2 }, 0);
    let mut position = 0;

    let FlatFileRead::Frame(first) = replay_read(&mut replay, &bytes, &mut position).unwrap() else {
        panic!("expected first frame");
    };
    let FlatFileRead::Frame(looped) = replay_read(&mut replay, &bytes, &mut position).unwrap() else {
        panic!("expected looped frame");
    };

    let (RawFrame::F32 { time_bits: t1, payload: p1 }, RawFrame::F32 { time_bits: t2, payload: p2 }) =
        (first, looped)
    else {
        panic!("expected single-precision frames");
    };
    assert_eq!(stamp_us_f32(t1), stamp_us_f32(t2));
    assert_eq!(p1, p2);
}

#[test]
fn empty_flat_file_replay_does_not_spin() {
    let mut replay = FlatFileReplay::opened(FlatFileFormat::F32 { variable_count: 2 }, 0);
    let mut position = 0;

    assert!(matches!(replay_read(&mut replay, &[], &mut position).unwrap(), FlatFileRead::Closed));
}

#[test]
fn replay_step_sequence_for_empty_file() {
    let mut replay = FlatFileReplay::opened(FlatFileFormat::F32 { variable_count: 2 }, 0);
    assert_eq!(replay.step(ReplayEvent::Begin), ReplayAction::ReadRecord);
    assert_eq!(replay.step(ReplayEvent::Closed), ReplayAction::Reopen);
    assert_eq!(replay.step(ReplayEvent::Reopened), ReplayAction::ReadRecord);
    assert_eq!(replay.step(ReplayEvent::Closed), ReplayAction::ReturnClosed);
    // A finished replay starts its file over on the next read.
    assert_eq!(replay.step(ReplayEvent::Begin), ReplayAction::Reopen);
}

#[test]
fn replay_with_skip_returns_every_fourth_frame() {
    let mut bytes = Vec::new();
    for i in 0..8 {
        bytes.extend_from_slice(&(i as f32).to_ne_bytes());
        bytes.extend_from_slice(&f32_bytes(&[i as f32]));
    }
    let mut replay = FlatFileReplay::opened(FlatFileFormat::F32 { variable_count: 1 }, 3);
    let mut position = 0;
    let mut stamps = Vec::new();
    for _ in 0..4 {
        let FlatFileRead::Frame(RawFrame::F32 { time_bits, .. }) =
            replay_read(&mut replay, &bytes, &mut position).unwrap()
        else {
            panic!("expected frame");
        };
        stamps.push(stamp_us_f32(time_bits));
    }
    // One emitted, three skipped; the count carries over the start of the file.
    assert_eq!(stamps, [0, 4_000_000, 0, 4_000_000]);
}

#[test]
fn read_error_drops_the_file_for_good() {
    let mut replay = FlatFileReplay::opened(FlatFileFormat::F32 { variable_count: 1 }, 0);
    assert_eq!(replay.step(ReplayEvent::Begin), ReplayAction::ReadRecord);
    assert_eq!(replay.step(ReplayEvent::ReadFailed), ReplayAction::ReturnReadError);
    assert_eq!(replay.step(ReplayEvent::Begin), ReplayAction::ReturnClosed);
    assert_eq!(replay.step(ReplayEvent::Begin), ReplayAction::ReturnClosed);
}

#[test]
fn reopen_error_keeps_the_file() {
    let mut replay = FlatFileReplay::opened(FlatFileFormat::F32 { variable_count: 1 }, 0);
    assert_eq!(replay.step(ReplayEvent::Begin), ReplayAction::ReadRecord);
    assert_eq!(replay.step(ReplayEvent::Closed), ReplayAction::Reopen);
    assert_eq!(replay.step(ReplayEvent::ReopenFailed), ReplayAction::ReturnReopenError);
    assert_eq!(replay.step(ReplayEvent::Begin), ReplayAction::ReadRecord);
}

#[test]
fn closed_replay_is_always_closed() {
    let mut replay = FlatFileReplay::closed(FlatFileFormat::SentinelF64 { variable_count: 4 });
    assert_eq!(replay.step(ReplayEvent::Begin), ReplayAction::ReturnClosed);
    assert!(replay.accepts(ReplayEvent::Begin));
    assert!(!replay.accepts(ReplayEvent::Frame));
}

#[test]
fn mark_finished_closes_an_open_replay() {
    let mut replay = FlatFileReplay::opened(FlatFileFormat::F32 { variable_count: 1 }, 0);
    replay.mark_finished();
    assert_eq!(replay.step(ReplayEvent::Begin), ReplayAction::ReturnClosed);
}

#[test]
fn fill_counts_partial_reads() {
    let mut state = FillState::new(8);
    assert_eq!(read_exact_or_closed(&mut state, ReadOutcome::Bytes(3)), FillStep::Continue);
    assert_eq!(state.remaining(), 5);
    assert_eq!(read_exact_or_closed(&mut state, ReadOutcome::Interrupted), FillStep::Continue);
    assert_eq!(read_exact_or_closed(&mut state, ReadOutcome::Bytes(5)), FillStep::Complete);
    assert!(state.is_complete());
}

#[test]
fn fill_end_inside_a_record_is_a_partial_frame() {
    let mut state = FillState::new(8);
    assert_eq!(read_exact_or_closed(&mut state, ReadOutcome::Bytes(2)), FillStep::Continue);
    assert_eq!(read_exact_or_closed(&mut state, ReadOutcome::Bytes(0)), FillStep::PartialFrame);
    let mut failing = FillState::new(8);
    assert_eq!(read_exact_or_closed(&mut failing, ReadOutcome::Failed), FillStep::Failed);
}

#[test]
fn non_finite_timestamps_are_errors() {
    let order = ByteOrder::native();
    let mut bytes = Vec::new();
    bytes.extend_from_slice(&f32::INFINITY.to_ne_bytes());
    bytes.extend_from_slice(&f32_bytes(&[1.0]));
    assert_eq!(
        decode_f32_record(&bytes, 1, order),
        Err(FlatFileError::NonFiniteTimestamp32(f32::INFINITY.to_bits()))
    );

    let mut bytes = Vec::new();
    bytes.extend_from_slice(&7u32.to_ne_bytes());
    bytes.extend_from_slice(&f64::NAN.to_ne_bytes());
    bytes.extend_from_slice(&7u32.to_ne_bytes());
    assert_eq!(
        decode_sentinel_f64_record(&bytes, 0, order),
        Err(FlatFileError::NonFiniteTimestamp64(f64::NAN.to_bits()))
    );
}

#[test]
fn timestamp_classes_follow_ieee_754() {
    assert_eq!(classify_f32_bits(0.0f32.to_bits()), TimestampClass::Usable);
    assert_eq!(classify_f32_bits((-0.0f32).to_bits()), TimestampClass::Usable);
    assert_eq!(classify_f32_bits((-1e-30f32).to_bits()), TimestampClass::Negative);
    assert_eq!(classify_f32_bits(f32::NEG_INFINITY.to_bits()), TimestampClass::NonFinite);
    assert_eq!(classify_f32_bits(f32::MAX.to_bits()), TimestampClass::Usable);
    assert_eq!(classify_f64_bits((-2.5f64).to_bits()), TimestampClass::Negative);
    assert_eq!(classify_f64_bits(f64::INFINITY.to_bits()), TimestampClass::NonFinite);
    assert_eq!(classify_f64_bits(1e300f64.to_bits()), TimestampClass::Usable);
}

#[test]
fn record_lengths() {
    assert_eq!(FlatFileFormat::F32 { variable_count: 3 }.record_len(), Some(16));
    assert_eq!(FlatFileFormat::SentinelF64 { variable_count: 2 }.record_len(), Some(32));
    assert_eq!(FlatFileFormat::SentinelF64 { variable_count: 2 }.head_len(), 32);
    assert_eq!(FlatFileFormat::F32 { variable_count: usize::MAX }.record_len(), None);
    assert_eq!(FlatFileFormat::SentinelF64 { variable_count: 5 }.variable_count(), 5);
}

#[test]
fn decode_record_dispatches_on_format() {
    let order = ByteOrder::native();
    let mut bytes = Vec::new();
    bytes.extend_from_slice(&1.5f32.to_ne_bytes());
    bytes.extend_from_slice(&f32_bytes(&[4.0]));
    let Ok(FlatFileRead::Frame(RawFrame::F32 { payload, .. })) =
        decode_record(&bytes, FlatFileFormat::F32 { variable_count: 1 }, order)
    else {
        panic!("expected frame");
    };
    assert_eq!(payload, vec![4.0f32.to_bits()]);
}
