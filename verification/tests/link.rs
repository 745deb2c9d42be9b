use nypa_db_connector::bytes::{order_of_probe, ByteOrder};
use nypa_db_connector::control::NypaDbSetVariableOptions;
use nypa_db_connector::faults::{
    fault_change, marker_visibility, streams_to_poll, FaultArea, FaultChange, FaultVariable,
};
use nypa_db_connector::frame::{decode_frame_header, decode_frame_payload, frame_payload_len};
use nypa_db_connector::plugin::{
    reader_action, stream_disposition, stream_sets_differ, FrameReadOutcome, ReaderAction,
    StreamDisposition, StreamEvent,
};

#[test]
fn frame_header_masks_timestamp_flags() {
    let mut header = Vec::new();
    header.extend_from_slice(&3u64.to_ne_bytes());
    header.extend_from_slice(&((0xfu64 << 60) | 123_456).to_ne_bytes());
    let decoded = decode_frame_header(&header, ByteOrder::native());
    assert_eq!(decoded.variable_count, 3);
    assert_eq!(decoded.stamp_us, 123_456);
}

#[test]
fn byte_orders_read_differently() {
    let header = [1, 0, 0, 0, 0, 0, 0, 0, 0, 0, 0, 0, 0, 0, 0, 2];
    assert_eq!(decode_frame_header(&header, ByteOrder::Little).variable_count, 1);
    assert_eq!(decode_frame_header(&header, ByteOrder::Big).variable_count, 1 << 56);
    assert_eq!(decode_frame_header(&header, ByteOrder::Big).stamp_us, 2);
    assert_eq!(decode_frame_header(&header, ByteOrder::Little).stamp_us, 1 << 57);
}

#[test]
fn frame_payload_decodes_float_bits() {
    let bytes: Vec<u8> = [1.5f32, -2.0].iter().flat_map(|v| v.to_ne_bytes()).collect();
    let words = decode_frame_payload(&bytes, ByteOrder::native());
    assert_eq!(words, vec![1.5f32.to_bits(), (-2.0f32).to_bits()]);
    assert_eq!(frame_payload_len(3), Some(12));
    assert_eq!(frame_payload_len(u64::MAX), None);
}

#[test]
fn stream_set_changes_trigger_restart() {
    assert!(!stream_sets_differ(&vec![1, 2, 2], &vec![2, 1]));
    assert!(stream_sets_differ(&vec![1, 2], &vec![1]));
    assert!(stream_sets_differ(&vec![1], &vec![1, 3]));
    assert!(!stream_sets_differ(&vec![], &vec![]));
}

#[test]
fn reader_decisions() {
    assert_eq!(reader_action(FrameReadOutcome::Frame), ReaderAction::PublishFrame);
    assert_eq!(reader_action(FrameReadOutcome::WouldBlock), ReaderAction::Retry);
    assert_eq!(reader_action(FrameReadOutcome::TimedOut), ReaderAction::Retry);
    assert_eq!(reader_action(FrameReadOutcome::Interrupted), ReaderAction::Retry);
    assert_eq!(reader_action(FrameReadOutcome::Failed), ReaderAction::Disconnect);
    assert_eq!(stream_disposition(StreamEvent::Nothing), StreamDisposition::Keep);
    assert_eq!(stream_disposition(StreamEvent::Frame), StreamDisposition::UpdateAndNotify);
    assert_eq!(stream_disposition(StreamEvent::Disconnected), StreamDisposition::Drop);
}

#[test]
fn fault_areas_and_their_state() {
    let area = FaultArea::variable_with_options(
        0,
        "example_fault".to_string(),
        NypaDbSetVariableOptions::start_region("example fault".to_string()),
    );
    assert_eq!(
        area.variable,
        Some(FaultVariable { stream_id: 0, name: "example_fault".to_string() })
    );
    assert_eq!(area.set_variable_options.start_region.as_deref(), Some("example fault"));
    assert!(FaultArea::variable(1, "x".to_string()).set_variable_options.start_region.is_none());
    assert!(FaultArea::new(None).variable.is_none());

    assert_eq!(fault_change(false, true), FaultChange::Insert);
    assert_eq!(fault_change(true, false), FaultChange::Remove);
    assert_eq!(fault_change(true, true), FaultChange::Keep);
    assert_eq!(fault_change(false, false), FaultChange::Keep);
    assert_eq!(marker_visibility(true), (false, true));
    assert_eq!(marker_visibility(false), (true, false));
}

#[test]
fn each_stream_is_polled_once_in_first_seen_order() {
    assert_eq!(streams_to_poll(&vec![3, 1, 3, 2, 1]), vec![3, 1, 2]);
    assert!(streams_to_poll(&vec![]).is_empty());
}

#[test]
fn native_byte_order_matches_the_machine() {
    let little = 1u16.to_ne_bytes()[0] == 1;
    assert_eq!(ByteOrder::native() == ByteOrder::Little, little);
    assert_eq!(ByteOrder::native() == ByteOrder::Big, !little);
}

#[test]
fn probe_reading_gives_the_byte_order() {
    assert_eq!(order_of_probe([1, 0], 1), ByteOrder::Little);
    assert_eq!(order_of_probe([1, 0], 256), ByteOrder::Big);
    assert_eq!(order_of_probe([0, 1], 256), ByteOrder::Little);
    assert_eq!(order_of_probe([0, 1], 1), ByteOrder::Big);
    assert_eq!(
        ByteOrder::native() == ByteOrder::Little,
        u16::from_ne_bytes([1, 0]) == 1
    );
}
