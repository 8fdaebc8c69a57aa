use projecteur_core::input_event::{
    encode_input_event, encode_input_event_in_order, linux_input_event_size, read_input_event,
    read_input_event_in_order, sync_event, InputEvent, InputEventError, EV_KEY, EV_REL, EV_SYN,
    REL_X, REL_Y, SYN_REPORT,
};

fn record(event: InputEvent) -> Vec<u8> {
    let size = linux_input_event_size();
    let mut bytes = vec![0; size];
    let offset = size - 8;
    bytes[offset..offset + 2].copy_from_slice(&event.event_type.to_ne_bytes());
    bytes[offset + 2..offset + 4].copy_from_slice(&event.code.to_ne_bytes());
    bytes[offset + 4..offset + 8].copy_from_slice(&event.value.to_ne_bytes());
    bytes
}

#[test]
fn decodes_native_linux_event_payload() {
    let expected = InputEvent {
        event_type: EV_REL,
        code: REL_Y,
        value: -17,
    };

    let actual = read_input_event(&record(expected)).unwrap();

    assert_eq!(actual, expected);
    assert!(actual.is_relative_motion());
    assert!(!actual.is_sync_report());
}

#[test]
fn identifies_sync_frames_and_rejects_truncated_records() {
    let sync = InputEvent {
        event_type: EV_SYN,
        code: SYN_REPORT,
        value: 0,
    };
    assert!(read_input_event(&record(sync)).unwrap().is_sync_report());

    let error = read_input_event(&vec![0; linux_input_event_size() - 1]).unwrap_err();
    assert_eq!(error, InputEventError::UnexpectedEof);
}

#[test]
fn the_record_size_follows_the_word_size() {
    assert_eq!(
        linux_input_event_size(),
        2 * std::mem::size_of::<isize>() + 8
    );
}

#[test]
fn encoding_then_decoding_gives_the_event_back() {
    let event = InputEvent {
        event_type: EV_KEY,
        code: 0x1234,
        value: -100_000,
    };
    let bytes = encode_input_event(event);
    assert_eq!(bytes, record(event));
    assert_eq!(read_input_event(&bytes), Ok(event));
}

#[test]
fn sync_event_and_motion_predicates() {
    assert_eq!(
        sync_event(),
        InputEvent {
            event_type: EV_SYN,
            code: SYN_REPORT,
            value: 0
        }
    );
    assert!(sync_event().is_sync_report());
    assert!(InputEvent { event_type: EV_REL, code: REL_X, value: 3 }.is_relative_motion());
    assert!(!InputEvent { event_type: EV_REL, code: 8, value: 3 }.is_relative_motion());
    assert!(!InputEvent { event_type: EV_KEY, code: REL_X, value: 1 }.is_relative_motion());
}

#[test]
fn records_in_either_byte_order_read_back() {
    let event = InputEvent {
        event_type: EV_REL,
        code: 0x0102,
        value: -2,
    };
    let size = linux_input_event_size();
    let little = encode_input_event_in_order(event, true);
    assert_eq!(little.len(), size);
    assert!(little[..size - 8].iter().all(|b| *b == 0));
    assert_eq!(&little[size - 8..], &[2, 0, 2, 1, 0xfe, 0xff, 0xff, 0xff]);
    let big = encode_input_event_in_order(event, false);
    assert_eq!(&big[size - 8..], &[0, 2, 1, 2, 0xff, 0xff, 0xff, 0xfe]);
    assert_eq!(read_input_event_in_order(&little, true), Ok(event));
    assert_eq!(read_input_event_in_order(&big, false), Ok(event));
    assert_eq!(
        read_input_event_in_order(&little, false),
        Ok(InputEvent { event_type: 0x0200, code: 0x0201, value: -16_777_217 })
    );
    assert_eq!(
        read_input_event_in_order(&little[..size - 1], true),
        Err(InputEventError::UnexpectedEof)
    );
}

#[test]
fn native_records_use_the_machine_byte_order() {
    let event = InputEvent {
        event_type: EV_KEY,
        code: 30,
        value: 1,
    };
    let little = u16::from_ne_bytes([1, 0]) == 1;
    assert_eq!(encode_input_event(event), encode_input_event_in_order(event, little));
}
