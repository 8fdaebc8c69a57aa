use projecteur_core::input_event::{InputEvent, EV_KEY, EV_SYN, SYN_REPORT};
use projecteur_core::input_mapping::{
    InputMapConfig, InputMapError, InputMapper, InputMapping, MappedAction, MapperOutput,
    NativeKeySequence,
};
use projecteur_core::kconfig::{decode_kconfig_byte_array, encode_kconfig_byte_array};

const FIXTURE_HEX: &str = "000000010000000300000002000000010001006a00000001000000010001006a0000000000000003\
    00000000020000000100010069000000010000000100010069000000000000000100000001090000\
    01000000020000000300010038000000010001000f00000001000000000000000000000003000100\
    38000000000001000f00000000000000000000000000000001000400000001000000010001006d00\
    0000010000000c00";

fn hex_digit(c: u8) -> u8 {
    match c {
        b'0'..=b'9' => c - b'0',
        b'a'..=b'f' => c - b'a' + 10,
        b'A'..=b'F' => c - b'A' + 10,
        _ => panic!("not a hex digit"),
    }
}

fn decode_hex(value: &str) -> Vec<u8> {
    value
        .as_bytes()
        .chunks_exact(2)
        .map(|pair| hex_digit(pair[0]) * 16 + hex_digit(pair[1]))
        .collect()
}

#[test]
fn decodes_and_reencodes_cpp_qdatastream_fixture() {
    let bytes = decode_hex(FIXTURE_HEX);
    let config = InputMapConfig::from_qt_bytes(&bytes).unwrap();

    assert_eq!(config.mappings.len(), 3);
    assert_eq!(config.mappings[0].action, MappedAction::ToggleSpotlight);
    assert_eq!(config.mappings[0].input[0][0].code, 106);
    let MappedAction::KeySequence(keys) = &config.mappings[1].action else {
        panic!("second fixture action should be a key sequence");
    };
    assert_eq!(keys.qt_keys, [0x0900_0001]);
    assert_eq!(keys.native_modifiers, [4]);
    assert_eq!(keys.native_sequence[0][0].code, 56);
    assert_eq!(config.mappings[2].action, MappedAction::ScrollVertical);
    assert_eq!(config.to_qt_bytes(), bytes);
}

#[test]
fn round_trips_kconfig_byte_array_escapes() {
    let bytes = [0, 1, 15, b' ', b')', b'\\', b'z', 0xff];
    let encoded = encode_kconfig_byte_array(&bytes);

    assert_eq!(decode_kconfig_byte_array(&encoded).unwrap(), bytes);
    assert_eq!(
        decode_kconfig_byte_array(r"@ByteArray(\0\x1\xf \)\\z\xff)").unwrap(),
        bytes
    );
}

#[test]
fn writes_native_key_sequence_in_cpp_layout() {
    let press = vec![
        InputEvent {
            event_type: EV_KEY,
            code: 56,
            value: 1,
        },
        InputEvent {
            event_type: EV_SYN,
            code: SYN_REPORT,
            value: 0,
        },
    ];
    let config = InputMapConfig {
        mappings: vec![InputMapping {
            input: vec![vec![InputEvent {
                event_type: EV_KEY,
                code: 106,
                value: 1,
            }]],
            action: MappedAction::KeySequence(NativeKeySequence {
                qt_keys: vec![0x0900_0001],
                native_sequence: vec![press],
                native_modifiers: vec![4],
            }),
        }],
    };

    assert_eq!(
        InputMapConfig::from_kconfig_value(&config.to_kconfig_value()).unwrap(),
        config
    );
}

#[test]
fn rejects_invalid_or_unbounded_streams() {
    assert_eq!(
        InputMapConfig::from_qt_bytes(&[0, 0, 0, 2]),
        Err(InputMapError::UnsupportedVersion(2))
    );
    assert!(matches!(
        InputMapConfig::from_qt_bytes(&[0, 0, 0, 1, 0, 0, 4, 1]),
        Err(InputMapError::CollectionTooLarge {
            field: "mapping count",
            ..
        })
    ));
}

fn frame(code: u16, value: i32) -> Vec<InputEvent> {
    vec![
        InputEvent {
            event_type: EV_KEY,
            code,
            value,
        },
        InputEvent {
            event_type: EV_SYN,
            code: SYN_REPORT,
            value: 0,
        },
    ]
}

#[test]
fn matches_actions_and_forwards_misses() {
    let mut mapper = InputMapper::new(InputMapConfig {
        mappings: vec![InputMapping {
            input: vec![vec![frame(106, 1)[0]]],
            action: MappedAction::ToggleSpotlight,
        }],
    });

    assert_eq!(
        mapper.feed_frame(&frame(106, 1)).unwrap(),
        MapperOutput::Action(MappedAction::ToggleSpotlight)
    );
    assert_eq!(
        mapper.feed_frame(&frame(105, 1)).unwrap(),
        MapperOutput::Forward(frame(105, 1))
    );
}

#[test]
fn delays_prefixes_and_resolves_partial_hits_on_timeout() {
    let first = vec![frame(106, 1)[0]];
    let second = vec![frame(106, 0)[0]];
    let mut mapper = InputMapper::new(InputMapConfig {
        mappings: vec![
            InputMapping {
                input: vec![first.clone()],
                action: MappedAction::CyclePresets,
            },
            InputMapping {
                input: vec![first, second],
                action: MappedAction::ToggleSpotlight,
            },
        ],
    });

    assert_eq!(
        mapper.feed_frame(&frame(106, 1)).unwrap(),
        MapperOutput::Pending
    );
    assert_eq!(
        mapper.sequence_timeout(),
        Some(MapperOutput::Action(MappedAction::CyclePresets))
    );

    assert_eq!(
        mapper.feed_frame(&frame(106, 1)).unwrap(),
        MapperOutput::Pending
    );
    assert_eq!(
        mapper.feed_frame(&frame(106, 0)).unwrap(),
        MapperOutput::Action(MappedAction::ToggleSpotlight)
    );
}

#[test]
fn forwards_an_unfinished_sequence_after_timeout() {
    let mut mapper = InputMapper::new(InputMapConfig {
        mappings: vec![InputMapping {
            input: vec![vec![frame(106, 1)[0]], vec![frame(106, 0)[0]]],
            action: MappedAction::ToggleSpotlight,
        }],
    });

    assert_eq!(
        mapper.feed_frame(&frame(106, 1)).unwrap(),
        MapperOutput::Pending
    );
    assert_eq!(
        mapper.sequence_timeout(),
        Some(MapperOutput::Forward(frame(106, 1)))
    );
}

#[test]
fn rejects_frames_without_a_final_sync_report() {
    let mut mapper = InputMapper::new(InputMapConfig::default());
    assert_eq!(mapper.feed_frame(&[]), Err(InputMapError::InvalidInputFrame));
    assert_eq!(
        mapper.feed_frame(&frame(106, 1)[..1]),
        Err(InputMapError::InvalidInputFrame)
    );
    assert_eq!(
        mapper.feed_frame(&frame(106, 1)[1..]),
        Err(InputMapError::InvalidInputFrame)
    );
    assert!(!mapper.has_pending_input());
}

#[test]
fn timeout_without_pending_input_does_nothing() {
    let mut mapper = InputMapper::new(InputMapConfig::default());
    assert_eq!(mapper.sequence_timeout(), None);
}

#[test]
fn an_empty_key_sequence_consumes_the_input() {
    let mut mapper = InputMapper::new(InputMapConfig {
        mappings: vec![InputMapping {
            input: vec![vec![frame(106, 1)[0]]],
            action: MappedAction::KeySequence(NativeKeySequence::default()),
        }],
    });
    assert_eq!(
        mapper.feed_frame(&frame(106, 1)).unwrap(),
        MapperOutput::Consumed
    );
}

#[test]
fn resetting_discards_a_pending_prefix() {
    let mut mapper = InputMapper::new(InputMapConfig {
        mappings: vec![InputMapping {
            input: vec![vec![frame(106, 1)[0]], vec![frame(106, 0)[0]]],
            action: MappedAction::ToggleSpotlight,
        }],
    });
    assert_eq!(
        mapper.feed_frame(&frame(106, 1)).unwrap(),
        MapperOutput::Pending
    );
    assert!(mapper.has_pending_input());
    mapper.reset();
    assert!(!mapper.has_pending_input());
    assert_eq!(mapper.sequence_timeout(), None);
}

#[test]
fn stream_errors_are_reported() {
    assert_eq!(
        InputMapConfig::from_qt_bytes(&[0, 0]),
        Err(InputMapError::UnexpectedEnd { offset: 0 })
    );
    assert_eq!(
        InputMapConfig::from_qt_bytes(&[0, 0, 0, 1, 0, 0, 0, 0, 7]),
        Err(InputMapError::TrailingData(1))
    );
    assert_eq!(
        decode_kconfig_byte_array("AQID"),
        Err(InputMapError::InvalidByteArrayWrapper)
    );
    assert!(matches!(
        decode_kconfig_byte_array(r"@ByteArray(\q)"),
        Err(InputMapError::InvalidEscape { .. })
    ));
}

#[test]
fn an_empty_configuration_round_trips() {
    let config = InputMapConfig::default();
    let bytes = config.to_qt_bytes();
    assert_eq!(bytes, vec![0, 0, 0, 1, 0, 0, 0, 0]);
    assert_eq!(InputMapConfig::from_qt_bytes(&bytes).unwrap(), config);
}

#[test]
fn input_map_errors_read_as_messages() {
    assert_eq!(
        InputMapError::InvalidByteArrayWrapper.to_string(),
        "expected a KConfig @ByteArray(...) value"
    );
    assert_eq!(
        InputMapError::InvalidEscape { offset: 12 }.to_string(),
        "invalid KConfig byte-array escape at byte 12"
    );
    assert_eq!(
        InputMapError::UnexpectedEnd { offset: 0 }.to_string(),
        "truncated Qt data stream at byte 0"
    );
    assert_eq!(
        InputMapError::UnsupportedVersion(7).to_string(),
        "unsupported input-map format version 7"
    );
    assert_eq!(
        InputMapError::InvalidAction(-3).to_string(),
        "invalid input-map action -3"
    );
    assert_eq!(
        InputMapError::CollectionTooLarge {
            field: "mappings",
            size: 70000
        }
        .to_string(),
        "input-map mappings is unreasonably large (70000)"
    );
    assert_eq!(
        InputMapError::TrailingData(4).to_string(),
        "input-map stream has 4 trailing bytes"
    );
    assert_eq!(
        InputMapError::InvalidInputFrame.to_string(),
        "input-mapping frame must contain events followed by SYN_REPORT"
    );
}

#[test]
fn frames_of_only_synchronization_are_rejected() {
    let sync = InputEvent {
        event_type: EV_SYN,
        code: SYN_REPORT,
        value: 0,
    };
    let dropped = InputEvent {
        event_type: EV_SYN,
        code: 3,
        value: 0,
    };
    let mut plain = InputMapper::new(InputMapConfig::default());
    assert_eq!(plain.feed_frame(&[sync, sync]), Err(InputMapError::InvalidInputFrame));
    assert_eq!(plain.feed_frame(&[dropped, sync]), Err(InputMapError::InvalidInputFrame));
    assert_eq!(plain.feed_frame(&[sync]), Err(InputMapError::InvalidInputFrame));
    assert_eq!(plain.feed_frame(&[]), Err(InputMapError::InvalidInputFrame));

    let mut mapper = InputMapper::new(InputMapConfig {
        mappings: vec![InputMapping {
            input: vec![vec![frame(106, 1)[0]], vec![frame(106, 0)[0]]],
            action: MappedAction::ToggleSpotlight,
        }],
    });
    assert_eq!(mapper.feed_frame(&frame(106, 1)), Ok(MapperOutput::Pending));
    assert_eq!(mapper.feed_frame(&[sync, sync]), Err(InputMapError::InvalidInputFrame));
    assert!(mapper.has_pending_input());
    assert_eq!(
        mapper.feed_frame(&frame(106, 0)),
        Ok(MapperOutput::Action(MappedAction::ToggleSpotlight))
    );
    assert!(!mapper.has_pending_input());
}

#[test]
fn a_miss_forwards_the_whole_pending_run() {
    let mut mapper = InputMapper::new(InputMapConfig {
        mappings: vec![InputMapping {
            input: vec![
                vec![frame(106, 1)[0]],
                vec![frame(106, 0)[0]],
                vec![frame(107, 1)[0]],
            ],
            action: MappedAction::ToggleSpotlight,
        }],
    });
    assert_eq!(mapper.feed_frame(&frame(106, 1)), Ok(MapperOutput::Pending));
    assert!(mapper.has_pending_input());
    assert_eq!(mapper.feed_frame(&frame(106, 0)), Ok(MapperOutput::Pending));
    let mut expected = frame(106, 1);
    expected.extend(frame(106, 0));
    expected.extend(frame(30, 1));
    assert_eq!(mapper.feed_frame(&frame(30, 1)), Ok(MapperOutput::Forward(expected)));
    assert!(!mapper.has_pending_input());
}
