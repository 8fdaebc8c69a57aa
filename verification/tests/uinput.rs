use projecteur_core::input_event::{
    encode_input_event, linux_input_event_size, InputEvent, EV_KEY,
};
use projecteur_core::uinput::{uinput_name, UINPUT_NAME_SIZE};

#[test]
fn uinput_setup_matches_the_linux_uapi_layout() {
    let name = uinput_name("Projecteur");
    assert_eq!(name.len(), UINPUT_NAME_SIZE);
    assert_eq!(&name[..11], b"Projecteur\0");
    assert!(name[11..].iter().all(|&b| b == 0));
}

#[test]
fn long_uinput_names_keep_a_terminating_zero() {
    let long = "x".repeat(200);
    let name = uinput_name(&long);
    assert_eq!(name.len(), 80);
    assert!(name[..79].iter().all(|&b| b == b'x'));
    assert_eq!(name[79], 0);
}

#[test]
fn input_event_encoding_preserves_the_stable_payload() {
    let event = InputEvent {
        event_type: EV_KEY,
        code: 106,
        value: 1,
    };
    let bytes = encode_input_event(event);
    let size = linux_input_event_size();

    assert!(bytes[..size - 8].iter().all(|&b| b == 0));
    assert_eq!(&bytes[size - 8..], &[1, 0, 106, 0, 1, 0, 0, 0]);
}
