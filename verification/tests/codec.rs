//! Tests of the message codec: structural round trips through the framer,
//! header decoding, padding, and size limits.

use dbus_core::message::{Error, Message, MessageType, MAX_FIELD_LEN};
use dbus_core::raw::Connection;
use dbus_core::wire::MIN_MESSAGE_SIZE;

#[test]
fn round_trip_structural_equality() {
    let m = Message::method(
        Some(":1.7"),
        Some("org.example.Dest"),
        "/an/object/path",
        Some("org.example.Iface"),
        "DoThing",
        vec![1, 2, 3, 4, 5],
    )
    .unwrap();

    // Frame it over a loopback pair and decode on the other side.
    let mut receiver = Connection::new(Vec::new());
    receiver.accept_bytes(m.as_bytes(), &Vec::new()).unwrap();
    let got = receiver.try_receive_message().unwrap().unwrap();

    assert_eq!(got.as_bytes(), m.as_bytes());
    assert_eq!(got.message_type(), MessageType::MethodCall);
    let f = got.fields();
    assert_eq!(f.sender, Some(b":1.7".to_vec()));
    assert_eq!(f.destination, Some(b"org.example.Dest".to_vec()));
    assert_eq!(f.path, Some(b"/an/object/path".to_vec()));
    assert_eq!(f.interface, Some(b"org.example.Iface".to_vec()));
    assert_eq!(f.member, Some(b"DoThing".to_vec()));
    assert_eq!(f.error_name, None);
    assert_eq!(f.reply_serial, None);
    assert_eq!(got.body(), vec![1, 2, 3, 4, 5]);
}

#[test]
fn every_field_length_pads_and_round_trips() {
    // Member lengths 0..=16 exercise every body-padding remainder.
    for n in 0..=16usize {
        let name: String = "m".repeat(n);
        let m = Message::method(None, None, "/", None, &name, vec![0xAB; 3]).unwrap();
        let mut rx = Connection::new(Vec::new());
        rx.accept_bytes(m.as_bytes(), &Vec::new()).unwrap();
        let got = rx.try_receive_message().unwrap().unwrap();
        assert_eq!(got.fields().member, Some(name.as_bytes().to_vec()));
        assert_eq!(got.body(), vec![0xAB; 3]);
    }
}

#[test]
fn primary_header_layout() {
    let mut m = Message::signal(None, None, "/", "org.x", "S", vec![9; 5]).unwrap();
    m.set_serial(0x01020304);
    let bytes = m.as_bytes();
    assert!(bytes.len() >= MIN_MESSAGE_SIZE);
    assert_eq!(bytes[0], b'l'); // little-endian marker
    assert_eq!(bytes[1], 4); // signal type code
    assert_eq!(bytes[3], 1); // protocol version
    assert_eq!(&bytes[4..8], &5u32.to_le_bytes()); // body length
    assert_eq!(&bytes[8..12], &0x01020304u32.to_le_bytes()); // serial
    let h = m.header();
    assert_eq!(h.serial, 0x01020304);
    assert_eq!(h.body_len, 5);
    assert!(!h.big_endian);
}

#[test]
fn reply_carries_callers_serial() {
    let mut call = Message::method(Some(":1.5"), None, "/", None, "M", Vec::new()).unwrap();
    call.set_serial(77);
    let reply = Message::method_reply(None, &call, Vec::new()).unwrap();
    assert_eq!(reply.reply_serial(), Some(77));
    assert_eq!(reply.fields().destination, Some(b":1.5".to_vec()));
    assert_eq!(reply.message_type(), MessageType::MethodReturn);

    let err = Message::method_error(None, &call, "org.x.Err", Vec::new()).unwrap();
    assert_eq!(err.reply_serial(), Some(77));
    assert_eq!(err.fields().error_name, Some(b"org.x.Err".to_vec()));
    assert_eq!(err.message_type(), MessageType::Error);
}

#[test]
fn oversized_field_is_excess_data() {
    let name = vec![b'x'; MAX_FIELD_LEN + 1];
    let name = String::from_utf8(name).unwrap();
    let err = Message::method(None, None, "/", None, &name, Vec::new()).unwrap_err();
    assert!(matches!(err, Error::ExcessData));
}

#[test]
fn corrupt_frame_is_invalid_header() {
    // A frame whose declared length does not match its actual length.
    let m = Message::signal(None, None, "/", "org.x", "S", Vec::new()).unwrap();
    let mut bytes = m.as_bytes().clone();
    bytes.pop();
    let r = Message::from_raw_parts(bytes, Vec::new(), 1);
    assert!(matches!(r, Err(Error::InvalidHeader)));
}

#[test]
fn kind_str_names_each_type() {
    let call = Message::method(None, None, "/", None, "M", Vec::new()).unwrap();
    assert_eq!(call.kind_str(), "Method call");
    let sig = Message::signal(None, None, "/", "org.x", "S", Vec::new()).unwrap();
    assert_eq!(sig.kind_str(), "Signal");
    let rep = Message::method_reply(None, &call, Vec::new()).unwrap();
    assert_eq!(rep.kind_str(), "Method return");
    let err = Message::method_error(None, &call, "org.x.E", Vec::new()).unwrap();
    assert_eq!(err.kind_str(), "Error");
}
