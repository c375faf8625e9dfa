//! Tests of the framing engine: message round trips over a loopback, chunked
//! reads, partial writes, and the framer's error cases.

use dbus_core::message::{Error, Message};
use dbus_core::raw::Connection;

/// Moves every pending outbound byte of `from` into `to`, whole chunks at a
/// time, and returns how many bytes moved.
fn pump(from: &mut Connection, to: &mut Connection) -> usize {
    let mut moved = 0;
    while let Some((data, fds)) = from.try_flush() {
        let n = data.len();
        to.accept_bytes(&data, &fds).unwrap();
        from.mark_sent(n);
        moved += n;
    }
    moved
}

fn display_string(m: &Message) -> String {
    let mut s = String::from(m.kind_str());
    if let Some(member) = m.fields().member {
        s.push(' ');
        s.push_str(&String::from_utf8(member).unwrap());
    }
    s
}

#[test]
fn raw_send_receive() {
    let mut conn0 = Connection::new(Vec::new());
    let mut conn1 = Connection::new(Vec::new());

    let msg = Message::method(None, None, "/", Some("org.zbus.p2p"), "Test", Vec::new()).unwrap();

    conn0.enqueue_message(msg);
    pump(&mut conn0, &mut conn1);

    let ret = conn1.try_receive_message().unwrap().unwrap();
    assert_eq!(display_string(&ret), "Method call Test");
}

#[test]
fn chunked_receive_matches_single_shot() {
    let m1 = Message::method(None, None, "/a", Some("org.x"), "One", vec![1, 2, 3]).unwrap();
    let m2 = Message::signal(Some(":1.9"), None, "/b", "org.x", "Two", vec![]).unwrap();
    let m3 = Message::method(None, Some("org.y"), "/c", None, "Three", vec![9; 11]).unwrap();

    let mut stream: Vec<u8> = Vec::new();
    stream.extend_from_slice(m1.as_bytes());
    stream.extend_from_slice(m2.as_bytes());
    stream.extend_from_slice(m3.as_bytes());

    // Single shot: the whole stream in one read.
    let mut single = Connection::new(Vec::new());
    single
        .accept_bytes(&stream, &Vec::new())
        .unwrap();
    let mut got_single = Vec::new();
    while let Some(m) = single.try_receive_message().unwrap() {
        got_single.push(m);
    }

    // One byte at a time, extracting after every chunk.
    let mut chunked = Connection::new(Vec::new());
    let mut got_chunked = Vec::new();
    for b in stream.iter() {
        chunked.accept_bytes(&vec![*b], &Vec::new()).unwrap();
        while let Some(m) = chunked.try_receive_message().unwrap() {
            got_chunked.push(m);
        }
    }

    assert_eq!(got_single.len(), 3);
    assert_eq!(got_chunked.len(), 3);
    for (a, b) in got_single.iter().zip(got_chunked.iter()) {
        assert_eq!(a.as_bytes(), b.as_bytes());
        assert_eq!(a.seq_num, b.seq_num);
    }
    // Inbound sequence numbers are strictly monotonic, starting from 1.
    assert_eq!(got_single[0].seq_num, 1);
    assert_eq!(got_single[1].seq_num, 2);
    assert_eq!(got_single[2].seq_num, 3);
}

#[test]
fn flush_interleaves_partial_writes_in_order() {
    // Flush with arbitrary short writes, enqueueing mid-flush: the wire must
    // carry both messages byte-identical, in enqueue order, exactly once.
    let m1 = Message::method(None, None, "/", Some("org.x"), "First", vec![5; 30]).unwrap();
    let m2 = Message::signal(None, None, "/", "org.x", "Second", vec![7; 4]).unwrap();
    let mut expected: Vec<u8> = Vec::new();
    expected.extend_from_slice(m1.as_bytes());
    expected.extend_from_slice(m2.as_bytes());

    let mut conn = Connection::new(Vec::new());
    conn.enqueue_message(m1);
    let mut second = Some(m2);

    let mut wire: Vec<u8> = Vec::new();
    let mut step = 0;
    loop {
        match conn.try_flush() {
            None => break,
            Some((data, _fds)) => {
                // Send 1, 2, 3, ... bytes per round, never more than offered.
                step += 1;
                let n = step.min(data.len());
                wire.extend_from_slice(&data[..n]);
                conn.mark_sent(n);
            }
        }
        if step == 2 {
            // A second sender slips in while the first message is half out.
            if let Some(m) = second.take() {
                conn.enqueue_message(m);
            }
        }
    }
    assert_eq!(wire, expected);
}

#[test]
fn fds_travel_with_first_chunk_only() {
    let mut m = Message::method(None, None, "/", None, "WithFds", vec![0; 8]).unwrap();
    m.attach_fds(vec![5, 9]);
    let mut conn = Connection::new(Vec::new());
    conn.enqueue_message(m);

    let (d1, f1) = conn.try_flush().unwrap();
    assert_eq!(f1, vec![5, 9]);
    assert!(d1.len() > 1);
    conn.mark_sent(1);

    let (_d2, f2) = conn.try_flush().unwrap();
    assert!(f2.is_empty());
}

#[test]
fn oversized_frame_is_excess_data() {
    // A little-endian primary header declaring a body one byte over the
    // 128 MiB protocol limit.
    let mut header = vec![b'l', 1, 0, 1];
    let body_len: u32 = 128 * 1024 * 1024 - 16 + 1;
    header.extend_from_slice(&body_len.to_le_bytes());
    header.extend_from_slice(&7u32.to_le_bytes()); // serial
    header.extend_from_slice(&0u32.to_le_bytes()); // fields length
    let mut conn = Connection::new(Vec::new());
    conn.accept_bytes(&header, &Vec::new()).unwrap();
    let err = conn.try_receive_message().unwrap_err();
    assert!(matches!(err, Error::ExcessData));
}

#[test]
fn zero_byte_read_is_unexpected_eof() {
    let mut conn = Connection::new(Vec::new());
    let err = conn.accept_bytes(&Vec::new(), &Vec::new()).unwrap_err();
    assert!(matches!(err, Error::UnexpectedEof));
}

#[test]
fn unknown_byte_order_is_invalid_header() {
    let mut conn = Connection::new(Vec::new());
    conn.accept_bytes(&vec![b'x'; 16], &Vec::new()).unwrap();
    let err = conn.try_receive_message().unwrap_err();
    assert!(matches!(err, Error::InvalidHeader));
}

#[test]
fn big_endian_frame_is_framed_but_not_decoded() {
    // The framer honours the announced byte order when computing the frame
    // length; the codec itself marshals little-endian only, so a big-endian
    // frame is cut correctly and then refused as undecodable.
    let mut frame = vec![b'B', 4, 0, 1];
    frame.extend_from_slice(&2u32.to_be_bytes()); // body length
    frame.extend_from_slice(&7u32.to_be_bytes()); // serial
    frame.extend_from_slice(&0u32.to_be_bytes()); // fields length
    frame.extend_from_slice(&[0xAA, 0xBB]); // body
    let mut conn = Connection::new(Vec::new());
    conn.accept_bytes(&frame, &Vec::new()).unwrap();
    assert_eq!(conn.needed_bytes(), 0);
    let err = conn.try_receive_message().unwrap_err();
    assert!(matches!(err, Error::InvalidHeader));
}

#[test]
fn needed_bytes_counts_header_then_body() {
    let mut conn = Connection::new(Vec::new());
    assert_eq!(conn.needed_bytes(), 16);
    let m = Message::method(None, None, "/", None, "M", vec![0; 10]).unwrap();
    let frame = m.as_bytes().clone();
    conn.accept_bytes(&frame[..4].to_vec(), &Vec::new()).unwrap();
    assert_eq!(conn.needed_bytes(), 12);
    conn.accept_bytes(&frame[4..16].to_vec(), &Vec::new()).unwrap();
    assert_eq!(conn.needed_bytes(), frame.len() - 16);
    conn.accept_bytes(&frame[16..].to_vec(), &Vec::new()).unwrap();
    assert_eq!(conn.needed_bytes(), 0);
    assert!(conn.try_receive_message().unwrap().is_some());
}

/// Messages received with a handshake leftover buffer are framed from it.
#[test]
fn leftover_handshake_bytes_are_used() {
    let m = Message::method(None, None, "/", None, "Left", Vec::new()).unwrap();
    let mut conn = Connection::new(m.as_bytes().clone());
    let got = conn.try_receive_message().unwrap().unwrap();
    assert_eq!(got.as_bytes(), m.as_bytes());
    assert_eq!(got.seq_num, 1);
}
