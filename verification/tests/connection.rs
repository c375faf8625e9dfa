//! Tests of the connection facade: peer-to-peer call and reply over an
//! in-memory loopback, fd refusal, the bounded queue, and the bus Hello.

use dbus_core::connection::{CallStep, Connection, DEFAULT_MAX_QUEUED};
use dbus_core::message::{Error, Message, MessageFields, MessageType};

/// Moves every pending outbound byte of `from`'s write half into `to`'s read
/// half, like a socket pair would.
fn pump(from: &mut Connection, to: &mut Connection) {
    while let Some((data, fds)) = from.raw_out.try_flush() {
        let n = data.len();
        to.raw_in.accept_bytes(&data, &fds).unwrap();
        from.raw_out.mark_sent(n);
    }
}

fn display_string(m: &Message) -> String {
    let mut s = String::from(m.kind_str());
    if let Some(member) = m.fields().member {
        s.push(' ');
        s.push_str(&String::from_utf8(member).unwrap());
    }
    s
}

#[test]
fn unix_p2p() {
    let guid = String::from("cafe1234cafe1234cafe1234cafe1234");
    let mut client = Connection::new(guid.clone(), true, false);
    let mut server = Connection::new(guid, true, false);

    // Client: issue the method call.
    let serial = client
        .start_method_call(None, "/", Some("org.zbus.p2p"), "Test", Vec::new())
        .unwrap();
    pump(&mut client, &mut server);

    // Server: pull from the stream until the call arrives.
    let mut method = None;
    while let Some(m) = server.raw_in.try_receive_message().unwrap() {
        if display_string(&m) == "Method call Test" {
            method = Some(m);
            break;
        }
    }
    let method = method.unwrap();

    // Send another message first to check the queueing on the client side.
    server
        .emit_signal(None, "/", "org.zbus.p2p", "ASignalForYou", Vec::new())
        .unwrap();
    server.reply(&method, b"yay".to_vec()).unwrap();
    pump(&mut server, &mut client);

    // Client: correlate; the signal must be queued, the reply returned.
    let mut reply = None;
    while let Some(m) = client.raw_in.try_receive_message().unwrap() {
        match client.call_method_step(serial, m).unwrap() {
            CallStep::Done(m) => {
                reply = Some(m);
                break;
            }
            CallStep::NotOurs { kept } => assert!(kept),
            CallStep::Ignored => {}
        }
    }
    let reply = reply.unwrap();
    assert_eq!(display_string(&reply), "Method return");
    assert_eq!(reply.body(), b"yay".to_vec());

    // The signal sent during the call was not lost.
    let signal = client.stream_pop().unwrap();
    assert_eq!(display_string(&signal), "Signal ASignalForYou");
}

#[test]
fn fd_refusal_without_capability() {
    let mut conn = Connection::new(String::from("guid"), false, false);
    let mut msg = Message::signal(None, None, "/", "org.x", "S", Vec::new()).unwrap();
    msg.attach_fds(vec![4]);
    let err = conn.start_send(msg).unwrap_err();
    assert!(matches!(err, Error::Unsupported));
    // No bytes were queued for the socket.
    assert!(conn.raw_out.try_flush().is_none());

    let mut msg2 = Message::signal(None, None, "/", "org.x", "S", Vec::new()).unwrap();
    msg2.attach_fds(vec![4]);
    let err2 = conn.send_message(msg2).unwrap_err();
    assert!(matches!(err2, Error::Unsupported));
}

fn reply_to(serial: u32, tag: &str) -> Message {
    let fields = MessageFields {
        path: None,
        interface: None,
        member: Some(tag.as_bytes().to_vec()),
        error_name: None,
        reply_serial: Some(serial),
        destination: None,
        sender: None,
    };
    Message::build(MessageType::MethodReturn, 0, 99, fields, Vec::new(), Vec::new()).unwrap()
}

#[test]
fn queue_cap_drops_overflow() {
    let conn = Connection::new(String::from("guid"), false, false);
    let mut conn = conn.set_max_queued(2);
    assert_eq!(conn.max_queued(), 2);

    // Three non-matching messages arrive while a receiver waits for the
    // reply to serial 42, then the matching one.
    let mut sender = Connection::new(String::from("guid"), false, false);
    for tag in ["a", "b", "c"] {
        sender
            .emit_signal(None, "/", "org.x", tag, Vec::new())
            .unwrap();
    }
    sender.raw_out.enqueue_message(reply_to(42, "match"));
    pump(&mut sender, &mut conn);

    // Selective receive: scan the queue, then pull from the framer.
    let mut got = None;
    while let Some(m) = conn.raw_in.try_receive_message().unwrap() {
        let is_match = m.fields().reply_serial == Some(42);
        if is_match {
            got = Some(m);
            break;
        }
        conn.offer_queued(m);
    }
    let got = got.unwrap();
    assert_eq!(got.fields().member, Some(b"match".to_vec()));

    // Exactly two of the earlier messages were kept, in arrival order; the
    // third was dropped, not retained out of order.
    assert_eq!(conn.queue_len(), 2);
    assert_eq!(conn.queue_get(0).fields().member, Some(b"a".to_vec()));
    assert_eq!(conn.queue_get(1).fields().member, Some(b"b".to_vec()));
}

#[test]
fn bus_hello_sets_unique_name() {
    let mut conn = Connection::new(String::from("guid"), true, true);
    assert!(conn.is_bus());
    assert_eq!(conn.unique_name(), None);

    let serial = conn.hello_bus();

    // A fake bus answers the Hello with ":1.42".
    let mut bus = Connection::new(String::from("guid"), true, true);
    pump(&mut conn, &mut bus);
    let hello = bus.raw_in.try_receive_message().unwrap().unwrap();
    assert_eq!(hello.fields().member, Some(b"Hello".to_vec()));
    bus.reply(&hello, b":1.42".to_vec()).unwrap();
    pump(&mut bus, &mut conn);

    let m = conn.raw_in.try_receive_message().unwrap().unwrap();
    let got = match conn.call_method_step(serial, m).unwrap() {
        CallStep::Done(m) => m,
        _ => panic!("expected the Hello reply"),
    };
    let name = String::from_utf8(got.body()).unwrap();
    conn.set_unique_name(name);
    assert_eq!(conn.unique_name(), Some(":1.42"));
}

#[test]
fn method_error_reply_fails_the_call() {
    let mut client = Connection::new(String::from("guid"), false, false);
    let mut server = Connection::new(String::from("guid"), false, false);
    let serial = client
        .start_method_call(None, "/", Some("org.x"), "Boom", Vec::new())
        .unwrap();
    pump(&mut client, &mut server);
    let call = server.raw_in.try_receive_message().unwrap().unwrap();
    server
        .reply_error(&call, "org.x.Error.Failed", b"no".to_vec())
        .unwrap();
    pump(&mut server, &mut client);

    let m = client.raw_in.try_receive_message().unwrap().unwrap();
    let err = client.call_method_step(serial, m).unwrap_err();
    match err {
        Error::MethodError(em) => {
            assert_eq!(
                em.fields().error_name,
                Some(b"org.x.Error.Failed".to_vec())
            );
            assert_eq!(em.body(), b"no".to_vec());
        }
        _ => panic!("expected a method error"),
    }
}

#[test]
fn matching_serial_of_other_type_is_ignored() {
    let mut conn = Connection::new(String::from("guid"), false, false);
    let fields = MessageFields {
        path: None,
        interface: None,
        member: None,
        error_name: None,
        reply_serial: Some(7),
        destination: None,
        sender: None,
    };
    let odd = Message::build(MessageType::Signal, 0, 3, fields, Vec::new(), Vec::new()).unwrap();
    match conn.call_method_step(7, odd).unwrap() {
        CallStep::Ignored => {}
        _ => panic!("a matching serial of another type is discarded"),
    }
    assert_eq!(conn.queue_len(), 0);
}

#[test]
fn queue_take_reply_takes_first_match_in_order() {
    let mut conn = Connection::new(String::from("guid"), false, false);
    conn.offer_queued(reply_to(1, "one"));
    conn.offer_queued(reply_to(2, "two-a"));
    conn.offer_queued(reply_to(2, "two-b"));
    conn.offer_queued(reply_to(3, "three"));

    let got = conn.queue_take_reply(2).unwrap();
    assert_eq!(got.fields().member, Some(b"two-a".to_vec()));
    assert_eq!(conn.queue_len(), 3);
    assert_eq!(conn.queue_get(0).fields().member, Some(b"one".to_vec()));
    assert_eq!(conn.queue_get(1).fields().member, Some(b"two-b".to_vec()));
    assert_eq!(conn.queue_get(2).fields().member, Some(b"three".to_vec()));
    assert!(conn.queue_take_reply(9).is_none());
}

#[test]
fn stream_pop_hands_out_queued_messages() {
    let mut conn = Connection::new(String::from("guid"), false, false);
    assert!(conn.stream_pop().is_none());
    conn.offer_queued(reply_to(1, "first"));
    conn.offer_queued(reply_to(2, "second"));
    // The stream drains the queue before consulting the framer; it pops from
    // the tail, and the queue eventually drains.
    let a = conn.stream_pop().unwrap();
    let b = conn.stream_pop().unwrap();
    assert!(conn.stream_pop().is_none());
    let mut tags: Vec<Vec<u8>> = vec![
        a.fields().member.unwrap(),
        b.fields().member.unwrap(),
    ];
    tags.sort();
    assert_eq!(tags, vec![b"first".to_vec(), b"second".to_vec()]);
}

#[test]
fn builder_sets_max_queued() {
    let conn = Connection::new(String::from("guid"), false, false);
    assert_eq!(conn.max_queued(), DEFAULT_MAX_QUEUED);
    let conn = conn.set_max_queued(30);
    assert_eq!(conn.max_queued(), 30);
    assert_eq!(conn.server_guid(), "guid");
}
