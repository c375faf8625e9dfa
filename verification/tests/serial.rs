//! Tests of the serial allocator: strictly monotonic cookies starting at 1.

use dbus_core::connection::Connection;
use dbus_core::message::Message;

#[test]
fn serial_monotonically_increases() {
    let mut c = Connection::new(String::from("guid"), false, true);
    let serial = c.next_serial() + 1;

    for next in serial..serial + 10 {
        assert_eq!(next, c.next_serial());
    }
}

#[test]
fn serials_start_at_one() {
    let mut c = Connection::new(String::from("guid"), false, false);
    assert_eq!(c.next_serial(), 1);
    assert_eq!(c.next_serial(), 2);
}

#[test]
fn assign_serial_num_stamps_and_advances() {
    let mut c = Connection::new(String::from("guid"), false, false);
    let mut m1 = Message::signal(None, None, "/", "org.x", "A", Vec::new()).unwrap();
    let mut m2 = Message::signal(None, None, "/", "org.x", "B", Vec::new()).unwrap();
    assert_eq!(m1.serial(), 0);
    let s1 = c.assign_serial_num(&mut m1);
    let s2 = c.assign_serial_num(&mut m2);
    assert_eq!(s1, 1);
    assert_eq!(s2, 2);
    assert!(s1 < s2);
    assert_eq!(m1.serial(), 1);
    assert_eq!(m2.serial(), 2);
    // Stamping leaves everything else in place.
    assert_eq!(m1.fields().member, Some(b"A".to_vec()));
}
