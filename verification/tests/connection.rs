use evcast::bus::EventBus;
use evcast::connection::{authenticate, Connection, Delivery, CREDENTIAL_END};
use evcast::event::{RawEvent, Timestamp};
use evcast::frame::{encode, Frame};

fn frame(code: u16) -> Frame {
    let mut frame = Frame::new();
    encode(RawEvent::new(Timestamp { secs: 9, nanos: 8 }, 1, code, 1), &mut frame).unwrap();
    frame
}

#[test]
fn credential_ends_with_a_zero_byte() {
    assert_eq!(CREDENTIAL_END, 0);
}

#[test]
fn key_itself_authenticates() {
    assert!(authenticate(b"abc", b"abc"));
    assert!(authenticate(b"abc\0", b"abc"));
    assert!(authenticate(b"", b""));
    assert!(authenticate(b"\0", b""));
}

#[test]
fn extension_of_the_key_authenticates() {
    assert!(authenticate(b"abcdef\0", b"abc"));
    assert!(authenticate(b"abcd", b"abc"));
    assert!(authenticate(b"anything\0", b""));
}

#[test]
fn prefix_of_the_key_does_not_authenticate() {
    assert!(!authenticate(b"ab\0", b"abc"));
    assert!(!authenticate(b"ab", b"abc"));
    assert!(!authenticate(b"", b"abc"));
    assert!(!authenticate(b"\0", b"abc"));
}

#[test]
fn other_credentials_do_not_authenticate() {
    assert!(!authenticate(b"xyz\0", b"abc"));
    assert!(!authenticate(b"abd\0", b"abc"));
    assert!(!authenticate(b"xabc\0", b"abc"));
    assert!(!authenticate(b"ABC\0", b"abc"));
    assert!(!authenticate(b"xbcdef\0", b"abc"));
}

#[test]
fn accepted_credential_subscribes_the_connection() {
    let mut bus = EventBus::new(10);
    let connection = Connection::new();
    assert!(!connection.is_streaming() && !connection.is_closed());
    let connection = connection.credential_read(b"secret\0", b"secret", &mut bus);
    assert!(connection.is_streaming());
    assert_eq!(bus.subscriber_count(), 1);
}

#[test]
fn refused_credential_ends_the_connection_without_subscribing() {
    let mut bus = EventBus::new(10);
    let connection = Connection::new().credential_read(b"guess\0", b"secret", &mut bus);
    assert!(connection.is_closed());
    assert_eq!(bus.subscriber_count(), 0);
    let (connection, delivery) = connection.next_delivery(&mut bus);
    assert!(connection.is_closed());
    assert!(matches!(delivery, Delivery::End));
}

#[test]
fn failed_read_ends_the_connection() {
    let mut bus = EventBus::new(10);
    let connection = Connection::new().close(&mut bus);
    assert!(connection.is_closed());
    assert_eq!(bus.subscriber_count(), 0);
    let connection = connection.credential_read(b"secret\0", b"secret", &mut bus);
    assert!(connection.is_closed());
    assert_eq!(bus.subscriber_count(), 0);
}

#[test]
fn nothing_is_delivered_before_the_credential() {
    let mut bus = EventBus::new(10);
    let (connection, delivery) = Connection::new().next_delivery(&mut bus);
    assert!(matches!(delivery, Delivery::End));
    assert!(matches!(connection, Connection::AwaitingCredential));
}

#[test]
fn streaming_connection_sends_frames_in_order_and_waits() {
    let mut bus = EventBus::new(10);
    let connection = Connection::new().credential_read(b"secret\0", b"secret", &mut bus);
    assert!(matches!(bus.publish(frame(1)), Ok(())));
    assert!(matches!(bus.publish(frame(2)), Ok(())));
    let (connection, first) = connection.next_delivery(&mut bus);
    let (connection, second) = connection.next_delivery(&mut bus);
    let (connection, third) = connection.next_delivery(&mut bus);
    match (first, second) {
        (Delivery::Send(a), Delivery::Send(b)) => {
            assert_eq!(a.as_slice(), frame(1).as_slice());
            assert_eq!(b.as_slice(), frame(2).as_slice());
        }
        _ => panic!("two frames waited"),
    }
    assert!(matches!(third, Delivery::Wait));
    assert!(connection.is_streaming());
}

#[test]
fn closed_bus_ends_the_stream_after_what_waited() {
    let mut bus = EventBus::new(10);
    let connection = Connection::new().credential_read(b"secret\0", b"secret", &mut bus);
    assert!(matches!(bus.publish(frame(1)), Ok(())));
    bus.close();
    let (connection, first) = connection.next_delivery(&mut bus);
    assert!(matches!(first, Delivery::Send(_)));
    let (connection, second) = connection.next_delivery(&mut bus);
    assert!(matches!(second, Delivery::End));
    assert!(connection.is_closed());
    assert_eq!(bus.subscriber_count(), 0);
}

#[test]
fn closing_a_stream_releases_its_subscription() {
    let mut bus = EventBus::new(1);
    let stays = bus.subscribe();
    let connection = Connection::new().credential_read(b"secret\0", b"secret", &mut bus);
    assert_eq!(bus.subscriber_count(), 2);
    assert!(matches!(bus.publish(frame(1)), Ok(())));
    let connection = connection.close(&mut bus);
    assert!(connection.is_closed());
    assert_eq!(bus.subscriber_count(), 1);
    assert_eq!(bus.pending(&stays), 1);
    let connection = connection.close(&mut bus);
    assert!(connection.is_closed());
    assert_eq!(bus.subscriber_count(), 1);
}

#[test]
fn second_credential_changes_nothing() {
    let mut bus = EventBus::new(10);
    let connection = Connection::new().credential_read(b"secret\0", b"secret", &mut bus);
    let connection = connection.credential_read(b"guess\0", b"secret", &mut bus);
    assert!(connection.is_streaming());
    assert_eq!(bus.subscriber_count(), 1);
}

#[test]
fn authentication_is_the_prefix_test_of_slices() {
    let keys: [&[u8]; 5] = [b"", b"a", b"abc", b"abc\0", b"\0"];
    let candidates: [&[u8]; 9] =
        [b"", b"\0", b"a", b"a\0", b"ab", b"abc", b"abc\0", b"abcdef\0", b"zabc\0"];
    for key in keys {
        for candidate in candidates {
            assert_eq!(authenticate(candidate, key), candidate.starts_with(key));
        }
    }
}
