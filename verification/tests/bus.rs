use evcast::bus::{BusError, EventBus};
use evcast::event::{RawEvent, Timestamp};
use evcast::frame::{encode, Frame};

fn frame(code: u16) -> Frame {
    let mut frame = Frame::new();
    encode(RawEvent::new(Timestamp { secs: 9, nanos: 8 }, 1, code, 1), &mut frame).unwrap();
    frame
}

fn bytes(code: u16) -> Vec<u8> {
    frame(code).as_slice().to_vec()
}

#[test]
fn new_bus_is_open_and_empty() {
    let bus = EventBus::new(100);
    assert_eq!(bus.capacity(), 100);
    assert!(!bus.is_closed());
    assert_eq!(bus.subscriber_count(), 0);
}

#[test]
fn subscriber_receives_publishes_in_order() {
    let mut bus = EventBus::new(100);
    let sub = bus.subscribe();
    for code in 1..=50u16 {
        assert_eq!(bus.publish(frame(code)), Ok(()));
    }
    assert_eq!(bus.pending(&sub), 50);
    for code in 1..=50u16 {
        let got = bus.recv(&sub).unwrap().expect("a frame waits");
        assert_eq!(got.as_slice(), &bytes(code)[..]);
    }
    assert!(matches!(bus.recv(&sub), Ok(None)));
}

#[test]
fn every_subscriber_gets_its_own_copy() {
    let mut bus = EventBus::new(4);
    let a = bus.subscribe();
    let b = bus.subscribe();
    assert_eq!(bus.subscriber_count(), 2);
    assert_eq!(bus.publish(frame(7)), Ok(()));
    assert_eq!(bus.publish(frame(8)), Ok(()));
    assert_eq!(bus.recv(&a).unwrap().unwrap().as_slice(), &bytes(7)[..]);
    assert_eq!(bus.pending(&a), 1);
    assert_eq!(bus.pending(&b), 2);
    assert_eq!(bus.recv(&b).unwrap().unwrap().as_slice(), &bytes(7)[..]);
    assert_eq!(bus.recv(&b).unwrap().unwrap().as_slice(), &bytes(8)[..]);
    assert_eq!(bus.recv(&a).unwrap().unwrap().as_slice(), &bytes(8)[..]);
}

#[test]
fn full_queue_drops_the_frame_for_all() {
    let mut bus = EventBus::new(2);
    let slow = bus.subscribe();
    let quick = bus.subscribe();
    assert_eq!(bus.publish(frame(1)), Ok(()));
    assert_eq!(bus.publish(frame(2)), Ok(()));
    assert!(bus.recv(&quick).unwrap().is_some());
    assert!(bus.recv(&quick).unwrap().is_some());
    assert_eq!(bus.pending(&slow), 2);
    assert_eq!(bus.pending(&quick), 0);
    assert_eq!(bus.publish(frame(3)), Err(BusError::Full));
    assert_eq!(bus.pending(&slow), 2);
    assert_eq!(bus.pending(&quick), 0);
    assert!(matches!(bus.recv(&quick), Ok(None)));
    assert_eq!(bus.recv(&slow).unwrap().unwrap().as_slice(), &bytes(1)[..]);
    assert_eq!(bus.publish(frame(4)), Ok(()));
    assert_eq!(bus.recv(&slow).unwrap().unwrap().as_slice(), &bytes(2)[..]);
    assert_eq!(bus.recv(&slow).unwrap().unwrap().as_slice(), &bytes(4)[..]);
    assert_eq!(bus.recv(&quick).unwrap().unwrap().as_slice(), &bytes(4)[..]);
}

#[test]
fn late_subscriber_does_not_see_earlier_frames() {
    let mut bus = EventBus::new(10);
    let early = bus.subscribe();
    assert_eq!(bus.publish(frame(1)), Ok(()));
    let late = bus.subscribe();
    assert_eq!(bus.pending(&early), 1);
    assert_eq!(bus.pending(&late), 0);
    assert!(matches!(bus.recv(&late), Ok(None)));
    assert_eq!(bus.publish(frame(2)), Ok(()));
    assert_eq!(bus.recv(&late).unwrap().unwrap().as_slice(), &bytes(2)[..]);
}

#[test]
fn publish_without_subscribers_is_taken_and_lost() {
    let mut bus = EventBus::new(1);
    assert_eq!(bus.publish(frame(1)), Ok(()));
    assert_eq!(bus.publish(frame(2)), Ok(()));
    let sub = bus.subscribe();
    assert_eq!(bus.pending(&sub), 0);
}

#[test]
fn bus_of_capacity_zero_takes_nothing_while_someone_listens() {
    let mut bus = EventBus::new(0);
    assert_eq!(bus.publish(frame(1)), Ok(()));
    let sub = bus.subscribe();
    assert_eq!(bus.publish(frame(1)), Err(BusError::Full));
    bus.unsubscribe(sub);
    assert_eq!(bus.publish(frame(1)), Ok(()));
}

#[test]
fn closed_bus_delivers_what_waits_and_then_reports_closed() {
    let mut bus = EventBus::new(10);
    let sub = bus.subscribe();
    assert_eq!(bus.publish(frame(1)), Ok(()));
    bus.close();
    assert!(bus.is_closed());
    assert_eq!(bus.publish(frame(2)), Err(BusError::Closed));
    assert_eq!(bus.recv(&sub).unwrap().unwrap().as_slice(), &bytes(1)[..]);
    assert!(matches!(bus.recv(&sub), Err(BusError::Closed)));
    assert!(matches!(bus.recv(&sub), Err(BusError::Closed)));
}

#[test]
fn closed_wins_over_full() {
    let mut bus = EventBus::new(1);
    let _sub = bus.subscribe();
    assert_eq!(bus.publish(frame(1)), Ok(()));
    assert_eq!(bus.publish(frame(2)), Err(BusError::Full));
    bus.close();
    assert_eq!(bus.publish(frame(2)), Err(BusError::Closed));
}

#[test]
fn unsubscribe_frees_the_slot_and_unblocks_the_bus() {
    let mut bus = EventBus::new(1);
    let stuck = bus.subscribe();
    let other = bus.subscribe();
    assert_eq!(bus.publish(frame(1)), Ok(()));
    assert!(bus.recv(&other).unwrap().is_some());
    assert_eq!(bus.publish(frame(2)), Err(BusError::Full));
    bus.unsubscribe(stuck);
    assert_eq!(bus.subscriber_count(), 1);
    assert_eq!(bus.publish(frame(3)), Ok(()));
    assert_eq!(bus.recv(&other).unwrap().unwrap().as_slice(), &bytes(3)[..]);
}

#[test]
fn freed_slot_is_taken_again_with_an_empty_queue() {
    let mut bus = EventBus::new(5);
    let first = bus.subscribe();
    let second = bus.subscribe();
    assert_eq!(bus.publish(frame(1)), Ok(()));
    bus.unsubscribe(first);
    assert!(bus.is_subscribed(&second));
    let third = bus.subscribe();
    assert_eq!(bus.subscriber_count(), 2);
    assert_eq!(bus.pending(&third), 0);
    assert_eq!(bus.pending(&second), 1);
    assert_eq!(bus.publish(frame(2)), Ok(()));
    assert_eq!(bus.recv(&third).unwrap().unwrap().as_slice(), &bytes(2)[..]);
}

#[test]
fn subscription_of_another_bus_is_not_held() {
    let mut big = EventBus::new(5);
    let _a = big.subscribe();
    let b = big.subscribe();
    let mut small = EventBus::new(5);
    assert!(!small.is_subscribed(&b));
    assert_eq!(small.pending(&b), 0);
    assert!(matches!(small.recv(&b), Err(BusError::Closed)));
    small.unsubscribe(b);
    assert_eq!(small.subscriber_count(), 0);
}

#[test]
fn queue_holds_exactly_the_capacity() {
    let mut bus = EventBus::new(100);
    let sub = bus.subscribe();
    for code in 0..100u16 {
        assert_eq!(bus.publish(frame(code)), Ok(()));
    }
    assert_eq!(bus.pending(&sub), 100);
    assert_eq!(bus.publish(frame(100)), Err(BusError::Full));
    assert_eq!(bus.pending(&sub), 100);
}
