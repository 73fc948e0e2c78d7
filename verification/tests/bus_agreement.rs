use bus::{Bus, BusReader};
use evcast::bus::{BusError, EventBus, Subscription};
use evcast::event::{RawEvent, Timestamp};
use evcast::frame::{encode, Frame};
use std::sync::mpsc::TryRecvError;

fn frame(number: u64) -> Frame {
    let mut frame = Frame::new();
    let event = RawEvent::new(Timestamp { secs: number, nanos: 7 }, 1, 30, 1);
    encode(event, &mut frame).unwrap();
    frame
}

struct Script {
    state: u64,
}

impl Script {
    fn next(&mut self, bound: u64) -> u64 {
        self.state = self
            .state
            .wrapping_mul(6_364_136_223_846_793_005)
            .wrapping_add(1_442_695_040_888_963_407);
        (self.state >> 33) % bound
    }
}

/// Runs one script of subscribes, publishes, receives and releases on the
/// table bus and on the lock-free ring bus, on one thread, and compares every
/// answer.
fn run_both(seed: u64, capacity: usize, steps: usize) {
    let mut script = Script { state: seed };
    let mut table = EventBus::new(capacity);
    let mut ring: Bus<Vec<u8>> = Bus::new(capacity);
    let mut readers: Vec<(Subscription, BusReader<Vec<u8>>)> = Vec::new();
    let mut number: u64 = 0;

    for _ in 0..steps {
        match script.next(10) {
            0 => {
                if readers.len() < 6 {
                    readers.push((table.subscribe(), ring.add_rx()));
                }
            }
            1 => {
                if !readers.is_empty() {
                    let pick = script.next(readers.len() as u64) as usize;
                    let (sub, reader) = readers.swap_remove(pick);
                    table.unsubscribe(sub);
                    drop(reader);
                }
            }
            2..=6 => {
                number += 1;
                let item = frame(number);
                let ours = table.publish(item);
                let theirs = ring.try_broadcast(item.as_slice().to_vec());
                match (ours, theirs) {
                    (Ok(()), Ok(())) => {}
                    (Err(BusError::Full), Err(returned)) => {
                        assert_eq!(returned, item.as_slice().to_vec())
                    }
                    (ours, theirs) => panic!("publish {number}: {ours:?} against {theirs:?}"),
                }
            }
            _ => {
                if !readers.is_empty() {
                    let pick = script.next(readers.len() as u64) as usize;
                    let (sub, reader) = &mut readers[pick];
                    match (table.recv(sub), reader.try_recv()) {
                        (Ok(Some(ours)), Ok(theirs)) => assert_eq!(ours.as_slice(), &theirs[..]),
                        (Ok(None), Err(TryRecvError::Empty)) => {}
                        (ours, theirs) => panic!("recv: {ours:?} against {theirs:?}"),
                    }
                }
            }
        }
        assert_eq!(table.subscriber_count(), ring.rx_count());
    }

    table.close();
    drop(ring);
    for (sub, reader) in readers.iter_mut() {
        loop {
            match (table.recv(sub), reader.try_recv()) {
                (Ok(Some(ours)), Ok(theirs)) => assert_eq!(ours.as_slice(), &theirs[..]),
                (Err(BusError::Closed), Err(TryRecvError::Disconnected)) => break,
                (ours, theirs) => panic!("after close: {ours:?} against {theirs:?}"),
            }
        }
    }
}

#[test]
fn table_bus_agrees_with_ring_bus_of_capacity_one() {
    for seed in 0..20u64 {
        run_both(seed, 1, 400);
    }
}

#[test]
fn table_bus_agrees_with_ring_bus_of_small_capacity() {
    for seed in 100..120u64 {
        run_both(seed, 3, 600);
    }
}

#[test]
fn table_bus_agrees_with_ring_bus_of_default_capacity() {
    for seed in 200..205u64 {
        run_both(seed, 100, 3000);
    }
}
