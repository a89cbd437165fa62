use session_carrier::carrier::{Channel, RWChannel, RecvError, SendError, Value};
use session_carrier::codec::DecodeFault;
use std::cell::RefCell;
use std::collections::VecDeque;
use std::rc::Rc;

#[derive(Default)]
struct Seen {
    written: Vec<u8>,
    writes: Vec<Vec<u8>>,
    flushes: usize,
    taken: usize,
    order: Vec<char>,
    asked: Vec<char>,
}

struct Script {
    input: VecDeque<u8>,
    seen: Rc<RefCell<Seen>>,
    fail_write: bool,
    fail_flush: bool,
    fail_read_after: Option<usize>,
}

impl RWChannel for Script {
    // The record stands in contracts only: this body is never run.
    fn record(&self) -> session_carrier::carrier::Record {
        unreachable!()
    }

    fn write_all(&mut self, bytes: &[u8]) -> Result<(), std::io::Error> {
        self.seen.borrow_mut().asked.push('w');
        if self.fail_write {
            return Err(std::io::Error::new(std::io::ErrorKind::ConnectionAborted, "write refused"));
        }
        let mut seen = self.seen.borrow_mut();
        seen.written.extend_from_slice(bytes);
        seen.writes.push(bytes.to_vec());
        seen.order.push('w');
        Ok(())
    }

    fn flush(&mut self) -> Result<(), std::io::Error> {
        self.seen.borrow_mut().asked.push('f');
        if self.fail_flush {
            return Err(std::io::Error::new(std::io::ErrorKind::BrokenPipe, "flush refused"));
        }
        let mut seen = self.seen.borrow_mut();
        seen.flushes += 1;
        seen.order.push('f');
        Ok(())
    }

    fn read_byte(&mut self) -> Result<Option<u8>, std::io::Error> {
        let mut seen = self.seen.borrow_mut();
        seen.asked.push('r');
        if self.fail_read_after == Some(seen.taken) {
            return Err(std::io::Error::new(std::io::ErrorKind::ConnectionReset, "read refused"));
        }
        let byte = self.input.pop_front();
        if byte.is_some() {
            seen.taken += 1;
        }
        Ok(byte)
    }
}

fn carrier_over(input: &[u8]) -> (Channel, Rc<RefCell<Seen>>) {
    let seen = Rc::new(RefCell::new(Seen::default()));
    let script = Script {
        input: input.iter().copied().collect(),
        seen: seen.clone(),
        fail_write: false,
        fail_flush: false,
        fail_read_after: None,
    };
    (Channel::new(script), seen)
}

fn faulty_carrier(
    input: &[u8],
    fail_write: bool,
    fail_flush: bool,
    fail_read_after: Option<usize>,
) -> (Channel, Rc<RefCell<Seen>>) {
    let seen = Rc::new(RefCell::new(Seen::default()));
    let script = Script {
        input: input.iter().copied().collect(),
        seen: seen.clone(),
        fail_write,
        fail_flush,
        fail_read_after,
    };
    (Channel::new(script), seen)
}

#[test]
fn a_value_holds_its_payload() {
    assert_eq!(Value::new(5i64).get(), 5);
    assert_eq!(Value::new(-7i64).get(), -7);
    assert_eq!(Value::new(9u64).get(), 9);
    assert_eq!(Value::new(true).get(), true);
    assert_eq!(Value::new(false).get(), false);
    let value = Value::new(17u64);
    let copy = value.clone();
    assert_eq!(value.get(), copy.get());
}

#[test]
fn a_new_carrier_is_intact() {
    let (carrier, seen) = carrier_over(&[]);
    assert!(carrier.is_intact());
    assert_eq!(seen.borrow().written.len(), 0);
    assert_eq!(seen.borrow().taken, 0);
}

#[test]
fn wrapping_a_stream_asks_nothing_of_it() {
    let (mut carrier, seen) = carrier_over(&[0x07, 0xc3]);
    assert_eq!(seen.borrow().asked.len(), 0);
    assert_eq!(Value::<u64>::recv(&mut carrier).unwrap().get(), 7);
    assert_eq!(seen.borrow().asked, vec!['r']);
    carrier.send_choice(true).unwrap();
    assert_eq!(seen.borrow().asked, vec!['r', 'w', 'f']);
    assert_eq!(seen.borrow().written, vec![0xc3]);
}

#[test]
fn send_writes_the_frame_whole_and_flushes() {
    let (mut carrier, seen) = carrier_over(&[]);
    Value::new(-129i64).send(&mut carrier).unwrap();
    assert!(carrier.is_intact());
    let seen = seen.borrow();
    assert_eq!(seen.written, vec![0xd1, 0xff, 0x7f]);
    assert_eq!(seen.writes, vec![vec![0xd1, 0xff, 0x7f]]);
    assert_eq!(seen.flushes, 1);
    assert_eq!(seen.order, vec!['w', 'f']);
    assert_eq!(seen.taken, 0);
}

#[test]
fn each_send_is_written_and_flushed_by_itself() {
    let (mut carrier, seen) = carrier_over(&[]);
    Value::new(3i64).send(&mut carrier).unwrap();
    Value::new(300u64).send(&mut carrier).unwrap();
    Value::new(true).send(&mut carrier).unwrap();
    let seen = seen.borrow();
    assert_eq!(seen.writes, vec![vec![0x03], vec![0xcd, 0x01, 0x2c], vec![0xc3]]);
    assert_eq!(seen.order, vec!['w', 'f', 'w', 'f', 'w', 'f']);
}

#[test]
fn recv_takes_one_frame_and_no_more() {
    let (mut carrier, seen) = carrier_over(&[0xcd, 0x01, 0x00, 0xff, 0xc3]);
    assert_eq!(Value::<i64>::recv(&mut carrier).unwrap().get(), 256);
    assert_eq!(seen.borrow().taken, 3);
    assert_eq!(Value::<i64>::recv(&mut carrier).unwrap().get(), -1);
    assert_eq!(seen.borrow().taken, 4);
    assert_eq!(Value::<bool>::recv(&mut carrier).unwrap().get(), true);
    assert_eq!(seen.borrow().taken, 5);
    assert!(carrier.is_intact());
    assert_eq!(seen.borrow().written.len(), 0);
}

#[test]
fn recv_reads_what_send_wrote() {
    let (mut out, seen) = carrier_over(&[]);
    let values: [i64; 9] = [0, -1, 127, -33, 1000, -1000, 1 << 40, i64::MIN, i64::MAX];
    for value in values {
        Value::new(value).send(&mut out).unwrap();
    }
    let written = seen.borrow().written.clone();
    let (mut back, _) = carrier_over(&written);
    for value in values {
        assert_eq!(Value::<i64>::recv(&mut back).unwrap().get(), value);
    }
    assert!(matches!(
        Value::<i64>::recv(&mut back),
        Err(RecvError::Decode(DecodeFault::Closed))
    ));
}

#[test]
fn a_choice_travels_as_a_boolean() {
    let (mut carrier, seen) = carrier_over(&[0xc2, 0xc3]);
    carrier.send_choice(true).unwrap();
    carrier.send_choice(false).unwrap();
    assert_eq!(seen.borrow().written, vec![0xc3, 0xc2]);
    assert_eq!(seen.borrow().flushes, 2);
    assert_eq!(carrier.recv_choice().unwrap(), false);
    assert_eq!(carrier.recv_choice().unwrap(), true);
    assert!(carrier.is_intact());
}

#[test]
fn a_choice_is_read_by_recv_and_a_boolean_by_recv_choice() {
    let (mut out, seen) = carrier_over(&[]);
    out.send_choice(true).unwrap();
    Value::new(false).send(&mut out).unwrap();
    let written = seen.borrow().written.clone();
    let (mut back, _) = carrier_over(&written);
    assert_eq!(Value::<bool>::recv(&mut back).unwrap().get(), true);
    assert_eq!(back.recv_choice().unwrap(), false);
}

#[test]
fn a_stream_cut_inside_a_frame_is_a_decode_error() {
    let (mut carrier, seen) = carrier_over(&[0xce, 0x00, 0x01]);
    let r = Value::<i64>::recv(&mut carrier);
    assert!(matches!(r, Err(RecvError::Decode(DecodeFault::Truncated))));
    assert!(!carrier.is_intact());
    assert_eq!(seen.borrow().taken, 3);
}

#[test]
fn a_stream_cut_after_the_marker_is_a_decode_error() {
    let (mut carrier, _) = carrier_over(&[0xd3]);
    let r = Value::<i64>::recv(&mut carrier);
    assert!(matches!(r, Err(RecvError::Decode(DecodeFault::Truncated))));
    assert!(!carrier.is_intact());
}

#[test]
fn a_stream_cut_between_frames_is_a_decode_error() {
    let (mut carrier, _) = carrier_over(&[0x01]);
    assert_eq!(Value::<i64>::recv(&mut carrier).unwrap().get(), 1);
    let r = Value::<i64>::recv(&mut carrier);
    assert!(matches!(r, Err(RecvError::Decode(DecodeFault::Closed))));
    assert!(!carrier.is_intact());
}

#[test]
fn an_ended_stream_is_a_decode_error() {
    let (mut carrier, seen) = carrier_over(&[]);
    let r = carrier.recv_choice();
    assert!(matches!(r, Err(RecvError::Decode(DecodeFault::Closed))));
    assert!(!carrier.is_intact());
    assert_eq!(seen.borrow().taken, 0);
}

#[test]
fn an_unknown_marker_is_a_decode_error() {
    let (mut carrier, seen) = carrier_over(&[0xc0, 0x01]);
    let r = Value::<i64>::recv(&mut carrier);
    assert!(matches!(r, Err(RecvError::Decode(DecodeFault::Marker(0xc0)))));
    assert!(!carrier.is_intact());
    assert_eq!(seen.borrow().taken, 1);
}

#[test]
fn a_frame_of_another_kind_is_a_decode_error() {
    let (mut carrier, seen) = carrier_over(&[0xc3, 0x01]);
    let r = Value::<i64>::recv(&mut carrier);
    assert!(matches!(r, Err(RecvError::Decode(DecodeFault::Codec(_)))));
    assert!(!carrier.is_intact());
    assert_eq!(seen.borrow().taken, 1);

    let (mut carrier, _) = carrier_over(&[0x01]);
    assert!(matches!(carrier.recv_choice(), Err(RecvError::Decode(DecodeFault::Codec(_)))));
    assert!(!carrier.is_intact());

    let (mut carrier, _) = carrier_over(&[0xff]);
    let r = Value::<u64>::recv(&mut carrier);
    assert!(matches!(r, Err(RecvError::Decode(DecodeFault::Codec(_)))));
}

#[test]
fn a_failing_read_is_a_decode_error() {
    let (mut carrier, _) = faulty_carrier(&[0xcd, 0x01, 0x02], false, false, Some(0));
    let r = Value::<i64>::recv(&mut carrier);
    assert!(matches!(r, Err(RecvError::Decode(DecodeFault::Stream(_)))));
    assert!(!carrier.is_intact());

    let (mut carrier, seen) = faulty_carrier(&[0xcd, 0x01, 0x02], false, false, Some(2));
    let r = Value::<i64>::recv(&mut carrier);
    assert!(matches!(r, Err(RecvError::Decode(DecodeFault::Stream(_)))));
    assert!(!carrier.is_intact());
    assert_eq!(seen.borrow().taken, 2);
}

#[test]
fn a_failing_write_is_a_flush_error() {
    let (mut carrier, seen) = faulty_carrier(&[0x01, 0x02], true, false, None);
    let r = Value::new(5i64).send(&mut carrier);
    match r {
        Err(SendError::Flush(e)) => assert_eq!(e.kind(), std::io::ErrorKind::ConnectionAborted),
        other => panic!("not the error of the write: {:?}", other),
    }
    assert!(!carrier.is_intact());
    assert_eq!(seen.borrow().flushes, 0);
    assert_eq!(seen.borrow().asked, vec!['w']);
    assert_eq!(seen.borrow().taken, 0);
}

#[test]
fn a_failing_flush_is_a_flush_error() {
    let (mut carrier, seen) = faulty_carrier(&[0x01, 0x02], false, true, None);
    let r = Value::new(true).send(&mut carrier);
    match r {
        Err(SendError::Flush(e)) => assert_eq!(e.kind(), std::io::ErrorKind::BrokenPipe),
        other => panic!("not the error of the flush: {:?}", other),
    }
    assert!(!carrier.is_intact());
    assert_eq!(seen.borrow().written, vec![0xc3]);
    assert_eq!(seen.borrow().asked, vec!['w', 'f']);
    assert_eq!(seen.borrow().taken, 0);
}

#[test]
fn a_send_asks_for_one_write_and_one_flush_and_takes_nothing() {
    let (mut carrier, seen) = carrier_over(&[0x01, 0x02, 0x03]);
    Value::new(70000u64).send(&mut carrier).unwrap();
    assert_eq!(seen.borrow().asked, vec!['w', 'f']);
    carrier.send_choice(false).unwrap();
    assert_eq!(seen.borrow().asked, vec!['w', 'f', 'w', 'f']);
    assert_eq!(seen.borrow().taken, 0);
    assert_eq!(Value::<i64>::recv(&mut carrier).unwrap().get(), 1);
}

#[test]
fn a_failing_read_carries_the_error_of_the_stream() {
    let (mut carrier, seen) = faulty_carrier(&[0xcd, 0x01, 0x02], false, false, Some(1));
    match Value::<i64>::recv(&mut carrier) {
        Err(RecvError::Decode(DecodeFault::Stream(e))) => {
            assert_eq!(e.kind(), std::io::ErrorKind::ConnectionReset)
        },
        other => panic!("not the error of the stream: {:?}", other.map(|v| v.get())),
    }
    assert_eq!(seen.borrow().asked, vec!['r', 'r']);
    assert_eq!(seen.borrow().written.len(), 0);
}

#[test]
fn a_receive_asks_for_the_bytes_of_one_frame_and_writes_nothing() {
    let (mut carrier, seen) = carrier_over(&[0xce, 0x00, 0x00, 0x01, 0x00, 0x07]);
    assert_eq!(Value::<u64>::recv(&mut carrier).unwrap().get(), 256);
    assert_eq!(seen.borrow().asked, vec!['r', 'r', 'r', 'r', 'r']);
    assert_eq!(carrier.recv_choice().is_err(), true);
    assert_eq!(seen.borrow().asked.len(), 6);
}

#[test]
fn errors_can_be_shown() {
    let (mut carrier, _) = carrier_over(&[0xcd]);
    let shown = format!("{:?}", Value::<i64>::recv(&mut carrier).err().unwrap());
    assert!(shown.contains("Decode"));
    assert!(shown.contains("Truncated"));
    let (mut carrier, _) = faulty_carrier(&[], true, false, None);
    let shown = format!("{:?}", Value::new(1u64).send(&mut carrier).err().unwrap());
    assert!(shown.contains("Flush"));
}
