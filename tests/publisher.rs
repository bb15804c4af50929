use home_automation::codec::Msg;
use home_automation::large_bedroom::{self, bed};
use home_automation::publisher::Queues;
use home_automation::{Error, Reading};

fn weight(v: u32) -> Reading {
    Reading::LargeBedroom(large_bedroom::Reading::Bed(bed::Reading::WeightLeft(v)))
}

fn timeout(d: bed::Device) -> Error {
    Error::LargeBedroom(large_bedroom::Error::Bed(bed::Error::Timeout(d)))
}

fn batch(msg: Option<Msg>) -> Vec<Reading> {
    match msg {
        Some(Msg::Readings(m)) => m.values,
        _ => panic!("expected a batch of readings"),
    }
}

#[test]
fn full_reading_queue_drops_oldest() {
    let mut q = Queues::new(3, 2);
    for v in 0..5 {
        q.send_p0(weight(v));
    }
    assert_eq!(batch(q.next_msg()), vec![weight(2), weight(3), weight(4)]);
    assert!(q.next_msg().is_none());
}

#[test]
fn errors_go_first_and_repeats_coalesce() {
    let mut q = Queues::new(10, 4);
    q.send_p0(weight(1));
    q.queue_error(timeout(bed::Device::Sht31));
    q.queue_error(timeout(bed::Device::Sht31));
    q.queue_error(timeout(bed::Device::Sps30));
    match q.next_msg() {
        Some(Msg::ErrorReport(r)) => assert_eq!(r.error.device(), timeout(bed::Device::Sht31).device()),
        _ => panic!("error first"),
    }
    match q.next_msg() {
        Some(Msg::ErrorReport(r)) => assert_eq!(r.error.device(), timeout(bed::Device::Sps30).device()),
        _ => panic!("second error next"),
    }
    assert_eq!(batch(q.next_msg()), vec![weight(1)]);
    assert!(q.next_msg().is_none());
}

#[test]
fn full_error_queue_drops_oldest() {
    let mut q = Queues::new(1, 1);
    q.queue_error(timeout(bed::Device::Sht31));
    q.queue_error(timeout(bed::Device::Max44));
    match q.next_msg() {
        Some(Msg::ErrorReport(r)) => assert_eq!(r.error.device(), timeout(bed::Device::Max44).device()),
        _ => panic!("the newest error stays"),
    }
    assert!(q.next_msg().is_none());
}

#[test]
fn readings_leave_in_batches_of_fifty() {
    let mut q = Queues::new(120, 1);
    for v in 0..120 {
        q.send_p0(weight(v));
    }
    let first = batch(q.next_msg());
    assert_eq!(first.len(), 50);
    assert_eq!(first[0], weight(0));
    assert_eq!(batch(q.next_msg()).len(), 50);
    let last = batch(q.next_msg());
    assert_eq!(last.len(), 20);
    assert_eq!(last[19], weight(119));
}

#[test]
fn different_messages_are_different_errors() {
    let a = Error::LargeBedroom(large_bedroom::Error::Bed(bed::Error::Running(
        bed::SensorError::Sht31(b"a".to_vec()),
    )));
    let b = Error::LargeBedroom(large_bedroom::Error::Bed(bed::Error::Running(
        bed::SensorError::Sht31(b"b".to_vec()),
    )));
    assert!(!a.is_same_as(&b));
    assert!(a.is_same_as(&a.clone()));
}
