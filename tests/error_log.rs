use home_automation::error_log::ErrorLog;
use home_automation::large_bedroom::{self, bed};
use home_automation::Error;

fn timeout(d: bed::Device) -> Error {
    Error::LargeBedroom(large_bedroom::Error::Bed(bed::Error::Timeout(d)))
}

#[test]
fn repeated_error_extends_last_event() {
    let mut log = ErrorLog::new_empty();
    log.add(timeout(bed::Device::Sht31), 1_000);
    log.add(timeout(bed::Device::Sht31), 2_000);
    log.add(timeout(bed::Device::Sht31), 3_000);
    let last = log.last().unwrap();
    assert_eq!(last.start, 1_000);
    assert_eq!(last.end, Some(3_000));
    assert_eq!(log.count_since(0), 1);
}

#[test]
fn other_error_starts_new_event() {
    let mut log = ErrorLog::new_empty();
    assert!(log.last().is_none());
    log.add(timeout(bed::Device::Sht31), 1_000);
    log.add(timeout(bed::Device::Max44), 2_000);
    log.add(timeout(bed::Device::Sht31), 4_000);
    assert_eq!(log.count_since(0), 3);
    assert_eq!(log.count_since(2_000), 2);
    assert_eq!(log.count_since(5_000), 0);
    let last = log.last().unwrap();
    assert_eq!(last.start, 4_000);
    assert_eq!(last.end, None);
}
