use home_automation::affector::Affector;
use home_automation::cobs::{cobs_decode, cobs_encode};
use home_automation::large_bedroom::Actuator;
use home_automation::codec::{DecodeError, ErrorReport, Msg, SensorMessage};
use home_automation::fanout::{message_for, retain_written, updates_of};
use home_automation::large_bedroom::{self, bed, desk};
use home_automation::subscriber::{decode_buffer_and_return_first, next_pending, SubMessage, SubscribeError};
use home_automation::{Error, Reading};

fn bed(r: bed::Reading) -> Reading {
    Reading::LargeBedroom(large_bedroom::Reading::Bed(r))
}

fn readings_msg(values: Vec<Reading>) -> Msg {
    Msg::Readings(SensorMessage { values })
}

#[test]
fn cobs_round_trip_and_no_zero() {
    let inputs: Vec<Vec<u8>> = vec![
        vec![],
        vec![0],
        vec![0, 0],
        vec![1, 2, 0, 3],
        (1..=254u8).collect(),
        (0..600u32).map(|i| (i % 256) as u8).collect(),
        vec![7u8; 300],
    ];
    for input in inputs {
        let mut out = Vec::new();
        cobs_encode(&input, &mut out);
        assert!(!out.contains(&0));
        let back = cobs_decode(&out, out.len()).expect("well formed");
        assert_eq!(back, input);
    }
}

#[test]
fn cobs_known_encodings() {
    let mut out = Vec::new();
    cobs_encode(&vec![0x11, 0x22, 0x00, 0x33], &mut out);
    assert_eq!(out, vec![0x03, 0x11, 0x22, 0x02, 0x33]);
    let mut out = Vec::new();
    cobs_encode(&vec![], &mut out);
    assert_eq!(out, vec![0x01]);
    let mut out = Vec::new();
    cobs_encode(&vec![0x00], &mut out);
    assert_eq!(out, vec![0x01, 0x01]);
}

#[test]
fn cobs_rejects_bad_input() {
    assert!(cobs_decode(&vec![0x00], 1).is_none());
    assert!(cobs_decode(&vec![0x05, 0x01], 2).is_none());
    assert!(cobs_decode(&vec![0x03, 0x01, 0x00], 3).is_none());
}

#[test]
fn reading_batch_round_trips() {
    let values = vec![
        bed(bed::Reading::Temperature(21.5f32.to_bits())),
        bed(bed::Reading::Co2(612)),
        Reading::LargeBedroom(large_bedroom::Reading::Desk(desk::Reading::Pressure(
            101_325.0f32.to_bits(),
        ))),
    ];
    let bytes = readings_msg(values.clone()).encode();
    assert_eq!(*bytes.last().unwrap(), 0);
    assert!(!bytes[..bytes.len() - 1].contains(&0));
    match Msg::decode(&bytes) {
        Ok(Msg::Readings(m)) => assert_eq!(m.values, values),
        _ => panic!("expected the readings back"),
    }
}

#[test]
fn error_report_round_trips() {
    let error = Error::LargeBedroom(large_bedroom::Error::Bed(bed::Error::Running(
        bed::SensorError::Sht31(b"i2c nack".to_vec()),
    )));
    let bytes = Msg::ErrorReport(ErrorReport::new(error)).encode();
    match Msg::decode(&bytes) {
        Ok(Msg::ErrorReport(r)) => match r.error {
            Error::LargeBedroom(large_bedroom::Error::Bed(bed::Error::Running(
                bed::SensorError::Sht31(m),
            ))) => assert_eq!(m, b"i2c nack".to_vec()),
            other => panic!("wrong error {other:?}"),
        },
        _ => panic!("expected the error back"),
    }

    let timeout = Error::LargeBedroom(large_bedroom::Error::Desk(desk::Error::Timeout(
        desk::Device::Bme280,
    )));
    let bytes = Msg::ErrorReport(ErrorReport::new(timeout)).encode();
    assert!(matches!(
        Msg::decode(&bytes),
        Ok(Msg::ErrorReport(ErrorReport {
            error: Error::LargeBedroom(large_bedroom::Error::Desk(desk::Error::Timeout(
                desk::Device::Bme280
            )))
        }))
    ));
}

#[test]
fn corrupt_frames_are_refused() {
    assert!(matches!(Msg::decode(&vec![0]), Err(DecodeError::CorruptEncoding)));
    assert!(matches!(Msg::decode(&vec![0x02, 0x07, 0x00]), Err(DecodeError::CorruptEncoding)));
    let mut bytes = readings_msg(vec![bed(bed::Reading::Humidity(1))]).encode();
    bytes[1] = 0x09;
    assert!(Msg::decode(&bytes).is_err());
}

#[test]
fn subscriber_decodes_identical_reading() {
    let reading = bed(bed::Reading::Temperature(21.5f32.to_bits()));
    let mut buf = readings_msg(vec![reading]).encode();
    let n_read = buf.len();
    let mut pending = Vec::new();
    match decode_buffer_and_return_first(n_read, &mut buf, &mut pending) {
        Ok(SubMessage::Reading(r)) => {
            assert_eq!(r, reading);
            match r {
                Reading::LargeBedroom(large_bedroom::Reading::Bed(bed::Reading::Temperature(v))) => {
                    assert_eq!(f32::from_bits(v), 21.5)
                }
                _ => panic!("wrong reading"),
            }
        }
        _ => panic!("expected a reading"),
    }
    assert!(pending.is_empty());
}

#[test]
fn subscriber_keeps_rest_of_batch_in_order() {
    let a = bed(bed::Reading::WeightLeft(1));
    let b = bed(bed::Reading::WeightLeft(2));
    let c = bed(bed::Reading::WeightLeft(3));
    let mut buf = readings_msg(vec![a, b, c]).encode();
    let n_read = buf.len();
    let mut pending = Vec::new();
    assert!(matches!(
        decode_buffer_and_return_first(n_read, &mut buf, &mut pending),
        Ok(SubMessage::Reading(r)) if r == a
    ));
    assert!(matches!(next_pending(&mut pending), Some(SubMessage::Reading(r)) if r == b));
    assert!(matches!(next_pending(&mut pending), Some(SubMessage::Reading(r)) if r == c));
    assert!(next_pending(&mut pending).is_none());
}

#[test]
fn subscriber_reports_end_and_corruption() {
    let mut buf = Vec::new();
    let mut pending = Vec::new();
    assert!(matches!(
        decode_buffer_and_return_first(0, &mut buf, &mut pending),
        Err(SubscribeError::ConnEnded)
    ));
    let mut buf = vec![0x03, 0x05, 0x00];
    assert!(matches!(
        decode_buffer_and_return_first(3, &mut buf, &mut pending),
        Err(SubscribeError::DecodeFailed(DecodeError::CorruptEncoding))
    ));
    let mut buf = readings_msg(vec![]).encode();
    let n = buf.len();
    assert!(matches!(
        decode_buffer_and_return_first(n, &mut buf, &mut pending),
        Err(SubscribeError::DecodeFailed(DecodeError::CorruptEncoding))
    ));
}

#[test]
fn batch_holds_at_most_fifty() {
    let mut batch = SensorMessage::new();
    for i in 0..50 {
        assert!(batch.push(bed(bed::Reading::WeightRight(i))).is_ok());
    }
    assert!(batch.push(bed(bed::Reading::WeightRight(99))).is_err());
    let bytes = Msg::Readings(batch).encode();
    match Msg::decode(&bytes) {
        Ok(Msg::Readings(m)) => assert_eq!(m.values.len(), 50),
        _ => panic!("full batch must decode"),
    }
}

#[test]
fn producer_message_becomes_updates_in_order() {
    let a = bed(bed::Reading::Brightness(5));
    let b = bed(bed::Reading::Pressure(6));
    let updates = updates_of(readings_msg(vec![a, b]));
    assert_eq!(updates.len(), 2);
    assert!(matches!(updates[0], Ok(r) if r == a));
    assert!(matches!(updates[1], Ok(r) if r == b));

    let msg = message_for(Ok(a));
    match msg {
        Msg::Readings(m) => assert_eq!(m.values, vec![a]),
        _ => panic!("one reading batch"),
    }
}

#[test]
fn failing_subscribers_are_dropped_in_order() {
    let mut subs = vec!["a", "b", "c", "d"];
    retain_written(&mut subs, &vec![true, false, true, false]);
    assert_eq!(subs, vec!["a", "c"]);
    let mut subs = vec![1, 2];
    retain_written(&mut subs, &vec![true, true]);
    assert_eq!(subs, vec![1, 2]);
}

#[test]
fn actuator_frames_round_trip() {
    for a in [Actuator::CleanSensor, Actuator::CalibrateCo2] {
        let bytes = a.encode();
        assert_eq!(*bytes.last().unwrap(), 0);
        assert!(matches!(
            (a, Actuator::decode(&bytes)),
            (Actuator::CleanSensor, Ok(Actuator::CleanSensor))
                | (Actuator::CalibrateCo2, Ok(Actuator::CalibrateCo2))
        ));
    }
    assert_eq!(Actuator::CalibrateCo2.encode(), vec![0x02, 0x01, 0x00]);
    assert!(Actuator::decode(&vec![0x02, 0x07, 0x00]).is_err());
}

#[test]
fn affector_frames_round_trip() {
    let orders = [
        Affector::Sps30FanClean,
        Affector::Mhz14Calibrate,
        Affector::Nau7802LeftCalibrate { known_weight_g: 0 },
        Affector::Nau7802RightCalibrate { known_weight_g: 70_000 },
    ];
    for a in orders {
        let bytes = a.encode();
        assert!(!bytes[..bytes.len() - 1].contains(&0));
        assert_eq!(Affector::decode(&bytes), Ok(a));
    }
    assert_eq!(
        Affector::Nau7802LeftCalibrate { known_weight_g: 0x0102 }.encode(),
        vec![0x04, 0x02, 0x02, 0x01, 0x01, 0x01, 0x00]
    );
    assert_eq!(Affector::decode(&vec![0x02, 0x09, 0x01, 0x01, 0x01, 0x01, 0x00]), Err(DecodeError::CorruptEncoding));
}

#[test]
fn longest_error_message_round_trips() {
    let message = vec![b'x'; 200];
    let error = Error::LargeBedroom(large_bedroom::Error::Bed(bed::Error::Setup(
        bed::SensorError::Sps30(message.clone()),
    )));
    assert!(error.within_bounds());
    let bytes = Msg::ErrorReport(ErrorReport::new(error)).encode();
    match Msg::decode(&bytes) {
        Ok(Msg::ErrorReport(r)) => match r.error {
            Error::LargeBedroom(large_bedroom::Error::Bed(bed::Error::Setup(
                bed::SensorError::Sps30(m),
            ))) => assert_eq!(m, message),
            other => panic!("wrong error {other:?}"),
        },
        _ => panic!("expected the error back"),
    }

    let too_long = Error::LargeBedroom(large_bedroom::Error::Bed(bed::Error::Running(
        bed::SensorError::Sps30(vec![b'x'; 201]),
    )));
    assert!(!too_long.within_bounds());
}
