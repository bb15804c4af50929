use home_automation::large_bedroom::{self, bed, desk};
use home_automation::{Device, Error, Reading};

fn bed(r: bed::Reading) -> Reading {
    Reading::LargeBedroom(large_bedroom::Reading::Bed(r))
}

#[test]
fn key_is_path_padded_with_zeros() {
    assert_eq!(bed(bed::Reading::Humidity(7)).key(), [0, 0, 2, 0, 0, 0]);
    let desk_hum = Reading::LargeBedroom(large_bedroom::Reading::Desk(desk::Reading::Humidity(7)));
    assert_eq!(desk_hum.key(), [0, 1, 1, 0, 0, 0]);
}

#[test]
fn key_identifies_leaf_not_value() {
    let a = bed(bed::Reading::Temperature(1));
    let b = bed(bed::Reading::Temperature(2));
    let c = bed(bed::Reading::Humidity(1));
    assert_eq!(a.key(), b.key());
    assert!(a.is_same_as(&b));
    assert_ne!(a.key(), c.key());
    assert!(!a.is_same_as(&c));
}

#[test]
fn device_info_lists_its_readings() {
    let device = bed(bed::Reading::Humidity(0)).device();
    let info = device.info();
    assert_eq!(info.name, "Sht31");
    assert_eq!(
        info.affects_readings,
        vec![bed(bed::Reading::Temperature(0)), bed(bed::Reading::Humidity(0))]
    );
    assert_eq!(info.temporal_resolution_ms, 1000);
    let sps = Device::LargeBedroom(large_bedroom::Device::Bed(bed::Device::Sps30));
    assert_eq!(sps.info().affects_readings.len(), 10);
}

#[test]
fn error_breaks_readings_of_its_device() {
    let error = Error::LargeBedroom(large_bedroom::Error::Bed(bed::Error::Timeout(
        bed::Device::Bme680,
    )));
    assert_eq!(
        error.broken_readings(),
        vec![bed(bed::Reading::GassResistance(0)), bed(bed::Reading::Pressure(0))]
    );
    let setup = bed::Error::Setup(bed::SensorError::Max44(b"no ack".to_vec()));
    assert_eq!(setup.affected_readings(), vec![bed::Reading::Brightness(0)]);
    assert_eq!(setup.device(), bed::Device::Max44);
}

#[test]
fn parts_rebuild_readings() {
    assert_eq!(bed::Reading::from_parts(5, 70_000), None);
    assert_eq!(bed::Reading::from_parts(5, 400), Some(bed::Reading::Co2(400)));
    assert_eq!(bed::Reading::from_parts(18, 0), None);
    assert_eq!(
        Reading::from_parts(0, 1, 2, 9),
        Some(Reading::LargeBedroom(large_bedroom::Reading::Desk(desk::Reading::Pressure(9))))
    );
}

#[test]
fn node_and_leaf_names() {
    let r = bed(bed::Reading::GassResistance(0));
    assert_eq!(r.name(), "LargeBedroom");
    assert_eq!(r.leaf_name(), "GassResistance");
    let Reading::LargeBedroom(inner) = r;
    assert_eq!(inner.name(), "Bed");
    let d = Reading::LargeBedroom(large_bedroom::Reading::Desk(desk::Reading::Humidity(0)));
    assert_eq!(d.leaf_name(), "Humidity");
    assert_eq!(bed::Reading::MassPm0_5(0).name(), "MassPm0_5");
}
