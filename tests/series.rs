use std::path::PathBuf;

use home_automation::bitspec::{read_bits, Field, LengthWithOps, RangeWithRes};
use home_automation::large_bedroom::{self, bed, desk};
use home_automation::series::{
    base_path, decode_line, deinterleave, millis_to_minimal_representation, to_speclist,
    try_create_new_if_open_failed, Header, NotOpen, OpenAction, OpenOutcome, Series, SeriesError,
    SeriesTable,
};
use home_automation::{DeviceInfo, Reading};

fn bed(r: bed::Reading) -> Reading {
    Reading::LargeBedroom(large_bedroom::Reading::Bed(r))
}

#[test]
fn millis_to_minimal_representation_factor_makes_sense() {
    let info = DeviceInfo {
        name: "test",
        affects_readings: vec![],
        min_sample_interval_ms: 5000,
        max_sample_interval_ms: 5000,
        temporal_resolution_ms: 1000,
    };
    let factor = millis_to_minimal_representation(info);
    assert_eq!(5000 / factor, 5);

    let info = DeviceInfo {
        name: "test",
        affects_readings: vec![],
        min_sample_interval_ms: 5000,
        max_sample_interval_ms: 5000,
        temporal_resolution_ms: 1,
    };
    let factor = millis_to_minimal_representation(info);
    assert_eq!(5005 / factor, 5005)
}

#[test]
fn scale_factor_is_thousand_for_one_second_resolution() {
    let info = DeviceInfo {
        name: "test",
        affects_readings: vec![],
        min_sample_interval_ms: 5000,
        max_sample_interval_ms: 5000,
        temporal_resolution_ms: 1000,
    };
    assert_eq!(millis_to_minimal_representation(info), 1000);
}

#[test]
fn readings_from_same_device_have_same_path() {
    let reading_a = bed(bed::Reading::Temperature(0.0f32.to_bits()));
    let reading_b = bed(bed::Reading::Humidity(0.0f32.to_bits()));

    assert_eq!(
        PathBuf::from(base_path(&reading_a)),
        PathBuf::from(base_path(&reading_b))
    );
}

#[test]
fn reading_path_different_between_locations() {
    let reading_a = bed(bed::Reading::Humidity(0.0f32.to_bits()));
    let reading_b =
        Reading::LargeBedroom(large_bedroom::Reading::Desk(desk::Reading::Humidity(0.0f32.to_bits())));

    assert_ne!(
        PathBuf::from(base_path(&reading_a)),
        PathBuf::from(base_path(&reading_b))
    );
}

#[test]
fn reading_path_is_expected() {
    let reading = bed(bed::Reading::Humidity(0.0f32.to_bits()));
    assert_eq!(
        PathBuf::from(base_path(&reading)),
        PathBuf::from("largebedroom/bed/sht31")
    );
}

#[test]
fn paths_of_other_devices() {
    assert_eq!(base_path(&bed(bed::Reading::WeightRight(3))), "largebedroom/bed/nau7802right");
    assert_eq!(base_path(&bed(bed::Reading::Co2(400))), "largebedroom/bed/mhz14");
    assert_eq!(
        base_path(&Reading::LargeBedroom(large_bedroom::Reading::Desk(desk::Reading::Pressure(1)))),
        "largebedroom/desk/bme280"
    );
}

#[test]
fn bit_width_covers_the_range() {
    // -20.000 ..= 60.000 in steps of 0.010: 8000 steps need 13 bits
    let spec = LengthWithOps::from_range(RangeWithRes { lo: -20_000, hi: 60_000, resolution: 10 });
    assert_eq!(spec.length, 13);
    let spec = LengthWithOps::from_range(RangeWithRes { lo: 0, hi: 0, resolution: 10 });
    assert_eq!(spec.length, 0);
    let spec = LengthWithOps::from_range(RangeWithRes { lo: 0, hi: 255, resolution: 1 });
    assert_eq!(spec.length, 8);
    let spec = LengthWithOps::from_range(RangeWithRes { lo: 0, hi: 256, resolution: 1 });
    assert_eq!(spec.length, 9);
}

#[test]
fn speclist_of_sht31() {
    let readings = vec![
        bed(bed::Reading::Temperature(0)),
        bed(bed::Reading::Humidity(0)),
    ];
    let specs = to_speclist(&readings);
    assert_eq!(specs.len(), 2);
    assert_eq!(specs[0].length, 13);
    assert_eq!(specs[1].length, 14);
    assert_eq!(specs[0].lo, -20_000);
}

#[test]
fn field_packs_msb_first() {
    let f = Field { offset: 4, length: 8, lo: 0, hi: 255, resolution: 1 };
    let mut line = vec![0u8; 2];
    f.encode(0xAB, &mut line);
    assert_eq!(line, vec![0x0A, 0xB0]);
    assert_eq!(f.decode(&line), 0xAB);
    assert_eq!(read_bits(&line, 4, 8), 0xAB);
}

#[test]
fn field_clamps_and_rounds() {
    let f = Field { offset: 0, length: 4, lo: 100, hi: 200, resolution: 10 };
    let mut line = vec![0u8; 1];
    f.encode(50, &mut line);
    assert_eq!(f.decode(&line), 100);
    f.encode(1000, &mut line);
    assert_eq!(f.decode(&line), 200);
    f.encode(134, &mut line);
    assert_eq!(f.decode(&line), 130);
    f.encode(135, &mut line);
    assert_eq!(f.decode(&line), 140);
}

#[test]
fn append_emits_one_line_when_all_slots_fresh() {
    let temp = bed(bed::Reading::Temperature(21.5f32.to_bits()));
    let hum = bed(bed::Reading::Humidity(45.2f32.to_bits()));
    let mut series = Series::new(&temp);
    assert_eq!(series.payload_size(), 4);

    assert!(series.append(&temp, 21_500, 10_000).is_none());
    let line = series.append(&hum, 45_200, 10_100).expect("all slots set within 500 ms");
    assert_eq!(line.time, 10_100 / 1000);
    assert!(series.line.iter().all(|b| *b == 0));
    // the humidity slot is stale once 500 ms have passed
    assert!(series.append(&temp, 21_600, 10_600).is_none());

    let fields = series.fields_for(&vec![temp, hum]);
    let values = decode_line(&fields, &line.payload);
    assert!((values[0] - 21_500).abs() <= 10);
    assert!((values[1] - 45_200).abs() <= 10);
}

#[test]
fn append_holds_partial_line() {
    let temp = bed(bed::Reading::Temperature(0));
    let hum = bed(bed::Reading::Humidity(0));
    let mut series = Series::new(&temp);
    assert!(series.append(&temp, 20_000, 0).is_none());
    assert!(series.append(&temp, 20_000, 1_000).is_none());
    // the temperature slot is 600 ms old by now
    assert!(series.append(&hum, 50_000, 1_600).is_none());
    assert!(series.append(&temp, 20_000, 1_700).is_some());
}

#[test]
fn open_decisions() {
    let temp = bed(bed::Reading::Temperature(0));
    let series = Series::new(&temp);
    let expected = series.expected_header();

    let same = series.expected_header();
    assert_eq!(
        try_create_new_if_open_failed(&OpenOutcome::Opened(same), &expected),
        Ok(OpenAction::UseExisting)
    );
    assert_eq!(
        try_create_new_if_open_failed(&OpenOutcome::NotFound, &expected),
        Ok(OpenAction::CreateNew)
    );
    assert_eq!(
        try_create_new_if_open_failed(&OpenOutcome::Failed, &expected),
        Err(SeriesError::OpenFailed)
    );

    let mut changed = series.expected_header();
    changed.readings.pop();
    let res = try_create_new_if_open_failed(&OpenOutcome::Opened(changed), &expected);
    assert_eq!(res, Err(SeriesError::HeaderMismatch));
    assert_eq!(res.unwrap_err().message(), "header in file does not match readings");

    let mut other_field = series.expected_header();
    other_field.encoding[0].length += 1;
    let header = Header { readings: other_field.readings, encoding: other_field.encoding };
    assert_eq!(
        try_create_new_if_open_failed(&OpenOutcome::Opened(header), &expected),
        Err(SeriesError::HeaderMismatch)
    );
}

#[test]
fn deinterleave_splits_columns() {
    let rows = vec![vec![1, 2], vec![3, 4], vec![5, 6]];
    assert_eq!(deinterleave(&rows, 2), vec![vec![1, 3, 5], vec![2, 4, 6]]);
}

#[test]
fn time_scaling_round_trip() {
    let series = Series::new(&bed(bed::Reading::Temperature(0)));
    let stored = series.scale_time(1_700_000_123_456);
    assert_eq!(stored, 1_700_000_123);
    assert_eq!(series.unscale_time(stored), Some(1_700_000_123_000));
    assert_eq!(series.unscale_time(u64::MAX), None);
}

#[test]
fn read_returns_one_column_per_requested_reading() {
    let temp = bed(bed::Reading::Temperature(0));
    let hum = bed(bed::Reading::Humidity(0));
    let mut series = Series::new(&temp);
    assert!(series.append(&temp, 21_500, 50_000).is_none());
    let a = series.append(&hum, 45_200, 50_100).unwrap();
    assert!(series.append(&temp, 22_000, 60_000).is_none());
    let b = series.append(&hum, 46_000, 60_050).unwrap();

    let (times, columns) = series
        .read(&vec![hum, temp], &vec![a.time, b.time], &vec![a.payload, b.payload])
        .unwrap();
    assert_eq!(times, vec![50_000, 60_000]);
    assert_eq!(columns.len(), 2);
    assert_eq!(columns[0], vec![45_200, 46_000]);
    assert_eq!(columns[1], vec![21_500, 22_000]);
    assert!(series.read(&vec![temp], &vec![u64::MAX], &vec![]).is_none());
}

#[test]
fn value_above_range_is_stored_as_upper_limit() {
    let temp = bed(bed::Reading::Temperature(0));
    let hum = bed(bed::Reading::Humidity(0));
    let mut series = Series::new(&temp);
    assert!(series.append(&temp, 70_000, 0).is_none());
    let line = series.append(&hum, -5_000, 10).unwrap();
    let values = decode_line(&series.fields_for(&vec![temp, hum]), &line.payload);
    assert_eq!(values, vec![60_000, 0]);
}

#[test]
fn series_table_opens_once_per_device() {
    let temp = bed(bed::Reading::Temperature(0));
    let hum = bed(bed::Reading::Humidity(0));
    let co2 = bed(bed::Reading::Co2(0));
    let mut table = SeriesTable::new();
    assert_eq!(table.store(&temp, 20_000, 0).err(), Some(NotOpen));
    assert!(table.insert(Series::new(&temp)));
    assert!(!table.insert(Series::new(&hum)));
    assert!(table.store(&hum, 40_000, 0).unwrap().is_none());
    assert!(table.store(&temp, 20_000, 100).unwrap().is_some());
    assert_eq!(table.store(&co2, 400_000, 100).err(), Some(NotOpen));
    assert_eq!(table.index_of(co2.device()), None);
    assert_eq!(table.index_of(hum.device()), Some(0));
}

#[test]
fn slots_written_in_any_order_give_one_line() {
    let temp = bed(bed::Reading::Temperature(0));
    let hum = bed(bed::Reading::Humidity(0));
    let mut series = Series::new(&temp);
    assert!(series.append(&hum, 40_000, 1_000).is_none());
    assert!(series.append(&temp, 20_000, 1_499).is_some());
}
