use bottle_time_processor::add;
use bottle_time_processor::models::{timestamp_millis, DecodeError, KasaPowerMessage, PowerReading};
use bottle_time_processor::options::{LogLevel, Options};

fn batch(num: usize, timestamps: Vec<i64>) -> KasaPowerMessage {
    KasaPowerMessage {
        alias: "plug".to_string(),
        device_id: "dev-1".to_string(),
        power_total: 1010050,
        voltages_mv: vec![1000, 1010],
        currents_ma: vec![500, 505],
        powers_mw: vec![500000, 510050],
        timestamps,
        num_readings: num,
    }
}

#[test]
fn batch_of_two_in_seconds() {
    let readings = batch(2, vec![1700000000, 1700000001]).into_readings().unwrap();
    assert_eq!(readings.len(), 2);
    assert_eq!(readings[0].device_name, "plug");
    assert_eq!(readings[0].device_id, "dev-1");
    assert_eq!(readings[0].voltage_mv, 1000);
    assert_eq!(readings[0].current_ma, 500);
    assert_eq!(readings[0].power_mw, 500000);
    assert_eq!(readings[0].timestamp_ms, 1700000000000);
    assert_eq!(readings[1].voltage_mv, 1010);
    assert_eq!(readings[1].current_ma, 505);
    assert_eq!(readings[1].power_mw, 510050);
    assert_eq!(readings[1].timestamp_ms, 1700000001000);
}

#[test]
fn milliseconds_and_seconds_agree() {
    assert_eq!(timestamp_millis(1700000000000), Some(1700000000000));
    assert_eq!(timestamp_millis(1700000000), timestamp_millis(1700000000000));
    assert_eq!(timestamp_millis(3999999999), Some(3999999999000));
    assert_eq!(timestamp_millis(4000000000), Some(4000000000));
    assert_eq!(timestamp_millis(0), Some(0));
    assert_eq!(timestamp_millis(-5), Some(-5000));
}

#[test]
fn timestamps_out_of_range() {
    assert_eq!(timestamp_millis(i64::MAX), Some(i64::MAX));
    assert_eq!(timestamp_millis(i64::MIN), None);
    assert_eq!(timestamp_millis(-9223372036854775), Some(-9223372036854775000));
    assert_eq!(timestamp_millis(-9223372036854776), None);
    assert_eq!(timestamp_millis(-10000000000), Some(-10000000000000));
    match batch(2, vec![1700000000, i64::MIN]).into_readings() {
        Err(DecodeError::TimestampOutOfRange { index, value }) => {
            assert_eq!(index, 1);
            assert_eq!(value, i64::MIN);
        }
        other => panic!("unexpected {:?}", other),
    }
}

#[test]
fn distant_instants_still_decode() {
    let readings = batch(2, vec![-10000000000, i64::MAX]).into_readings().unwrap();
    assert_eq!(readings.len(), 2);
    assert_eq!(readings[0].timestamp_ms, -10000000000000);
    assert_eq!(readings[1].timestamp_ms, i64::MAX);
    // The sink's nanosecond count does not reach these instants.
    assert_eq!(readings[0].timestamp_nanos(), None);
    assert_eq!(readings[1].timestamp_nanos(), None);
}

#[test]
fn short_arrays_are_rejected() {
    match batch(3, vec![1, 2, 3]).into_readings() {
        Err(DecodeError::MissingSamples { num_readings }) => assert_eq!(num_readings, 3),
        other => panic!("unexpected {:?}", other),
    }
    assert!(batch(0, vec![]).into_readings().unwrap().is_empty());
    assert_eq!(batch(1, vec![1700000000]).into_readings().unwrap().len(), 1);
}

#[test]
fn reading_nanoseconds() {
    let r = PowerReading {
        device_name: "p".to_string(),
        device_id: "d".to_string(),
        voltage_mv: 1,
        current_ma: 2,
        power_mw: 3,
        timestamp_ms: 1700000000000,
    };
    assert_eq!(r.timestamp_nanos(), Some(1700000000000000000));
    let far = PowerReading { timestamp_ms: 9223372036855, ..r.clone() };
    assert_eq!(far.timestamp_nanos(), None);
}

#[test]
fn add_and_log_levels() {
    assert_eq!(add(2, 3), 5);
    let mut o = Options {
        verbose: 0,
        broker: "localhost".to_string(),
        port: 1883,
        username: "u".to_string(),
        password: "p".to_string(),
        topic: "t".to_string(),
    };
    assert_eq!(o.log_level(), LogLevel::Info);
    o.verbose = 1;
    assert_eq!(o.log_level(), LogLevel::Debug);
    o.verbose = 5;
    assert_eq!(o.log_level(), LogLevel::Trace);
}
