//! Reading the spacecraft clock out of a packet.

use xtce_gs::config::{TimeFormat, TimeSource};
use xtce_gs::decoded::{DecodedPacket, DecodedValue};
use xtce_gs::error::EngineError;
use xtce_gs::float::Float64;
use xtce_gs::ids::{ContainerId, ParamId};
use xtce_gs::sctime::{
    be_unsigned, cds_from_bytes, cuc_from_bytes, cuc_from_unsigned, from_values, seconds_from_f64,
    SpacecraftClock,
};
use xtce_gs::time::Utc;
use xtce_gs::value::{EngValue, RawValue};

fn double(value: f64) -> Float64 {
    Float64::from_bits(value.to_bits())
}

/// A CUC that is all zeroes is the epoch itself, whatever the widths.
#[test]
fn a_cuc_of_zero_is_the_ccsds_epoch_and_that_epoch_is_1958() {
    let time = cuc_from_bytes(&[0, 0, 0, 0, 0, 0], 4, 2, Utc::ccsds_epoch()).unwrap();
    assert_eq!(time.to_string(), "1958-01-01T00:00:00.000Z");
}

#[test]
fn a_cuc_with_zero_fine_bytes_is_whole_seconds() {
    // 4 383 days from 1958-01-01 to 1970-01-01, and 86 400 s in each: 378 691 200 s,
    // which is 0x1692_5E80.
    let time = cuc_from_bytes(&[0x16, 0x92, 0x5E, 0x80], 4, 0, Utc::ccsds_epoch()).unwrap();
    assert_eq!(time, Utc::epoch());
    assert_eq!(time.to_string(), "1970-01-01T00:00:00.000Z");
}

#[test]
fn the_fine_field_is_a_binary_fraction_not_a_decimal_one() {
    // One coarse second and a fine octet of 0x80: 128/256 s, which is exactly half.
    let time = cuc_from_bytes(&[0, 0, 0, 1, 0x80], 4, 1, Utc::epoch()).unwrap();
    assert_eq!(time.unix_nanos(), 1_500_000_000);
}

#[test]
fn a_three_octet_fraction_truncates_toward_the_second_it_is_in() {
    // 0xFFFFFF / 2^24 s = 16 777 215 * 1e9 >> 24 ns = 999 999 940 ns, floored.
    let time = cuc_from_bytes(&[0, 0xFF, 0xFF, 0xFF], 1, 3, Utc::epoch()).unwrap();
    assert_eq!(time.unix_nanos(), 999_999_940);
}

#[test]
fn a_cuc_as_one_integer_splits_where_the_octets_would_have() {
    let bytes = [0x00, 0x00, 0x00, 0x2A, 0x40, 0x00];
    let from_bytes = cuc_from_bytes(&bytes, 4, 2, Utc::epoch()).unwrap();
    // The same 48 bits: 42 seconds and 0x4000/65536 = a quarter.
    let from_integer = cuc_from_unsigned(0x0000_002A_4000, 4, 2, Utc::epoch()).unwrap();
    assert_eq!(from_bytes, from_integer);
    assert_eq!(from_bytes.unix_nanos(), 42_250_000_000);
}

#[test]
fn a_truncated_cuc_is_not_a_time() {
    // Five octets where the layout says six.
    assert_eq!(cuc_from_bytes(&[0, 0, 0, 1, 0x80], 4, 2, Utc::epoch()), None);
    assert_eq!(cuc_from_bytes(&[], 1, 0, Utc::epoch()), None);
}

#[test]
fn a_cuc_wider_than_the_accumulator_or_with_no_seconds_is_refused() {
    let wide = [0u8; 16];
    assert_eq!(cuc_from_bytes(&wide, 8, 3, Utc::epoch()), None);
    assert_eq!(cuc_from_bytes(&wide, 0, 4, Utc::epoch()), None);
    assert_eq!(cuc_from_unsigned(u64::MAX, 8, 1, Utc::epoch()), None);
    assert_eq!(cuc_from_unsigned(0, 0, 4, Utc::epoch()), None);
}

#[test]
fn a_cuc_field_may_be_followed_by_the_rest_of_the_parameter() {
    let time = cuc_from_bytes(&[0, 0, 0, 1, 0xDE, 0xAD], 4, 0, Utc::epoch()).unwrap();
    assert_eq!(time.unix_nanos(), 1_000_000_000);
}

#[test]
fn a_cds_day_and_millisecond_of_day_make_the_instant() {
    // 4 383 days from the CCSDS epoch is 1970-01-01; 3 600 000 ms of day is 01:00.
    let bytes = [0x11, 0x1F, 0x00, 0x36, 0xEE, 0x80];
    let time = cds_from_bytes(&bytes, 2, 0, Utc::ccsds_epoch()).unwrap();
    assert_eq!(time.to_string(), "1970-01-01T01:00:00.000Z");
    assert_eq!(time.unix_nanos(), 3_600 * 1_000_000_000);
}

#[test]
fn microseconds_and_picoseconds_are_a_factor_of_a_million_apart() {
    // 123 microseconds within the millisecond, in the two-octet field.
    let micros = [0, 0, 0, 0, 0, 0, 0x00, 0x7B];
    // The same 123 microseconds as picoseconds: 123 000 000 of them, 0x0754_D4C0.
    let picos = [0, 0, 0, 0, 0, 0, 0x07, 0x54, 0xD4, 0xC0];
    let from_micros = cds_from_bytes(&micros, 2, 2, Utc::epoch()).unwrap();
    let from_picos = cds_from_bytes(&picos, 2, 4, Utc::epoch()).unwrap();
    assert_eq!(from_micros.unix_nanos(), 123_000);
    assert_eq!(from_micros, from_picos);
}

#[test]
fn a_submillisecond_width_of_three_is_not_a_cds_field() {
    let bytes = [0u8; 16];
    assert_eq!(cds_from_bytes(&bytes, 2, 3, Utc::epoch()), None);
    assert_eq!(cds_from_bytes(&bytes, 2, 1, Utc::epoch()), None);
    // And a day segment of nothing is not one either.
    assert_eq!(cds_from_bytes(&bytes, 0, 0, Utc::epoch()), None);
}

#[test]
fn a_truncated_cds_is_not_a_time() {
    // Two day octets and four of milliseconds is six; five is one short.
    assert_eq!(cds_from_bytes(&[0, 0, 0, 0, 0], 2, 0, Utc::epoch()), None);
    // And the submillisecond field counts toward the width.
    assert_eq!(cds_from_bytes(&[0; 6], 2, 2, Utc::epoch()), None);
}

#[test]
fn the_leap_second_is_inside_the_day_and_the_second_after_it_is_not() {
    // 86 400 000 ms: the leap second CCSDS 301.0-B-4 section 3.3.3 allows.
    let leap = [0, 0, 0x05, 0x26, 0x5C, 0x00];
    assert_eq!(be_unsigned(&leap[2..]), 86_400_000);
    assert!(cds_from_bytes(&leap, 2, 0, Utc::epoch()).is_some());
    // 86 401 000 ms is a day and a second, which no day holds.
    let beyond = [0, 0, 0x05, 0x26, 0x5F, 0xE8];
    assert_eq!(be_unsigned(&beyond[2..]), 86_401_000);
    assert_eq!(cds_from_bytes(&beyond, 2, 0, Utc::epoch()), None);
}

#[test]
fn an_instant_outside_the_range_utc_names_is_none_not_a_saturated_stamp() {
    // A three-octet day count of 0xFFFFFF is 16.7 million days: the year 47 000.
    let far = [0xFF, 0xFF, 0xFF, 0, 0, 0, 0];
    assert_eq!(cds_from_bytes(&far, 3, 0, Utc::ccsds_epoch()), None);
    // Not the saturated instant `Utc::offset_nanos` would have produced.
    assert_ne!(
        cds_from_bytes(&far, 3, 0, Utc::ccsds_epoch()),
        Some(Utc::from_unix_nanos(i64::MAX))
    );
}

#[test]
fn seconds_carry_their_fraction_into_nanoseconds() {
    let time = seconds_from_f64(double(1.5), Utc::epoch()).unwrap();
    assert_eq!(time.unix_nanos(), 1_500_000_000);
    // And a negative count runs back from the epoch.
    let time = seconds_from_f64(double(-0.25), Utc::epoch()).unwrap();
    assert_eq!(time.unix_nanos(), -250_000_000);
}

#[test]
fn seconds_that_are_not_a_number_or_not_in_range_are_none() {
    assert_eq!(seconds_from_f64(double(f64::NAN), Utc::epoch()), None);
    assert_eq!(seconds_from_f64(double(f64::INFINITY), Utc::epoch()), None);
    assert_eq!(seconds_from_f64(double(f64::NEG_INFINITY), Utc::epoch()), None);
    assert_eq!(seconds_from_f64(double(1e30), Utc::epoch()), None);
    // In range as nanoseconds, out of range once the epoch is added.
    assert_eq!(
        seconds_from_f64(double(9.0e9), Utc::from_unix_nanos(i64::MAX)),
        None
    );
}

#[test]
fn a_cuc_reads_the_raw_value_and_seconds_read_the_engineering_one() {
    let cuc = TimeFormat::Cuc {
        coarse_bytes: 4,
        fine_bytes: 0,
        epoch: Utc::epoch(),
    };
    let raw = RawValue::Bytes(vec![0, 0, 0, 7]);
    // The engineering value is a calibrated nonsense number and must be ignored.
    let eng = EngValue::Float(double(-273.15));
    assert_eq!(
        from_values(cuc, &raw, &eng).map(Utc::unix_nanos),
        Some(7_000_000_000)
    );

    let seconds = TimeFormat::Seconds { epoch: Utc::epoch() };
    let raw = RawValue::Unsigned(7);
    let eng = EngValue::Float(double(2.5));
    assert_eq!(
        from_values(seconds, &raw, &eng).map(Utc::unix_nanos),
        Some(2_500_000_000)
    );
}

#[test]
fn a_cds_that_arrived_as_one_integer_reads_like_its_octets() {
    let format = TimeFormat::Cds {
        day_bytes: 2,
        submillisecond_bytes: 0,
        epoch: Utc::ccsds_epoch(),
    };
    let integer = 0x111F_0036_EE80u64;
    let eng = EngValue::Unsigned(integer);
    let from_integer = from_values(format, &RawValue::Unsigned(integer), &eng).unwrap();
    let bytes = vec![0x11, 0x1F, 0x00, 0x36, 0xEE, 0x80];
    let from_bytes = from_values(format, &RawValue::Bytes(bytes), &eng).unwrap();
    assert_eq!(from_integer, from_bytes);
    assert_eq!(from_integer.to_string(), "1970-01-01T01:00:00.000Z");
}

#[test]
fn a_time_parameter_that_decoded_to_a_label_is_not_a_time() {
    let cuc = TimeFormat::Cuc {
        coarse_bytes: 4,
        fine_bytes: 0,
        epoch: Utc::epoch(),
    };
    assert_eq!(
        from_values(
            cuc,
            &RawValue::Float(double(1.0)),
            &EngValue::Label("SAFE".to_string())
        ),
        None
    );
    let seconds = TimeFormat::Seconds { epoch: Utc::epoch() };
    assert_eq!(
        from_values(
            seconds,
            &RawValue::Unsigned(1),
            &EngValue::Label("SAFE".to_string())
        ),
        None
    );
    assert_eq!(
        from_values(seconds, &RawValue::Unsigned(1), &EngValue::Bytes(vec![0, 1])),
        None
    );
}

#[test]
fn seconds_round_as_doubles_do() {
    for seconds in [0.1, 1.1, 123_456.789_012_345, 1e-10, 0.5e-9, 1.5e-9, 2.5e-9, 9.2e9, -9.2e9] {
        let nanos = seconds * 1e9_f64;
        let expected = nanos.round() as i64;
        assert_eq!(
            seconds_from_f64(double(seconds), Utc::epoch()).map(Utc::unix_nanos),
            Some(expected),
            "{seconds}"
        );
    }
}

#[test]
fn a_clock_reads_the_parameter_it_was_given() {
    let source = TimeSource {
        parameter: "/Sat/TIME".to_string(),
        format: TimeFormat::Seconds { epoch: Utc::epoch() },
    };
    let clock = match SpacecraftClock::resolve(Some(ParamId::new(1)), &source) {
        Ok(clock) => clock,
        Err(error) => panic!("{error:?}"),
    };
    assert_eq!(clock.parameter(), ParamId::new(1));
    assert_eq!(clock.format(), source.format);
    let mut packet = DecodedPacket {
        container: ContainerId::new(0),
        container_name: None,
        container_count: 1,
        values: vec![
            DecodedValue {
                parameter: ParamId::new(0),
                raw: RawValue::Unsigned(1),
                eng: EngValue::Unsigned(1),
            },
            DecodedValue {
                parameter: ParamId::new(1),
                raw: RawValue::Unsigned(9),
                eng: EngValue::Unsigned(9),
            },
        ],
        clock: Some(1),
        trailing_bits: 0,
    };
    assert_eq!(clock.read(&packet), Some(Utc::from_unix_secs(9)));
    packet.clock = Some(0);
    assert_eq!(clock.read(&packet), None);
    packet.clock = Some(2);
    assert_eq!(clock.read(&packet), None);
    packet.clock = None;
    assert_eq!(clock.read(&packet), None);

    let refusal = SpacecraftClock::resolve(None, &source);
    assert!(matches!(&refusal, Err(EngineError::Config(message))
        if message == "spacecraft_time.parameter: the definition declares no parameter named `/Sat/TIME`"));
}
