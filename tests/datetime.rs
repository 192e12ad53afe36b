use toml_edit::datetime::{Date, Datetime, DatetimeParseError, Offset, Time};

#[test]
fn offset_datetime_utc_round_trips() {
    let dt = Datetime::parse("1979-05-27T07:32:00Z").unwrap();
    assert_eq!(dt.date, Some(Date { year: 1979, month: 5, day: 27 }));
    assert_eq!(dt.time, Some(Time { hour: 7, minute: 32, second: 0, nanosecond: 0 }));
    assert_eq!(dt.offset, Some(Offset::Z));
    assert_eq!(dt.to_text(), "1979-05-27T07:32:00Z");
}

#[test]
fn local_date_only() {
    let dt = Datetime::parse("1979-05-27").unwrap();
    assert!(dt.date.is_some());
    assert!(dt.time.is_none());
    assert!(dt.offset.is_none());
    assert_eq!(dt.to_text(), "1979-05-27");
}

#[test]
fn local_time_keeps_six_fraction_digits() {
    let dt = Datetime::parse("07:32:00.999999").unwrap();
    assert!(dt.date.is_none());
    assert_eq!(dt.time.unwrap().nanosecond, 999_999_000);
    assert_eq!(dt.to_text(), "07:32:00.999999");
}

#[test]
fn custom_offset() {
    let dt = Datetime::parse("1979-05-27T07:32:00+07:00").unwrap();
    assert_eq!(dt.offset, Some(Offset::Custom { minutes: 420 }));
    assert_eq!(dt.to_text(), "1979-05-27T07:32:00+07:00");
    let dt = Datetime::parse("1979-05-27 00:32:00.5-07:30").unwrap();
    assert_eq!(dt.offset, Some(Offset::Custom { minutes: -450 }));
    assert_eq!(dt.to_text(), "1979-05-27T00:32:00.5-07:30");
}

#[test]
fn offset_out_of_range_is_invalid_offset() {
    assert_eq!(
        Datetime::parse("1979-05-27T07:32:00+24:00"),
        Err(DatetimeParseError::InvalidOffset)
    );
    assert_eq!(
        Datetime::parse("1979-05-27T07:32:00+07:60"),
        Err(DatetimeParseError::InvalidOffset)
    );
    assert_eq!(
        Datetime::parse("1979-05-27T07:32:00X"),
        Err(DatetimeParseError::InvalidOffset)
    );
}

#[test]
fn local_datetime() {
    let dt = Datetime::parse("1979-05-27t07:32:00").unwrap();
    assert!(dt.offset.is_none());
    assert_eq!(dt.to_text(), "1979-05-27T07:32:00");
}

#[test]
fn bad_dates_and_times() {
    assert_eq!(Datetime::parse(""), Err(DatetimeParseError::InvalidDate));
    assert_eq!(Datetime::parse("1979-13-27"), Err(DatetimeParseError::InvalidDate));
    assert_eq!(Datetime::parse("1979-05-00"), Err(DatetimeParseError::InvalidDate));
    assert_eq!(Datetime::parse("1979-05-27X"), Err(DatetimeParseError::InvalidDate));
    assert_eq!(Datetime::parse("24:00:00"), Err(DatetimeParseError::InvalidTime));
    assert_eq!(Datetime::parse("07:32:60"), Err(DatetimeParseError::InvalidTime));
    assert_eq!(Datetime::parse("07:32:00Z"), Err(DatetimeParseError::InvalidTime));
    assert_eq!(
        Datetime::parse("07:32:00.1234567891"),
        Err(DatetimeParseError::InvalidTime)
    );
    assert_eq!(Datetime::parse("07:32:00."), Err(DatetimeParseError::InvalidTime));
    assert_eq!(Datetime::parse("1979-05-27T7:32:00"), Err(DatetimeParseError::InvalidTime));
}

#[test]
fn nine_fraction_digits() {
    let dt = Datetime::parse("00:00:00.000000001").unwrap();
    assert_eq!(dt.time.unwrap().nanosecond, 1);
    assert_eq!(dt.to_text(), "00:00:00.000000001");
}

#[test]
fn utc_as_numeric_offset_stays_numeric() {
    let dt = Datetime::parse("1979-05-27T07:32:00+00:00").unwrap();
    assert_eq!(dt.offset, Some(Offset::Custom { minutes: 0 }));
    assert_eq!(dt.to_text(), "1979-05-27T07:32:00+00:00");
    let dt = Datetime::parse("1979-05-27T07:32:00z").unwrap();
    assert_eq!(dt.to_text(), "1979-05-27T07:32:00Z");
}
