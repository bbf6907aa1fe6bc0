use mysql_tables::values::{
    decode_value, encode_value, native_to_engine_type, ColumnMeta, DecodeError, EngineType,
    EngineValue, NativeType, RawValue,
};

fn round_trip(v: EngineValue, ty: EngineType) -> EngineValue {
    decode_value(encode_value(v, ty), ty).expect("decodes")
}

fn column(native: NativeType, unsigned: bool, binary: bool, length: u32, decimals: u8) -> ColumnMeta {
    ColumnMeta { name: "c".to_string(), native, unsigned, binary, nullable: true, length, decimals }
}

fn mapped(native: NativeType, unsigned: bool, binary: bool) -> Option<EngineType> {
    native_to_engine_type(&column(native, unsigned, binary, 11, 0))
}

#[test]
fn maps_integer_types_by_sign() {
    assert_eq!(mapped(NativeType::Tiny, false, false), Some(EngineType::Int8));
    assert_eq!(mapped(NativeType::Tiny, true, false), Some(EngineType::UInt8));
    assert_eq!(mapped(NativeType::Long, false, false), Some(EngineType::Int32));
    assert_eq!(mapped(NativeType::LongLong, true, false), Some(EngineType::UInt64));
    assert_eq!(mapped(NativeType::Double, false, false), Some(EngineType::Float64));
}

#[test]
fn maps_text_and_bytes_by_collation() {
    assert_eq!(mapped(NativeType::Varchar, false, false), Some(EngineType::Utf8));
    assert_eq!(mapped(NativeType::Blob, false, true), Some(EngineType::Binary));
    assert_eq!(mapped(NativeType::Json, false, false), Some(EngineType::Utf8));
}

#[test]
fn geometry_has_no_mapping() {
    assert_eq!(mapped(NativeType::Geometry, false, false), None);
}

#[test]
fn round_trips_integers_and_null() {
    assert!(matches!(round_trip(EngineValue::Int8(-128), EngineType::Int8), EngineValue::Int8(-128)));
    assert!(matches!(round_trip(EngineValue::Int64(i64::MIN), EngineType::Int64), EngineValue::Int64(i64::MIN)));
    assert!(matches!(round_trip(EngineValue::UInt64(u64::MAX), EngineType::UInt64), EngineValue::UInt64(u64::MAX)));
    assert!(matches!(round_trip(EngineValue::UInt16(65535), EngineType::UInt16), EngineValue::UInt16(65535)));
    assert!(matches!(round_trip(EngineValue::Null, EngineType::Utf8), EngineValue::Null));
}

#[test]
fn round_trips_text_dates_and_times() {
    match round_trip(EngineValue::Utf8("paid".as_bytes().to_vec()), EngineType::Utf8) {
        EngineValue::Utf8(b) => assert_eq!(b, b"paid".to_vec()),
        other => panic!("{:?}", other),
    }
    assert!(matches!(
        round_trip(EngineValue::Date32 { year: 2024, month: 2, day: 29 }, EngineType::Date32),
        EngineValue::Date32 { year: 2024, month: 2, day: 29 }
    ));
    assert!(matches!(
        round_trip(EngineValue::Time64 { negative: true, hours: 838, minutes: 59, seconds: 59, micros: 0 }, EngineType::Time64),
        EngineValue::Time64 { negative: true, hours: 838, minutes: 59, seconds: 59, micros: 0 }
    ));
}

#[test]
fn time_is_sent_as_days_and_hours() {
    match encode_value(
        EngineValue::Time64 { negative: false, hours: 50, minutes: 1, seconds: 2, micros: 3 },
        EngineType::Time64,
    ) {
        RawValue::Time(false, 2, 2, 1, 2, 3) => {}
        other => panic!("{:?}", other),
    }
}

#[test]
fn narrowing_out_of_range_is_an_error() {
    assert!(matches!(decode_value(RawValue::Int(128), EngineType::Int8), Err(DecodeError::OutOfRange)));
    assert!(matches!(decode_value(RawValue::Int(-1), EngineType::UInt32), Err(DecodeError::OutOfRange)));
    assert!(matches!(decode_value(RawValue::UInt(u64::MAX), EngineType::Int64), Err(DecodeError::OutOfRange)));
    assert!(matches!(decode_value(RawValue::UInt(300), EngineType::Int16), Ok(EngineValue::Int16(300))));
}

#[test]
fn invalid_text_is_rejected() {
    assert!(matches!(decode_value(RawValue::Bytes(vec![0xff, 0xfe]), EngineType::Utf8), Err(DecodeError::InvalidValue)));
    assert!(matches!(decode_value(RawValue::Bytes(vec![0xff, 0xfe]), EngineType::Binary), Ok(EngineValue::Binary(_))));
}

#[test]
fn mismatched_kinds_are_rejected() {
    assert!(matches!(decode_value(RawValue::Int(1), EngineType::Utf8), Err(DecodeError::TypeMismatch)));
    assert!(matches!(decode_value(RawValue::Bytes(vec![]), EngineType::Int32), Err(DecodeError::TypeMismatch)));
}

#[test]
fn invalid_dates_are_rejected() {
    assert!(matches!(decode_value(RawValue::Date(2024, 13, 1, 0, 0, 0, 0), EngineType::Date32), Err(DecodeError::InvalidValue)));
    assert!(matches!(decode_value(RawValue::Date(2024, 1, 1, 10, 0, 0, 0), EngineType::Date32), Err(DecodeError::InvalidValue)));
    assert!(matches!(
        decode_value(RawValue::Date(2024, 1, 2, 3, 4, 5, 6), EngineType::Timestamp),
        Ok(EngineValue::Timestamp { year: 2024, month: 1, day: 2, hour: 3, minute: 4, second: 5, micros: 6 })
    ));
}

#[test]
fn maps_decimal_precision_and_scale() {
    // DECIMAL(10,2): ten digits, a point and a sign
    assert_eq!(
        native_to_engine_type(&column(NativeType::Decimal, false, false, 12, 2)),
        Some(EngineType::Decimal128 { precision: 10, scale: 2 })
    );
    assert_eq!(
        native_to_engine_type(&column(NativeType::Decimal, true, false, 5, 0)),
        Some(EngineType::Decimal128 { precision: 5, scale: 0 })
    );
    // DECIMAL(65,0) does not fit 128 bits
    assert_eq!(native_to_engine_type(&column(NativeType::Decimal, false, false, 66, 0)), None);
}

#[test]
fn decodes_decimal_text() {
    let ty = EngineType::Decimal128 { precision: 10, scale: 2 };
    assert!(matches!(decode_value(RawValue::Bytes(b"-123.45".to_vec()), ty), Ok(EngineValue::Decimal128(-12345))));
    assert!(matches!(decode_value(RawValue::Bytes(b"0.07".to_vec()), ty), Ok(EngineValue::Decimal128(7))));
    assert!(matches!(decode_value(RawValue::Bytes(b"12.3".to_vec()), ty), Err(DecodeError::InvalidValue)));
    assert!(matches!(decode_value(RawValue::Bytes(b"1x.30".to_vec()), ty), Err(DecodeError::InvalidValue)));
    assert!(matches!(decode_value(RawValue::Bytes(b"12345678901.00".to_vec()), ty), Err(DecodeError::OutOfRange)));
    let whole = EngineType::Decimal128 { precision: 3, scale: 0 };
    assert!(matches!(decode_value(RawValue::Bytes(b"999".to_vec()), whole), Ok(EngineValue::Decimal128(999))));
    assert!(matches!(decode_value(RawValue::Bytes(b"1000".to_vec()), whole), Err(DecodeError::OutOfRange)));
}

#[test]
fn decimals_are_sent_as_text_with_their_scale() {
    let ty = EngineType::Decimal128 { precision: 10, scale: 2 };
    match encode_value(EngineValue::Decimal128(-5), ty) {
        RawValue::Bytes(b) => assert_eq!(b, b"-0.05".to_vec()),
        other => panic!("{:?}", other),
    }
    assert!(matches!(round_trip(EngineValue::Decimal128(-12345), ty), EngineValue::Decimal128(-12345)));
    let wide = EngineType::Decimal128 { precision: 38, scale: 10 };
    let big = 99_999_999_999_999_999_999_999_999_999_999_999_999i128;
    assert!(matches!(round_trip(EngineValue::Decimal128(-big), wide), EngineValue::Decimal128(v) if v == -big));
}

#[test]
fn bit_columns_decode_as_bytes() {
    assert_eq!(mapped(NativeType::Bit, true, true), Some(EngineType::Binary));
    let ty = mapped(NativeType::Bit, false, false).expect("mapped");
    assert!(matches!(decode_value(RawValue::Bytes(vec![0x01, 0x80]), ty), Ok(EngineValue::Binary(b)) if b == vec![0x01, 0x80]));
}
