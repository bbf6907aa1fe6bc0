//! Mapping of MySQL column types to engine types, and decoding of the values
//! that the driver's binary protocol delivers into engine values.
//!
//! Floating-point columns map to engine float types, but their values are
//! converted outside this module: the library holds no floats.
use vstd::prelude::*;

verus! {

/// A MySQL column type as reported in result-set metadata.
#[derive(Clone, Copy, Debug, PartialEq, Eq, Structural)]
pub enum NativeType {
    Tiny,
    Short,
    Int24,
    Long,
    LongLong,
    Year,
    /// BIT(n): its bits arrive as bytes.
    Bit,
    Float,
    Double,
    Decimal,
    Varchar,
    VarString,
    FixedString,
    TinyBlob,
    Blob,
    MediumBlob,
    LongBlob,
    Json,
    Enumeration,
    StringSet,
    Date,
    DateTime,
    Timestamp,
    Time,
    Geometry,
    Vector,
    /// A type the server reports but does not describe.
    Unknown,
    Null,
}

/// The metadata of one result column.
#[derive(Clone, Debug)]
pub struct ColumnMeta {
    pub name: String,
    pub native: NativeType,
    /// The column was declared UNSIGNED.
    pub unsigned: bool,
    /// The column has a binary collation (bytes, not text).
    pub binary: bool,
    pub nullable: bool,
    /// The display length the server reports.
    pub length: u32,
    /// Digits after the decimal point.
    pub decimals: u8,
}

/// A type of the query engine.
#[derive(Clone, Copy, Debug, PartialEq, Eq, Structural)]
pub enum EngineType {
    Null,
    Int8,
    Int16,
    Int32,
    Int64,
    UInt8,
    UInt16,
    UInt32,
    UInt64,
    Float32,
    Float64,
    Utf8,
    Binary,
    Date32,
    Timestamp,
    Time64,
    /// Exact decimals held as an unscaled integer.
    Decimal128 { precision: u8, scale: u8 },
}

/// The precision of a DECIMAL column: its display length less the point
/// and the sign.
pub open spec fn decimal_precision(length: u32, decimals: u8, unsigned: bool) -> int {
    length - (if decimals > 0 { 1int } else { 0int }) - (if unsigned { 0int } else { 1int })
}

/// The engine type of a column, or `None` where no mapping exists.
pub open spec fn engine_type_of(c: ColumnMeta) -> Option<EngineType> {
    let (native, unsigned, binary) = (c.native, c.unsigned, c.binary);
    match native {
        NativeType::Tiny => Some(if unsigned { EngineType::UInt8 } else { EngineType::Int8 }),
        NativeType::Short => Some(if unsigned { EngineType::UInt16 } else { EngineType::Int16 }),
        NativeType::Int24 | NativeType::Long => Some(
            if unsigned { EngineType::UInt32 } else { EngineType::Int32 },
        ),
        NativeType::LongLong => Some(if unsigned { EngineType::UInt64 } else { EngineType::Int64 }),
        NativeType::Year => Some(EngineType::Int16),
        NativeType::Bit => Some(EngineType::Binary),
        NativeType::Float => Some(EngineType::Float32),
        NativeType::Double => Some(EngineType::Float64),
        NativeType::Varchar | NativeType::VarString | NativeType::FixedString | NativeType::TinyBlob
        | NativeType::Blob | NativeType::MediumBlob | NativeType::LongBlob => Some(
            if binary { EngineType::Binary } else { EngineType::Utf8 },
        ),
        NativeType::Json | NativeType::Enumeration | NativeType::StringSet => Some(EngineType::Utf8),
        NativeType::Date => Some(EngineType::Date32),
        NativeType::DateTime | NativeType::Timestamp => Some(EngineType::Timestamp),
        NativeType::Time => Some(EngineType::Time64),
        NativeType::Null => Some(EngineType::Null),
        NativeType::Decimal => {
            let p = decimal_precision(c.length, c.decimals, unsigned);
            if 1 <= p <= 38 && c.decimals <= p {
                Some(EngineType::Decimal128 { precision: p as u8, scale: c.decimals })
            } else {
                None
            }
        },
        NativeType::Geometry | NativeType::Vector | NativeType::Unknown => None,
    }
}

/// Maps a column's native type to its engine type; `None` where there is no
/// mapping, which the caller must treat as an unsupported column rather than
/// cast the values.
pub fn native_to_engine_type(c: &ColumnMeta) -> (r: Option<EngineType>)
    ensures
        r == engine_type_of(*c),
{
    let (native, unsigned, binary) = (c.native, c.unsigned, c.binary);
    match native {
        NativeType::Tiny => Some(if unsigned { EngineType::UInt8 } else { EngineType::Int8 }),
        NativeType::Short => Some(if unsigned { EngineType::UInt16 } else { EngineType::Int16 }),
        NativeType::Int24 | NativeType::Long => Some(
            if unsigned { EngineType::UInt32 } else { EngineType::Int32 },
        ),
        NativeType::LongLong => Some(if unsigned { EngineType::UInt64 } else { EngineType::Int64 }),
        NativeType::Year => Some(EngineType::Int16),
        NativeType::Bit => Some(EngineType::Binary),
        NativeType::Float => Some(EngineType::Float32),
        NativeType::Double => Some(EngineType::Float64),
        NativeType::Varchar | NativeType::VarString | NativeType::FixedString | NativeType::TinyBlob
        | NativeType::Blob | NativeType::MediumBlob | NativeType::LongBlob => Some(
            if binary { EngineType::Binary } else { EngineType::Utf8 },
        ),
        NativeType::Json | NativeType::Enumeration | NativeType::StringSet => Some(EngineType::Utf8),
        NativeType::Date => Some(EngineType::Date32),
        NativeType::DateTime | NativeType::Timestamp => Some(EngineType::Timestamp),
        NativeType::Time => Some(EngineType::Time64),
        NativeType::Null => Some(EngineType::Null),
        NativeType::Decimal => {
            let p: i64 = c.length as i64 - (if c.decimals > 0 { 1i64 } else { 0i64 }) - (if unsigned {
                0i64
            } else {
                1i64
            });
            if 1 <= p && p <= 38 && c.decimals as i64 <= p {
                Some(EngineType::Decimal128 { precision: p as u8, scale: c.decimals })
            } else {
                None
            }
        },
        NativeType::Geometry | NativeType::Vector | NativeType::Unknown => None,
    }
}


/// A value as the driver's binary protocol delivers it.
#[derive(Clone, Debug)]
pub enum RawValue {
    Null,
    Bytes(Vec<u8>),
    Int(i64),
    UInt(u64),
    /// Year, month, day, hour, minute, second, microsecond.
    Date(u16, u8, u8, u8, u8, u8, u32),
    /// Negative, days, hours, minutes, seconds, microseconds.
    Time(bool, u32, u8, u8, u8, u32),
}

/// A value of the engine, one variant per engine type but the floats.
#[derive(Clone, Debug)]
pub enum EngineValue {
    Null,
    Int8(i8),
    Int16(i16),
    Int32(i32),
    Int64(i64),
    UInt8(u8),
    UInt16(u16),
    UInt32(u32),
    UInt64(u64),
    /// UTF-8 encoded text.
    Utf8(Vec<u8>),
    Binary(Vec<u8>),
    Date32 { year: u16, month: u8, day: u8 },
    Timestamp { year: u16, month: u8, day: u8, hour: u8, minute: u8, second: u8, micros: u32 },
    Time64 { negative: bool, hours: u32, minutes: u8, seconds: u8, micros: u32 },
    /// The unscaled value; the column's type gives the scale.
    Decimal128(i128),
}

/// The mathematical form of a [`RawValue`].
pub enum RawModel {
    Null,
    Bytes(Seq<u8>),
    Int(i64),
    UInt(u64),
    Date(u16, u8, u8, u8, u8, u8, u32),
    Time(bool, u32, u8, u8, u8, u32),
}

/// The mathematical form of an [`EngineValue`].
pub enum Cell {
    Null,
    Int8(i8),
    Int16(i16),
    Int32(i32),
    Int64(i64),
    UInt8(u8),
    UInt16(u16),
    UInt32(u32),
    UInt64(u64),
    Utf8(Seq<u8>),
    Binary(Seq<u8>),
    Date32 { year: u16, month: u8, day: u8 },
    Timestamp { year: u16, month: u8, day: u8, hour: u8, minute: u8, second: u8, micros: u32 },
    Time64 { negative: bool, hours: u32, minutes: u8, seconds: u8, micros: u32 },
    Decimal128(i128),
}

impl View for RawValue {
    type V = RawModel;

    open spec fn view(&self) -> RawModel {
        match self {
            RawValue::Null => RawModel::Null,
            RawValue::Bytes(b) => RawModel::Bytes(b@),
            RawValue::Int(v) => RawModel::Int(*v),
            RawValue::UInt(v) => RawModel::UInt(*v),
            RawValue::Date(y, mo, d, h, mi, s, us) => RawModel::Date(*y, *mo, *d, *h, *mi, *s, *us),
            RawValue::Time(n, d, h, mi, s, us) => RawModel::Time(*n, *d, *h, *mi, *s, *us),
        }
    }
}

impl View for EngineValue {
    type V = Cell;

    open spec fn view(&self) -> Cell {
        match self {
            EngineValue::Null => Cell::Null,
            EngineValue::Int8(v) => Cell::Int8(*v),
            EngineValue::Int16(v) => Cell::Int16(*v),
            EngineValue::Int32(v) => Cell::Int32(*v),
            EngineValue::Int64(v) => Cell::Int64(*v),
            EngineValue::UInt8(v) => Cell::UInt8(*v),
            EngineValue::UInt16(v) => Cell::UInt16(*v),
            EngineValue::UInt32(v) => Cell::UInt32(*v),
            EngineValue::UInt64(v) => Cell::UInt64(*v),
            EngineValue::Utf8(b) => Cell::Utf8(b@),
            EngineValue::Binary(b) => Cell::Binary(b@),
            EngineValue::Date32 { year, month, day } => Cell::Date32 {
                year: *year,
                month: *month,
                day: *day,
            },
            EngineValue::Timestamp { year, month, day, hour, minute, second, micros } => Cell::Timestamp {
                year: *year,
                month: *month,
                day: *day,
                hour: *hour,
                minute: *minute,
                second: *second,
                micros: *micros,
            },
            EngineValue::Time64 { negative, hours, minutes, seconds, micros } => Cell::Time64 {
                negative: *negative,
                hours: *hours,
                minutes: *minutes,
                seconds: *seconds,
                micros: *micros,
            },
            EngineValue::Decimal128(v) => Cell::Decimal128(*v),
        }
    }
}

/// Why a raw value could not be decoded under a column's engine type.
#[derive(Clone, Copy, Debug, PartialEq, Eq, Structural)]
pub enum DecodeError {
    /// The raw value's kind does not belong to the column's type.
    TypeMismatch,
    /// The number does not fit the column's type.
    OutOfRange,
    /// Text that is not UTF-8, or a date or time with a field out of range.
    InvalidValue,
}

/// Whether the bytes are well-formed UTF-8.
pub uninterp spec fn utf8_valid(b: Seq<u8>) -> bool;

/// Relies on `std::str::from_utf8`: it succeeds exactly on well-formed UTF-8,
/// which the empty sequence is.
#[verifier::external_body]
fn is_utf8(b: &Vec<u8>) -> (r: bool)
    ensures
        r == utf8_valid(b@),
        b@.len() == 0 ==> r,
{
    std::str::from_utf8(b.as_slice()).is_ok()
}

pub open spec fn valid_date(month: u8, day: u8) -> bool {
    1 <= month <= 12 && 1 <= day <= 31
}

pub open spec fn valid_clock(hour: u8, minute: u8, second: u8, micros: u32) -> bool {
    hour < 24 && minute < 60 && second < 60 && micros < 1_000_000
}

/// A signed raw integer, read as a mathematical integer, if it is one.
pub open spec fn raw_int(raw: RawModel) -> Option<int> {
    match raw {
        RawModel::Int(v) => Some(v as int),
        RawModel::UInt(v) => Some(v as int),
        _ => None,
    }
}

/// The engine value that a raw value decodes to under an engine type; floats
/// are not decoded here.
pub open spec fn decode_spec(raw: RawModel, ty: EngineType) -> Result<Cell, DecodeError> {
    if raw is Null {
        Ok(Cell::Null)
    } else {
        match ty {
            EngineType::Int8 | EngineType::Int16 | EngineType::Int32 | EngineType::Int64
            | EngineType::UInt8 | EngineType::UInt16 | EngineType::UInt32 | EngineType::UInt64 => {
                match raw_int(raw) {
                    None => Err(DecodeError::TypeMismatch),
                    Some(v) => match ty {
                        EngineType::Int8 => if i8::MIN <= v <= i8::MAX { Ok(Cell::Int8(v as i8)) } else { Err(DecodeError::OutOfRange) },
                        EngineType::Int16 => if i16::MIN <= v <= i16::MAX { Ok(Cell::Int16(v as i16)) } else { Err(DecodeError::OutOfRange) },
                        EngineType::Int32 => if i32::MIN <= v <= i32::MAX { Ok(Cell::Int32(v as i32)) } else { Err(DecodeError::OutOfRange) },
                        EngineType::Int64 => if i64::MIN <= v <= i64::MAX { Ok(Cell::Int64(v as i64)) } else { Err(DecodeError::OutOfRange) },
                        EngineType::UInt8 => if 0 <= v <= u8::MAX { Ok(Cell::UInt8(v as u8)) } else { Err(DecodeError::OutOfRange) },
                        EngineType::UInt16 => if 0 <= v <= u16::MAX { Ok(Cell::UInt16(v as u16)) } else { Err(DecodeError::OutOfRange) },
                        EngineType::UInt32 => if 0 <= v <= u32::MAX { Ok(Cell::UInt32(v as u32)) } else { Err(DecodeError::OutOfRange) },
                        _ => if 0 <= v <= u64::MAX { Ok(Cell::UInt64(v as u64)) } else { Err(DecodeError::OutOfRange) },
                    },
                }
            },
            EngineType::Utf8 => match raw {
                RawModel::Bytes(b) => if utf8_valid(b) { Ok(Cell::Utf8(b)) } else { Err(DecodeError::InvalidValue) },
                _ => Err(DecodeError::TypeMismatch),
            },
            EngineType::Binary => match raw {
                RawModel::Bytes(b) => Ok(Cell::Binary(b)),
                _ => Err(DecodeError::TypeMismatch),
            },
            EngineType::Date32 => match raw {
                RawModel::Date(y, mo, d, h, mi, s, us) => if valid_date(mo, d) && h == 0 && mi == 0 && s == 0 && us == 0 {
                    Ok(Cell::Date32 { year: y, month: mo, day: d })
                } else {
                    Err(DecodeError::InvalidValue)
                },
                _ => Err(DecodeError::TypeMismatch),
            },
            EngineType::Timestamp => match raw {
                RawModel::Date(y, mo, d, h, mi, s, us) => if valid_date(mo, d) && valid_clock(h, mi, s, us) {
                    Ok(Cell::Timestamp { year: y, month: mo, day: d, hour: h, minute: mi, second: s, micros: us })
                } else {
                    Err(DecodeError::InvalidValue)
                },
                _ => Err(DecodeError::TypeMismatch),
            },
            EngineType::Time64 => match raw {
                RawModel::Time(n, d, h, mi, s, us) => if valid_clock(h, mi, s, us) && d as int * 24 + h <= u32::MAX {
                    Ok(Cell::Time64 { negative: n, hours: (d as int * 24 + h) as u32, minutes: mi, seconds: s, micros: us })
                } else {
                    Err(DecodeError::InvalidValue)
                },
                _ => Err(DecodeError::TypeMismatch),
            },
            EngineType::Decimal128 { precision, scale } => if !valid_decimal_type(precision, scale) {
                Err(DecodeError::TypeMismatch)
            } else {
                match raw {
                    RawModel::Bytes(b) => decimal_spec(b, precision, scale),
                    _ => Err(DecodeError::TypeMismatch),
                }
            },
            _ => Err(DecodeError::TypeMismatch),
        }
    }
}

pub open spec fn valid_decimal_type(precision: u8, scale: u8) -> bool {
    1 <= precision <= 38 && scale <= precision
}

pub open spec fn is_digit(c: u8) -> bool {
    48 <= c <= 57
}

pub open spec fn all_digits(d: Seq<u8>) -> bool {
    forall|i: int| 0 <= i < d.len() ==> is_digit(#[trigger] d[i])
}

/// The number that a sequence of decimal digits writes.
pub open spec fn digits_value(d: Seq<u8>) -> int
    decreases d.len(),
{
    if d.len() == 0 {
        0
    } else {
        digits_value(d.drop_last()) * 10 + (d.last() - 48)
    }
}

pub open spec fn pow10(n: nat) -> int
    decreases n,
{
    if n == 0 {
        1
    } else {
        10 * pow10((n - 1) as nat)
    }
}

pub open spec fn decimal_negative(b: Seq<u8>) -> bool {
    b.len() > 0 && b[0] == 45u8
}

/// The text less its sign.
pub open spec fn decimal_body(b: Seq<u8>) -> Seq<u8> {
    if decimal_negative(b) {
        b.skip(1)
    } else {
        b
    }
}

/// The digits of decimal text `[-]digits[.digits]`, the point left out, when
/// the text has that form with exactly `scale` digits after the point.
pub open spec fn decimal_digits(b: Seq<u8>, scale: nat) -> Option<Seq<u8>> {
    let body = decimal_body(b);
    if scale == 0 {
        if body.len() > 0 && all_digits(body) {
            Some(body)
        } else {
            None
        }
    } else {
        let k = body.len() - scale - 1;
        if k >= 1 && body[k] == 46u8 && all_digits(body.remove(k)) {
            Some(body.remove(k))
        } else {
            None
        }
    }
}

/// The unscaled value of decimal text, when it has the column's scale and a
/// magnitude below ten to the precision.
pub open spec fn decimal_spec(b: Seq<u8>, precision: u8, scale: u8) -> Result<Cell, DecodeError> {
    match decimal_digits(b, scale as nat) {
        None => Err(DecodeError::InvalidValue),
        Some(d) => if digits_value(d) < pow10(precision as nat) {
            Ok(Cell::Decimal128((if decimal_negative(b) { -digits_value(d) } else { digits_value(d) }) as i128))
        } else {
            Err(DecodeError::OutOfRange)
        },
    }
}

proof fn lemma_digits_value_nonneg(d: Seq<u8>)
    requires
        all_digits(d),
    ensures
        digits_value(d) >= 0,
    decreases d.len(),
{
    if d.len() > 0 {
        lemma_digits_value_nonneg(d.drop_last());
    }
}

/// The value of a prefix of digits is at most the value of the whole.
proof fn lemma_digits_prefix(d: Seq<u8>, j: int)
    requires
        all_digits(d),
        0 <= j <= d.len(),
    ensures
        digits_value(d.take(j)) <= digits_value(d),
    decreases d.len(),
{
    if j < d.len() {
        assert(d.drop_last().take(j) =~= d.take(j));
        lemma_digits_prefix(d.drop_last(), j);
        lemma_digits_value_nonneg(d.drop_last());
    } else {
        assert(d.take(j) =~= d);
    }
}

proof fn lemma_pow10_bound(n: nat)
    requires
        n <= 38,
    ensures
        1 <= pow10(n) <= pow10(38),
    decreases 38 - n,
{
    if n < 38 {
        lemma_pow10_bound(n + 1);
        assert(pow10(n + 1) == 10 * pow10(n));
    } else {
        lemma_pow10_pos(38);
    }
}

proof fn lemma_pow10_pos(n: nat)
    ensures
        pow10(n) >= 1,
    decreases n,
{
    if n > 0 {
        lemma_pow10_pos((n - 1) as nat);
    }
}

/// Ten to the power `n`, for `n` up to 38.
fn pow10_exec(n: u8) -> (r: u128)
    requires
        n <= 38,
    ensures
        r == pow10(n as nat),
        1 <= r <= 100000000000000000000000000000000000000,
{
    proof {
        reveal_with_fuel(pow10, 39);
    }
    assert(pow10(38) == 100000000000000000000000000000000000000);
    let mut r: u128 = 1;
    let mut k: u8 = 0;
    while k < n
        invariant
            k <= n <= 38,
            r == pow10(k as nat),
            pow10(38) == 100000000000000000000000000000000000000,
        decreases n - k,
    {
        proof {
            lemma_pow10_bound((k + 1) as nat);
        }
        r = r * 10;
        k = k + 1;
    }
    proof {
        lemma_pow10_bound(n as nat);
    }
    r
}

fn are_digits(d: &Vec<u8>) -> (r: bool)
    ensures
        r == all_digits(d@),
{
    let mut i: usize = 0;
    while i < d.len()
        invariant
            i <= d@.len(),
            forall|j: int| 0 <= j < i ==> is_digit(#[trigger] d@[j]),
        decreases d@.len() - i,
    {
        if !(48u8 <= d[i] && d[i] <= 57u8) {
            return false;
        }
        i = i + 1;
    }
    true
}

/// Decodes decimal text under a decimal type.
fn parse_decimal(b: Vec<u8>, precision: u8, scale: u8) -> (r: Result<EngineValue, DecodeError>)
    ensures
        decoded_view(r) == decode_spec(RawModel::Bytes(b@), EngineType::Decimal128 { precision, scale }),
{
    if !(1 <= precision && precision <= 38 && scale <= precision) {
        return Err(DecodeError::TypeMismatch);
    }
    let ghost text = b@;
    let neg = b.len() > 0 && b[0] == 45u8;
    let mut body = b;
    if neg {
        body.remove(0);
    }
    assert(body@ =~= decimal_body(text));
    let n = body.len();
    if scale == 0 {
        if n == 0 {
            return Err(DecodeError::InvalidValue);
        }
    } else {
        if n < scale as usize + 2 {
            return Err(DecodeError::InvalidValue);
        }
        let k = n - scale as usize - 1;
        if body[k] != 46u8 {
            return Err(DecodeError::InvalidValue);
        }
        body.remove(k);
    }
    let ghost cand = body@;
    assert(decimal_digits(text, scale as nat) == if all_digits(cand) {
        Some(cand)
    } else {
        None::<Seq<u8>>
    });
    if !are_digits(&body) {
        return Err(DecodeError::InvalidValue);
    }
    assert(decimal_digits(text, scale as nat) == Some(body@));
    let limit = pow10_exec(precision);
    match digits_below(&body, limit) {
        None => Err(DecodeError::OutOfRange),
        Some(v) => {
            proof {
                lemma_digits_value_nonneg(body@);
            }
            let x = v as i128;
            Ok(EngineValue::Decimal128(if neg { -x } else { x }))
        },
    }
}

/// The value of a sequence of digits when it is below `limit`.
fn digits_below(d: &Vec<u8>, limit: u128) -> (r: Option<u128>)
    requires
        all_digits(d@),
        limit >= 1,
    ensures
        digits_value(d@) < limit ==> r == Some(digits_value(d@) as u128),
        digits_value(d@) >= limit ==> r is None,
        r matches Some(v) ==> v < limit,
{
    let mut v: u128 = 0;
    let mut j: usize = 0;
    while j < d.len()
        invariant
            all_digits(d@),
            j <= d@.len(),
            v == digits_value(d@.take(j as int)),
            v < limit,
        decreases d@.len() - j,
    {
        proof {
            assert(d@.take(j as int + 1).drop_last() =~= d@.take(j as int));
            assert(is_digit(d@[j as int]));
            lemma_digits_prefix(d@, j as int + 1);
        }
        let digit = (d[j] - 48) as u128;
        match v.checked_mul(10) {
            None => return None,
            Some(t) => match t.checked_add(digit) {
                None => return None,
                Some(w) => {
                    if w >= limit {
                        return None;
                    }
                    v = w;
                },
            },
        }
        j = j + 1;
    }
    proof {
        assert(d@.take(j as int) =~= d@);
    }
    Some(v)
}

pub open spec fn decoded_view(r: Result<EngineValue, DecodeError>) -> Result<Cell, DecodeError> {
    match r {
        Ok(v) => Ok(v@),
        Err(e) => Err(e),
    }
}

/// Decodes one raw value under a column's engine type. NULL decodes to the
/// engine's null under every type; a number that does not fit the type is an
/// error, never a truncation.
pub fn decode_value(raw: RawValue, ty: EngineType) -> (r: Result<EngineValue, DecodeError>)
    ensures
        decoded_view(r) == decode_spec(raw@, ty),
{
    match raw {
        RawValue::Null => Ok(EngineValue::Null),
        RawValue::Int(v) => decode_int(v as i128, ty),
        RawValue::UInt(v) => decode_int(v as i128, ty),
        RawValue::Bytes(b) => match ty {
            EngineType::Utf8 => if is_utf8(&b) {
                Ok(EngineValue::Utf8(b))
            } else {
                Err(DecodeError::InvalidValue)
            },
            EngineType::Binary => Ok(EngineValue::Binary(b)),
            EngineType::Decimal128 { precision, scale } => parse_decimal(b, precision, scale),
            _ => Err(DecodeError::TypeMismatch),
        },
        RawValue::Date(y, mo, d, h, mi, s, us) => match ty {
            EngineType::Date32 => if 1 <= mo && mo <= 12 && 1 <= d && d <= 31 && h == 0 && mi == 0 && s == 0
                && us == 0 {
                Ok(EngineValue::Date32 { year: y, month: mo, day: d })
            } else {
                Err(DecodeError::InvalidValue)
            },
            EngineType::Timestamp => if 1 <= mo && mo <= 12 && 1 <= d && d <= 31 && h < 24 && mi < 60 && s < 60
                && us < 1_000_000 {
                Ok(
                    EngineValue::Timestamp {
                        year: y,
                        month: mo,
                        day: d,
                        hour: h,
                        minute: mi,
                        second: s,
                        micros: us,
                    },
                )
            } else {
                Err(DecodeError::InvalidValue)
            },
            _ => Err(DecodeError::TypeMismatch),
        },
        RawValue::Time(n, d, h, mi, s, us) => match ty {
            EngineType::Time64 => if h < 24 && mi < 60 && s < 60 && us < 1_000_000 && (d as u64) * 24 + (h as u64)
                <= u32::MAX as u64 {
                Ok(
                    EngineValue::Time64 {
                        negative: n,
                        hours: ((d as u64) * 24 + (h as u64)) as u32,
                        minutes: mi,
                        seconds: s,
                        micros: us,
                    },
                )
            } else {
                Err(DecodeError::InvalidValue)
            },
            _ => Err(DecodeError::TypeMismatch),
        },
    }
}

fn decode_int(v: i128, ty: EngineType) -> (r: Result<EngineValue, DecodeError>)
    requires
        i64::MIN <= v <= u64::MAX,
    ensures
        match ty {
            EngineType::Int8 | EngineType::Int16 | EngineType::Int32 | EngineType::Int64
            | EngineType::UInt8 | EngineType::UInt16 | EngineType::UInt32 | EngineType::UInt64 => {
                decoded_view(r) == decode_spec(
                    if v <= i64::MAX { RawModel::Int(v as i64) } else { RawModel::UInt(v as u64) },
                    ty,
                )
            },
            _ => r == Err::<EngineValue, DecodeError>(DecodeError::TypeMismatch),
        },
{
    match ty {
        EngineType::Int8 => if i8::MIN as i128 <= v && v <= i8::MAX as i128 { Ok(EngineValue::Int8(v as i8)) } else { Err(DecodeError::OutOfRange) },
        EngineType::Int16 => if i16::MIN as i128 <= v && v <= i16::MAX as i128 { Ok(EngineValue::Int16(v as i16)) } else { Err(DecodeError::OutOfRange) },
        EngineType::Int32 => if i32::MIN as i128 <= v && v <= i32::MAX as i128 { Ok(EngineValue::Int32(v as i32)) } else { Err(DecodeError::OutOfRange) },
        EngineType::Int64 => if i64::MIN as i128 <= v && v <= i64::MAX as i128 { Ok(EngineValue::Int64(v as i64)) } else { Err(DecodeError::OutOfRange) },
        EngineType::UInt8 => if 0 <= v && v <= u8::MAX as i128 { Ok(EngineValue::UInt8(v as u8)) } else { Err(DecodeError::OutOfRange) },
        EngineType::UInt16 => if 0 <= v && v <= u16::MAX as i128 { Ok(EngineValue::UInt16(v as u16)) } else { Err(DecodeError::OutOfRange) },
        EngineType::UInt32 => if 0 <= v && v <= u32::MAX as i128 { Ok(EngineValue::UInt32(v as u32)) } else { Err(DecodeError::OutOfRange) },
        EngineType::UInt64 => if 0 <= v && v <= u64::MAX as i128 { Ok(EngineValue::UInt64(v as u64)) } else { Err(DecodeError::OutOfRange) },
        _ => Err(DecodeError::TypeMismatch),
    }
}

/// How the backend holds an engine value: integers as the protocol's signed
/// or unsigned integers, text and bytes as bytes, dates and times as their
/// fields.
pub open spec fn encode_spec(c: Cell, ty: EngineType) -> RawModel {
    match c {
        Cell::Null => RawModel::Null,
        Cell::Int8(v) => RawModel::Int(v as i64),
        Cell::Int16(v) => RawModel::Int(v as i64),
        Cell::Int32(v) => RawModel::Int(v as i64),
        Cell::Int64(v) => RawModel::Int(v),
        Cell::UInt8(v) => RawModel::UInt(v as u64),
        Cell::UInt16(v) => RawModel::UInt(v as u64),
        Cell::UInt32(v) => RawModel::UInt(v as u64),
        Cell::UInt64(v) => RawModel::UInt(v),
        Cell::Utf8(b) => RawModel::Bytes(b),
        Cell::Binary(b) => RawModel::Bytes(b),
        Cell::Date32 { year, month, day } => RawModel::Date(year, month, day, 0, 0, 0, 0),
        Cell::Timestamp { year, month, day, hour, minute, second, micros } => RawModel::Date(
            year,
            month,
            day,
            hour,
            minute,
            second,
            micros,
        ),
        Cell::Time64 { negative, hours, minutes, seconds, micros } => RawModel::Time(
            negative,
            hours / 24,
            (hours % 24) as u8,
            minutes,
            seconds,
            micros,
        ),
        Cell::Decimal128(v) => RawModel::Bytes(decimal_text(v as int, scale_of(ty) as nat)),
    }
}

pub open spec fn scale_of(ty: EngineType) -> u8 {
    match ty {
        EngineType::Decimal128 { scale, .. } => scale,
        _ => 0,
    }
}

/// The decimal digits of a natural number.
pub open spec fn nat_digits(n: nat) -> Seq<u8>
    decreases n,
{
    if n < 10 {
        seq![(n + 48) as u8]
    } else {
        nat_digits(n / 10).push(((n % 10) + 48) as u8)
    }
}

pub open spec fn zeros(k: nat) -> Seq<u8> {
    Seq::new(k, |i: int| 48u8)
}

/// The digits with zeros in front, to a width of at least `w`.
pub open spec fn padded(d: Seq<u8>, w: nat) -> Seq<u8> {
    if d.len() >= w {
        d
    } else {
        zeros((w - d.len()) as nat) + d
    }
}

/// Decimal text of an unscaled value: the sign, the digits with at least one
/// before the point, and exactly `scale` after it.
pub open spec fn decimal_text(v: int, scale: nat) -> Seq<u8> {
    let p = padded(nat_digits(if v < 0 { -v } else { v } as nat), scale + 1);
    let q = if scale == 0 { p } else { p.insert(p.len() - scale, 46u8) };
    if v < 0 { q.insert(0, 45u8) } else { q }
}

fn push_digits(out: &mut Vec<u8>, n: u128)
    ensures
        final(out)@ == old(out)@ + nat_digits(n as nat),
    decreases n,
{
    if n >= 10 {
        push_digits(out, n / 10);
    }
    out.push(((n % 10) as u8) + 48);
    assert(final(out)@ =~= old(out)@ + nat_digits(n as nat));
}

fn decimal_bytes(v: i128, scale: u8) -> (r: Vec<u8>)
    ensures
        r@ == decimal_text(v as int, scale as nat),
{
    let mag: u128 = if v < 0 { ((-(v + 1)) as u128) + 1 } else { v as u128 };
    let mut p: Vec<u8> = Vec::new();
    push_digits(&mut p, mag);
    let ghost d = p@;
    assert(d =~= nat_digits(mag as nat));
    let w: usize = scale as usize + 1;
    let ghost mut k: nat = 0;
    while p.len() < w
        invariant
            p@ == zeros(k) + d,
            w == scale as usize + 1,
            k == 0 || p@.len() <= w,
        decreases w - p@.len(),
    {
        p.insert(0, 48u8);
        proof {
            k = k + 1;
            assert(p@ =~= zeros(k) + d);
        }
    }
    proof {
        if d.len() >= w {
            assert(k == 0);
            assert(p@ =~= d);
        } else {
            assert(p@.len() == w);
            assert(k == w - d.len());
        }
        assert(p@ =~= padded(d, w as nat));
    }
    if scale > 0 {
        let at = p.len() - scale as usize;
        p.insert(at, 46u8);
    }
    if v < 0 {
        p.insert(0, 45u8);
    }
    p
}

/// Encodes an engine value as the backend holds it; a decimal is written as
/// text with the scale of `ty`.
pub fn encode_value(v: EngineValue, ty: EngineType) -> (r: RawValue)
    ensures
        r@ == encode_spec(v@, ty),
{
    match v {
        EngineValue::Null => RawValue::Null,
        EngineValue::Int8(x) => RawValue::Int(x as i64),
        EngineValue::Int16(x) => RawValue::Int(x as i64),
        EngineValue::Int32(x) => RawValue::Int(x as i64),
        EngineValue::Int64(x) => RawValue::Int(x),
        EngineValue::UInt8(x) => RawValue::UInt(x as u64),
        EngineValue::UInt16(x) => RawValue::UInt(x as u64),
        EngineValue::UInt32(x) => RawValue::UInt(x as u64),
        EngineValue::UInt64(x) => RawValue::UInt(x),
        EngineValue::Utf8(b) => RawValue::Bytes(b),
        EngineValue::Binary(b) => RawValue::Bytes(b),
        EngineValue::Date32 { year, month, day } => RawValue::Date(year, month, day, 0, 0, 0, 0),
        EngineValue::Timestamp { year, month, day, hour, minute, second, micros } => RawValue::Date(
            year,
            month,
            day,
            hour,
            minute,
            second,
            micros,
        ),
        EngineValue::Time64 { negative, hours, minutes, seconds, micros } => RawValue::Time(
            negative,
            hours / 24,
            (hours % 24) as u8,
            minutes,
            seconds,
            micros,
        ),
        EngineValue::Decimal128(x) => RawValue::Bytes(
            decimal_bytes(
                x,
                match ty {
                    EngineType::Decimal128 { scale, .. } => scale,
                    _ => 0,
                },
            ),
        ),
    }
}

/// The engine type that a value belongs to, and whether its fields are in
/// range (text well-formed, dates and times with valid fields).
pub open spec fn cell_fits(c: Cell, ty: EngineType) -> bool {
    match c {
        Cell::Null => true,
        Cell::Int8(_) => ty == EngineType::Int8,
        Cell::Int16(_) => ty == EngineType::Int16,
        Cell::Int32(_) => ty == EngineType::Int32,
        Cell::Int64(_) => ty == EngineType::Int64,
        Cell::UInt8(_) => ty == EngineType::UInt8,
        Cell::UInt16(_) => ty == EngineType::UInt16,
        Cell::UInt32(_) => ty == EngineType::UInt32,
        Cell::UInt64(_) => ty == EngineType::UInt64,
        Cell::Utf8(b) => ty == EngineType::Utf8 && utf8_valid(b),
        Cell::Binary(_) => ty == EngineType::Binary,
        Cell::Date32 { month, day, .. } => ty == EngineType::Date32 && valid_date(month, day),
        Cell::Timestamp { month, day, hour, minute, second, micros, .. } => ty == EngineType::Timestamp
            && valid_date(month, day) && valid_clock(hour, minute, second, micros),
        Cell::Time64 { minutes, seconds, micros, .. } => ty == EngineType::Time64 && valid_clock(
            0,
            minutes,
            seconds,
            micros,
        ),
        Cell::Decimal128(v) => match ty {
            EngineType::Decimal128 { precision, scale } => valid_decimal_type(precision, scale) && -pow10(
                precision as nat,
            ) < v < pow10(precision as nat),
            _ => false,
        },
    }
}

proof fn lemma_nat_digits(n: nat)
    ensures
        all_digits(nat_digits(n)),
        digits_value(nat_digits(n)) == n,
        nat_digits(n).len() >= 1,
    decreases n,
{
    if n >= 10 {
        lemma_nat_digits(n / 10);
        let d = nat_digits(n);
        assert(d.drop_last() =~= nat_digits(n / 10));
        assert(d.last() as int == n % 10 + 48);
        assert((n / 10) * 10 + n % 10 == n);
        assert(digits_value(d) == digits_value(d.drop_last()) * 10 + (d.last() - 48));
        assert forall|i: int| 0 <= i < d.len() implies is_digit(#[trigger] d[i]) by {
            if i < d.len() - 1 {
                assert(d[i] == nat_digits(n / 10)[i]);
            }
        }
    } else {
        let d = nat_digits(n);
        assert(d.drop_last() =~= Seq::<u8>::empty());
        assert(d.last() as int == n + 48);
        assert(digits_value(d.drop_last()) == 0);
        assert(digits_value(d) == digits_value(d.drop_last()) * 10 + (d.last() - 48));
    }
}

proof fn lemma_zeros_value(k: nat)
    ensures
        digits_value(zeros(k)) == 0,
    decreases k,
{
    if k > 0 {
        assert(zeros(k).drop_last() =~= zeros((k - 1) as nat));
        lemma_zeros_value((k - 1) as nat);
    }
}

/// Leading zeros do not change the value of digits.
proof fn lemma_leading_zeros(k: nat, d: Seq<u8>)
    ensures
        digits_value(zeros(k) + d) == digits_value(d),
    decreases d.len(),
{
    if d.len() == 0 {
        assert(zeros(k) + d =~= zeros(k));
        lemma_zeros_value(k);
    } else {
        assert((zeros(k) + d).drop_last() =~= zeros(k) + d.drop_last());
        lemma_leading_zeros(k, d.drop_last());
    }
}

proof fn lemma_decimal_round_trip(v: int, precision: u8, scale: u8)
    requires
        valid_decimal_type(precision, scale),
        -pow10(precision as nat) < v < pow10(precision as nat),
        i128::MIN <= v <= i128::MAX,
    ensures
        decimal_spec(decimal_text(v, scale as nat), precision, scale) == Ok::<Cell, DecodeError>(
            Cell::Decimal128(v as i128),
        ),
{
    let s = scale as nat;
    let m: nat = if v < 0 { -v } else { v } as nat;
    let d = nat_digits(m);
    lemma_nat_digits(m);
    let p = padded(d, s + 1);
    let q = if s == 0 { p } else { p.insert(p.len() - s, 46u8) };
    let text = decimal_text(v, s);
    assert(all_digits(p) && digits_value(p) == m) by {
        if d.len() < s + 1 {
            let z = zeros((s + 1 - d.len()) as nat);
            lemma_leading_zeros((s + 1 - d.len()) as nat, d);
            assert forall|i: int| 0 <= i < p.len() implies is_digit(#[trigger] p[i]) by {
                if i >= z.len() {
                    assert(p[i] == d[i - z.len()]);
                }
            }
        }
    }
    assert(p.len() >= s + 1);
    assert(q.len() >= 1 && is_digit(q[0]));
    if v < 0 {
        assert(decimal_negative(text));
        assert(decimal_body(text) =~= q);
    } else {
        assert(!decimal_negative(text));
    }
    if s > 0 {
        let k = q.len() - s - 1;
        assert(k == p.len() - s);
        assert(q[k] == 46u8);
        assert(q.remove(k) =~= p);
    }
    assert(decimal_digits(text, s) == Some(p));
}

/// Encoding a value of a column's type in the backend and decoding it under
/// that type gives the value back, NULL and decimals included.
pub proof fn lemma_round_trip(c: Cell, ty: EngineType)
    requires
        cell_fits(c, ty),
    ensures
        decode_spec(encode_spec(c, ty), ty) == Ok::<Cell, DecodeError>(c),
{
    match c {
        Cell::Time64 { negative, hours, minutes, seconds, micros } => {
            assert((hours / 24) as int * 24 + (hours % 24) == hours);
        },
        Cell::Decimal128(v) => {
            if let EngineType::Decimal128 { precision, scale } = ty {
                lemma_decimal_round_trip(v as int, precision, scale);
            }
        },
        _ => {},
    }
}

} // verus!
