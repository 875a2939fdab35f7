use vstd::prelude::*;

use vstd::utf8::{decode_utf8, valid_utf8};

use crate::error::{decimal, lift, IoErrorKind, u64_to_decimal, u8_to_decimal, Error, ErrorView};
use crate::ext::{
    be_value, is_vlq, lemma_c_string_read, lemma_pow128_le, lemma_pow128_values, lemma_unum_read,
    lemma_vlq_fits, lemma_vlq_prefix, lemma_vlq_read, pow128, string_from_utf8, take_bytes,
    take_c_string, take_u8, take_unum, take_vlq, vlq_len, vlq_value, ReadExt,
};

verus! {

/// The type of a column, as its schema names it.
#[derive(Debug, Clone, Copy, PartialEq, Eq, Hash, Structural)]
pub enum ValueType {
    UShort,
    UInt,
    ULong,
    Unknown19,
    UNum,
    UNumFixed,
    Blob,
    BlobFixed,
    Text,
    TextFixed,
}

impl ValueType {
    /// The byte that names this type in a schema.
    pub open spec fn spec_code(self) -> u8 {
        match self {
            ValueType::UShort => 16,
            ValueType::UInt => 17,
            ValueType::ULong => 18,
            ValueType::Unknown19 => 19,
            ValueType::UNum => 32,
            ValueType::UNumFixed => 33,
            ValueType::Blob => 48,
            ValueType::BlobFixed => 49,
            ValueType::Text => 64,
            ValueType::TextFixed => 65,
        }
    }

    /// The type that `code` names, if any.
    pub open spec fn spec_from_code(code: u8) -> Option<ValueType> {
        if code == 16 {
            Some(ValueType::UShort)
        } else if code == 17 {
            Some(ValueType::UInt)
        } else if code == 18 {
            Some(ValueType::ULong)
        } else if code == 19 {
            Some(ValueType::Unknown19)
        } else if code == 32 {
            Some(ValueType::UNum)
        } else if code == 33 {
            Some(ValueType::UNumFixed)
        } else if code == 48 {
            Some(ValueType::Blob)
        } else if code == 49 {
            Some(ValueType::BlobFixed)
        } else if code == 64 {
            Some(ValueType::Text)
        } else if code == 65 {
            Some(ValueType::TextFixed)
        } else {
            None
        }
    }

    /// Whether values of this type have the size that their schema fixes.
    pub open spec fn spec_is_fixed(self) -> bool {
        self == ValueType::UNumFixed || self == ValueType::BlobFixed || self
            == ValueType::TextFixed
    }

    /// Whether values of this type have the size that their schema fixes.
    pub fn is_fixed(&self) -> (r: bool)
        ensures
            r == self.spec_is_fixed(),
    {
        match self {
            ValueType::UNumFixed | ValueType::BlobFixed | ValueType::TextFixed => true,
            _ => false,
        }
    }

    /// The byte that names this type in a schema.
    pub fn code(&self) -> (r: u8)
        ensures
            r == self.spec_code(),
    {
        match self {
            ValueType::UShort => 16,
            ValueType::UInt => 17,
            ValueType::ULong => 18,
            ValueType::Unknown19 => 19,
            ValueType::UNum => 32,
            ValueType::UNumFixed => 33,
            ValueType::Blob => 48,
            ValueType::BlobFixed => 49,
            ValueType::Text => 64,
            ValueType::TextFixed => 65,
        }
    }

    /// The type that `code` names, or `None` where it names none.
    pub fn try_from_code(code: u8) -> (r: Option<ValueType>)
        ensures
            r == Self::spec_from_code(code),
    {
        match code {
            16 => Some(ValueType::UShort),
            17 => Some(ValueType::UInt),
            18 => Some(ValueType::ULong),
            19 => Some(ValueType::Unknown19),
            32 => Some(ValueType::UNum),
            33 => Some(ValueType::UNumFixed),
            48 => Some(ValueType::Blob),
            49 => Some(ValueType::BlobFixed),
            64 => Some(ValueType::Text),
            65 => Some(ValueType::TextFixed),
            _ => None,
        }
    }
}

/// A value read from a column.
#[derive(Debug, PartialEq, Eq, Hash)]
pub enum Value {
    UShort(u16),
    UInt(u32),
    ULong(u64),
    Unknown19,
    UNum(u64),
    UNumFixed(u64),
    Blob(Vec<u8>),
    BlobFixed(Vec<u8>),
    Text(String),
    TextFixed(String),
}

/// A [`Value`] as contracts speak of it: bytes and text as sequences.
pub enum ValueView {
    UShort(u16),
    UInt(u32),
    ULong(u64),
    Unknown19,
    UNum(u64),
    UNumFixed(u64),
    Blob(Seq<u8>),
    BlobFixed(Seq<u8>),
    Text(Seq<char>),
    TextFixed(Seq<char>),
}

impl View for Value {
    type V = ValueView;

    open spec fn view(&self) -> ValueView {
        match self {
            Value::UShort(v) => ValueView::UShort(*v),
            Value::UInt(v) => ValueView::UInt(*v),
            Value::ULong(v) => ValueView::ULong(*v),
            Value::Unknown19 => ValueView::Unknown19,
            Value::UNum(v) => ValueView::UNum(*v),
            Value::UNumFixed(v) => ValueView::UNumFixed(*v),
            Value::Blob(b) => ValueView::Blob(b@),
            Value::BlobFixed(b) => ValueView::BlobFixed(b@),
            Value::Text(s) => ValueView::Text(s@),
            Value::TextFixed(s) => ValueView::TextFixed(s@),
        }
    }
}

impl Clone for Value {
    /// A copy of the value, bytes and text included.
    fn clone(&self) -> (r: Self)
        ensures
            r@ == self@,
    {
        match self {
            Value::UShort(v) => Value::UShort(*v),
            Value::UInt(v) => Value::UInt(*v),
            Value::ULong(v) => Value::ULong(*v),
            Value::Unknown19 => Value::Unknown19,
            Value::UNum(v) => Value::UNum(*v),
            Value::UNumFixed(v) => Value::UNumFixed(*v),
            Value::Blob(b) => {
                let c = b.clone();
                assert(c@ =~= b@);
                Value::Blob(c)
            },
            Value::BlobFixed(b) => {
                let c = b.clone();
                assert(c@ =~= b@);
                Value::BlobFixed(c)
            },
            Value::Text(t) => Value::Text(t.clone()),
            Value::TextFixed(t) => Value::TextFixed(t.clone()),
        }
    }
}

impl ValueView {
    /// The type of column that this value is read from.
    pub open spec fn value_type(self) -> ValueType {
        match self {
            ValueView::UShort(_) => ValueType::UShort,
            ValueView::UInt(_) => ValueType::UInt,
            ValueView::ULong(_) => ValueType::ULong,
            ValueView::Unknown19 => ValueType::Unknown19,
            ValueView::UNum(_) => ValueType::UNum,
            ValueView::UNumFixed(_) => ValueType::UNumFixed,
            ValueView::Blob(_) => ValueType::Blob,
            ValueView::BlobFixed(_) => ValueType::BlobFixed,
            ValueView::Text(_) => ValueType::Text,
            ValueView::TextFixed(_) => ValueType::TextFixed,
        }
    }

    /// The value as a `u16`: a `UShort`, or an unsized number that fits.
    pub open spec fn as_u16(self) -> Option<u16> {
        match self {
            ValueView::UShort(v) => Some(v),
            ValueView::UNum(v) | ValueView::UNumFixed(v) => if v <= u16::MAX {
                Some(v as u16)
            } else {
                None
            },
            _ => None,
        }
    }

    /// The value as a `u32`: a `UInt`, or an unsized number that fits.
    pub open spec fn as_u32(self) -> Option<u32> {
        match self {
            ValueView::UInt(v) => Some(v),
            ValueView::UNum(v) | ValueView::UNumFixed(v) => if v <= u32::MAX {
                Some(v as u32)
            } else {
                None
            },
            _ => None,
        }
    }

    /// The value as a `u64`: a `ULong` or an unsized number.
    pub open spec fn as_u64(self) -> Option<u64> {
        match self {
            ValueView::ULong(v) | ValueView::UNum(v) | ValueView::UNumFixed(v) => Some(v),
            _ => None,
        }
    }

    /// The value as a number of any width.
    pub open spec fn as_unum(self) -> Option<u64> {
        match self {
            ValueView::UShort(v) => Some(v as u64),
            ValueView::UInt(v) => Some(v as u64),
            ValueView::ULong(v) | ValueView::UNum(v) | ValueView::UNumFixed(v) => Some(v),
            _ => None,
        }
    }

    /// The bytes of a blob.
    pub open spec fn as_blob(self) -> Option<Seq<u8>> {
        match self {
            ValueView::Blob(b) | ValueView::BlobFixed(b) => Some(b),
            _ => None,
        }
    }

    /// The characters of a text.
    pub open spec fn as_text(self) -> Option<Seq<char>> {
        match self {
            ValueView::Text(s) | ValueView::TextFixed(s) => Some(s),
            _ => None,
        }
    }
}

/// The bytes of `b` in decimal, separated by commas.
pub open spec fn decimals_joined(b: Seq<u8>) -> Seq<char>
    decreases b.len(),
{
    if b.len() == 0 {
        Seq::empty()
    } else if b.len() == 1 {
        decimal(b[0] as nat)
    } else {
        decimals_joined(b.drop_last()) + ","@ + decimal(b.last() as nat)
    }
}

impl ValueView {
    /// The text of the value in a CSV field: a number in decimal, the bytes of a
    /// blob in decimal separated by commas, a text as it is, and `[Unknown]`
    /// for the rest.
    pub open spec fn csv_text(self) -> Seq<char> {
        match self.as_unum() {
            Some(n) => decimal(n as nat),
            None => match self.as_blob() {
                Some(b) => decimals_joined(b),
                None => match self.as_text() {
                    Some(t) => t,
                    None => "[Unknown]"@,
                },
            },
        }
    }
}

impl Value {
    /// The text of the value in a CSV field: a number in decimal, the bytes of a
    /// blob in decimal separated by commas, a text as it is, and `[Unknown]`
    /// for the rest.
    pub fn csv_field(&self) -> (r: String)
        ensures
            r@ == self@.csv_text(),
    {
        if let Some(n) = self.unum() {
            return u64_to_decimal(n);
        }
        if let Some(b) = self.blob() {
            let mut out = String::new();
            let mut i: usize = 0;
            while i < b.len()
                invariant
                    i <= b@.len(),
                    out@ == decimals_joined(b@.take(i as int)),
                decreases b@.len() - i,
            {
                let ghost prev = b@.take(i as int);
                assert(b@.take(i + 1).drop_last() =~= prev);
                if i > 0 {
                    out.append(",");
                }
                out.append(u8_to_decimal(b[i]).as_str());
                proof {
                    if i == 0 {
                        assert(prev =~= Seq::<u8>::empty());
                        assert(out@ =~= decimal(b@[0] as nat));
                    } else {
                        assert(out@ =~= decimals_joined(prev) + ","@ + decimal(b@[i as int] as nat));
                    }
                }
                i = i + 1;
            }
            assert(b@.take(b@.len() as int) =~= b@);
            return out;
        }
        if let Some(t) = self.text() {
            return String::from_str(t);
        }
        String::from_str("[Unknown]")
    }

    /// The value as a `u16`: a `UShort`, or an unsized number that fits.
    pub fn u16(&self) -> (r: Option<u16>)
        ensures
            r == self@.as_u16(),
    {
        match self {
            Value::UShort(v) => Some(*v),
            Value::UNum(v) | Value::UNumFixed(v) => if *v <= u16::MAX as u64 {
                Some(*v as u16)
            } else {
                None
            },
            _ => None,
        }
    }

    /// The value as a `u32`: a `UInt`, or an unsized number that fits.
    pub fn u32(&self) -> (r: Option<u32>)
        ensures
            r == self@.as_u32(),
    {
        match self {
            Value::UInt(v) => Some(*v),
            Value::UNum(v) | Value::UNumFixed(v) => if *v <= u32::MAX as u64 {
                Some(*v as u32)
            } else {
                None
            },
            _ => None,
        }
    }

    /// The value as a `u64`: a `ULong` or an unsized number.
    pub fn u64(&self) -> (r: Option<u64>)
        ensures
            r == self@.as_u64(),
    {
        match self {
            Value::ULong(v) | Value::UNum(v) | Value::UNumFixed(v) => Some(*v),
            _ => None,
        }
    }

    /// The value as a number of any width.
    pub fn unum(&self) -> (r: Option<u64>)
        ensures
            r == self@.as_unum(),
    {
        match self {
            Value::UShort(v) => Some(*v as u64),
            Value::UInt(v) => Some(*v as u64),
            Value::ULong(v) | Value::UNum(v) | Value::UNumFixed(v) => Some(*v),
            _ => None,
        }
    }

    /// The bytes of a blob.
    pub fn blob(&self) -> (r: Option<&[u8]>)
        ensures
            r is Some <==> self@.as_blob() is Some,
            r matches Some(b) ==> self@.as_blob() == Some(b@),
    {
        match self {
            Value::Blob(b) | Value::BlobFixed(b) => Some(b.as_slice()),
            _ => None,
        }
    }

    /// The characters of a text.
    pub fn text(&self) -> (r: Option<&str>)
        ensures
            r is Some <==> self@.as_text() is Some,
            r matches Some(s) ==> self@.as_text() == Some(s@),
    {
        match self {
            Value::Text(s) | Value::TextFixed(s) => Some(s.as_str()),
            _ => None,
        }
    }
}

/// How a column is stored: the type of its values, and, for the types of fixed
/// size, that size.
#[derive(Debug, Clone, Copy, PartialEq, Eq, Hash, Structural)]
pub struct Schema {
    pub value_type: ValueType,
    pub fixed_size: Option<u64>,
}

impl View for Schema {
    type V = Schema;

    open spec fn view(&self) -> Schema {
        *self
    }
}

impl Schema {
    /// A schema as `parse` gives them: a fixed size exactly where the type has one.
    pub open spec fn well_formed(self) -> bool {
        self.fixed_size is Some <==> self.value_type.spec_is_fixed()
    }
}

/// Reading a schema from the front of `s`: a type byte, then, for a type of
/// fixed size, that size as a variable-length quantity of at most 8 bytes.
pub open spec fn take_schema(s: Seq<u8>) -> (Result<Schema, ErrorView>, Seq<u8>) {
    match take_u8(s) {
        (Ok(code), rest) => match ValueType::spec_from_code(code) {
            Some(t) => if t.spec_is_fixed() {
                lift(take_vlq(rest, 8), |n: u64| Schema { value_type: t, fixed_size: Some(n) })
            } else {
                (Ok(Schema { value_type: t, fixed_size: None }), rest)
            },
            None => (Err(ErrorView::InvalidSchemaType(code)), rest),
        },
        (Err(e), rest) => (Err(ErrorView::IoError(e)), rest),
    }
}

/// Reading a value of the column that `schema` describes from the front of `s`.
pub open spec fn take_value(schema: Schema, s: Seq<u8>) -> (Result<ValueView, ErrorView>, Seq<u8>) {
    match schema.value_type {
        ValueType::UShort => lift(take_vlq(s, 2), |v: u64| ValueView::UShort(v as u16)),
        ValueType::UInt => lift(take_vlq(s, 4), |v: u64| ValueView::UInt(v as u32)),
        ValueType::ULong => lift(take_vlq(s, 8), |v: u64| ValueView::ULong(v)),
        ValueType::UNum => (Err(ErrorView::Unimplemented("reading non-fixed UNum value"@)), s),
        ValueType::UNumFixed => match schema.fixed_size {
            Some(n) => lift(take_unum(s, (n as usize) as nat), |v: u64| ValueView::UNumFixed(v)),
            None => (Err(ErrorView::InvalidSchema), s),
        },
        ValueType::Blob => match take_vlq(s, 8) {
            (Ok(len), rest) => lift(
                take_bytes(rest, (len as usize) as nat),
                |b: Seq<u8>| ValueView::Blob(b),
            ),
            (Err(e), rest) => (Err(ErrorView::IoError(e)), rest),
        },
        ValueType::BlobFixed => match schema.fixed_size {
            Some(n) => lift(
                take_bytes(s, (n as usize) as nat),
                |b: Seq<u8>| ValueView::BlobFixed(b),
            ),
            None => (Err(ErrorView::InvalidSchema), s),
        },
        ValueType::Text => lift(take_c_string(s), |t: Seq<char>| ValueView::Text(t)),
        ValueType::TextFixed => match schema.fixed_size {
            Some(n) => match take_bytes(s, (n as usize) as nat) {
                (Ok(b), rest) => if valid_utf8(b) {
                    (Ok(ValueView::TextFixed(decode_utf8(b))), rest)
                } else {
                    (Err(ErrorView::FromUtf8Error), rest)
                },
                (Err(e), rest) => (Err(ErrorView::IoError(e)), rest),
            },
            None => (Err(ErrorView::InvalidSchema), s),
        },
        ValueType::Unknown19 => lift(take_bytes(s, 8), |b: Seq<u8>| ValueView::Unknown19),
    }
}

/// The code of a type names that type, and a code that names a type is that
/// type's code.
pub proof fn lemma_code_round_trip(t: ValueType, code: u8)
    ensures
        ValueType::spec_from_code(t.spec_code()) == Some(t),
        ValueType::spec_from_code(code) matches Some(u) ==> u.spec_code() == code,
{
}

/// A value that reads as a `u16`, a `u32` or a `u64` reads as the same number
/// through `unum`.
pub proof fn lemma_unum_agrees(v: ValueView)
    ensures
        v.as_u16() matches Some(x) ==> v.as_unum() == Some(x as u64),
        v.as_u32() matches Some(x) ==> v.as_unum() == Some(x as u64),
        v.as_u64() matches Some(x) ==> v.as_unum() == Some(x),
{
}

/// A schema that `parse` reads holds a fixed size exactly where its type has one.
pub proof fn lemma_parsed_schema_well_formed(s: Seq<u8>)
    ensures
        take_schema(s).0 matches Ok(schema) ==> schema.well_formed(),
{
}

/// A value read from a column has the type of the column.
pub proof fn lemma_value_has_schema_type(schema: Schema, s: Seq<u8>)
    ensures
        take_value(schema, s).0 matches Ok(v) ==> v.value_type() == schema.value_type,
{
}

/// Reading a value of a well-formed schema never fails with `InvalidSchema`.
pub proof fn lemma_well_formed_schema_is_readable(schema: Schema, s: Seq<u8>)
    requires
        schema.well_formed(),
    ensures
        !(take_value(schema, s).0 matches Err(ErrorView::InvalidSchema)),
{
}

/// A `UShort` or `UInt` value is the whole number that its variable-length
/// quantity writes: the narrowing loses nothing.
pub proof fn lemma_short_values_exact(schema: Schema, s: Seq<u8>)
    ensures
        take_value(schema, s).0 matches Ok(ValueView::UShort(v)) ==> vlq_len(s) matches Some(n)
            && v as nat == vlq_value(s.take(n as int)),
        take_value(schema, s).0 matches Ok(ValueView::UInt(v)) ==> vlq_len(s) matches Some(n)
            && v as nat == vlq_value(s.take(n as int)),
{
    reveal_with_fuel(pow128, 5);
    lemma_vlq_fits(s, 2);
    lemma_vlq_fits(s, 4);
}

/// The type byte of a schema names each type by a fixed number: 16 to 19 the
/// short, int and long numbers and the 19 type, 32 and 33 the unsized
/// numbers, 48 and 49 the blobs, 64 and 65 the texts; the second of each pair
/// is the fixed-size one, and no other byte names a type.
pub proof fn lemma_code_table(code: u8)
    ensures
        ValueType::spec_from_code(16) == Some(ValueType::UShort),
        ValueType::spec_from_code(17) == Some(ValueType::UInt),
        ValueType::spec_from_code(18) == Some(ValueType::ULong),
        ValueType::spec_from_code(19) == Some(ValueType::Unknown19),
        ValueType::spec_from_code(32) == Some(ValueType::UNum),
        ValueType::spec_from_code(33) == Some(ValueType::UNumFixed),
        ValueType::spec_from_code(48) == Some(ValueType::Blob),
        ValueType::spec_from_code(49) == Some(ValueType::BlobFixed),
        ValueType::spec_from_code(64) == Some(ValueType::Text),
        ValueType::spec_from_code(65) == Some(ValueType::TextFixed),
        !(16 <= code <= 19 || code == 32 || code == 33 || code == 48 || code == 49 || code == 64
            || code == 65) ==> ValueType::spec_from_code(code) is None,
        ValueType::UShort.spec_code() == 16,
        ValueType::UInt.spec_code() == 17,
        ValueType::ULong.spec_code() == 18,
        ValueType::Unknown19.spec_code() == 19,
        ValueType::UNum.spec_code() == 32,
        ValueType::UNumFixed.spec_code() == 33,
        ValueType::Blob.spec_code() == 48,
        ValueType::BlobFixed.spec_code() == 49,
        ValueType::Text.spec_code() == 64,
        ValueType::TextFixed.spec_code() == 65,
{
}

/// Numbers narrow exactly where they fit: an unsized number, fixed-size or
/// not, reads as a `u16` or a `u32` where it fits and not otherwise, and as
/// itself through `u64` and `unum`; a short, int or long reads as itself
/// through its own accessor and through `unum`.
pub proof fn lemma_number_accessors(v: u64, x: u16, y: u32)
    ensures
        v <= u16::MAX ==> ValueView::UNum(v).as_u16() == Some(v as u16) && ValueView::UNumFixed(
            v,
        ).as_u16() == Some(v as u16),
        v > u16::MAX ==> ValueView::UNum(v).as_u16() is None && ValueView::UNumFixed(
            v,
        ).as_u16() is None,
        v <= u32::MAX ==> ValueView::UNum(v).as_u32() == Some(v as u32) && ValueView::UNumFixed(
            v,
        ).as_u32() == Some(v as u32),
        v > u32::MAX ==> ValueView::UNum(v).as_u32() is None && ValueView::UNumFixed(
            v,
        ).as_u32() is None,
        ValueView::UNum(v).as_u64() == Some(v),
        ValueView::UNumFixed(v).as_u64() == Some(v),
        ValueView::ULong(v).as_u64() == Some(v),
        ValueView::UNum(v).as_unum() == Some(v),
        ValueView::UNumFixed(v).as_unum() == Some(v),
        ValueView::ULong(v).as_unum() == Some(v),
        ValueView::UShort(x).as_u16() == Some(x),
        ValueView::UShort(x).as_unum() == Some(x as u64),
        ValueView::UInt(y).as_u32() == Some(y),
        ValueView::UInt(y).as_unum() == Some(y as u64),
{
}

/// Blobs and texts read as their bytes and characters, fixed-size or not, and
/// are no numbers.
pub proof fn lemma_blob_text_accessors(b: Seq<u8>, t: Seq<char>)
    ensures
        ValueView::Blob(b).as_blob() == Some(b),
        ValueView::BlobFixed(b).as_blob() == Some(b),
        ValueView::Text(t).as_text() == Some(t),
        ValueView::TextFixed(t).as_text() == Some(t),
        ValueView::Blob(b).as_unum() is None && ValueView::BlobFixed(b).as_unum() is None,
        ValueView::Text(t).as_unum() is None && ValueView::TextFixed(t).as_unum() is None,
{
}

/// Short, int and long values are variable-length quantities of at most 2, 4
/// and 8 bytes: where the first `n` bytes of `s` are one (each but the last
/// with its high bit set, the last with it clear), a value of such a column is
/// the whole number that they write and what follows them is left; where it
/// runs past the column's limit, the read fails with `VlqExceedsMaxSize` after
/// that many bytes.
pub proof fn lemma_number_values(schema: Schema, s: Seq<u8>, n: nat)
    requires
        1 <= n <= s.len(),
        forall|j: int| 0 <= j < n - 1 ==> #[trigger] s[j] >= 0x80,
        s[n - 1] < 0x80,
    ensures
        schema.value_type == ValueType::ULong && n <= 8 ==> take_value(schema, s) == (
            Ok::<ValueView, ErrorView>(ValueView::ULong(vlq_value(s.take(n as int)) as u64)),
            s.skip(n as int),
        ) && vlq_value(s.take(n as int)) <= u64::MAX,
        schema.value_type == ValueType::UInt && n <= 4 ==> take_value(schema, s) == (
            Ok::<ValueView, ErrorView>(ValueView::UInt(vlq_value(s.take(n as int)) as u32)),
            s.skip(n as int),
        ) && vlq_value(s.take(n as int)) <= u32::MAX,
        schema.value_type == ValueType::UShort && n <= 2 ==> take_value(schema, s) == (
            Ok::<ValueView, ErrorView>(ValueView::UShort(vlq_value(s.take(n as int)) as u16)),
            s.skip(n as int),
        ) && vlq_value(s.take(n as int)) <= u16::MAX,
        schema.value_type == ValueType::ULong && n > 8 ==> take_value(schema, s) == (
            Err::<ValueView, ErrorView>(ErrorView::IoError(IoErrorKind::VlqExceedsMaxSize)),
            s.skip(8),
        ),
        schema.value_type == ValueType::UInt && n > 4 ==> take_value(schema, s) == (
            Err::<ValueView, ErrorView>(ErrorView::IoError(IoErrorKind::VlqExceedsMaxSize)),
            s.skip(4),
        ),
        schema.value_type == ValueType::UShort && n > 2 ==> take_value(schema, s) == (
            Err::<ValueView, ErrorView>(ErrorView::IoError(IoErrorKind::VlqExceedsMaxSize)),
            s.skip(2),
        ),
{
    lemma_vlq_read(s, n, 2);
    lemma_vlq_read(s, n, 4);
    lemma_vlq_read(s, n, 8);
    lemma_pow128_values();
    if n <= 8 {
        lemma_pow128_le(n, 8);
    }
    if n <= 4 {
        lemma_pow128_le(n, 4);
    }
    if n <= 2 {
        lemma_pow128_le(n, 2);
    }
}

impl Schema {
    /// Reads a schema: a type byte, then, for a type of fixed size, that size.
    pub fn parse<R: ReadExt>(reader: &mut R) -> (r: Result<Schema, Error>)
        ensures
            (crate::error::outcome(r), final(reader).unread()) == take_schema(old(reader).unread()),
    {
        let code = match reader.read_u8() {
            Ok(c) => c,
            Err(e) => return Err(Error::IoError(e)),
        };
        let value_type = match ValueType::try_from_code(code) {
            Some(t) => t,
            None => return Err(Error::InvalidSchemaType(code)),
        };
        let fixed_size = if value_type.is_fixed() {
            match reader.read_vlq(8) {
                Ok(n) => Some(n),
                Err(e) => return Err(Error::IoError(e)),
            }
        } else {
            None
        };
        Ok(Schema { value_type, fixed_size })
    }

    /// Reads a value of the column that this schema describes.
    pub fn read_value<R: ReadExt>(&self, reader: &mut R) -> (r: Result<Value, Error>)
        ensures
            (crate::error::outcome(r), final(reader).unread()) == take_value(
                *self,
                old(reader).unread(),
            ),
    {
        match (self.value_type, self.fixed_size) {
            (ValueType::UShort, _) => match reader.read_vlq(2) {
                Ok(v) => Ok(Value::UShort(v as u16)),
                Err(e) => Err(Error::IoError(e)),
            },
            (ValueType::UInt, _) => match reader.read_vlq(4) {
                Ok(v) => Ok(Value::UInt(v as u32)),
                Err(e) => Err(Error::IoError(e)),
            },
            (ValueType::ULong, _) => match reader.read_vlq(8) {
                Ok(v) => Ok(Value::ULong(v)),
                Err(e) => Err(Error::IoError(e)),
            },
            (ValueType::UNum, _) => Err(Error::Unimplemented("reading non-fixed UNum value")),
            (ValueType::UNumFixed, Some(fixed_size)) => match reader.read_unum(
                fixed_size as usize,
            ) {
                Ok(v) => Ok(Value::UNumFixed(v)),
                Err(e) => Err(Error::IoError(e)),
            },
            (ValueType::Blob, _) => {
                let len = match reader.read_vlq(8) {
                    Ok(len) => len,
                    Err(e) => return Err(Error::IoError(e)),
                };
                match reader.read_blob(len as usize) {
                    Ok(b) => Ok(Value::Blob(b)),
                    Err(e) => Err(Error::IoError(e)),
                }
            },
            (ValueType::BlobFixed, Some(fixed_size)) => match reader.read_blob(
                fixed_size as usize,
            ) {
                Ok(b) => Ok(Value::BlobFixed(b)),
                Err(e) => Err(Error::IoError(e)),
            },
            (ValueType::Text, _) => match reader.read_null_terminated_string() {
                Ok(s) => Ok(Value::Text(s)),
                Err(e) => Err(Error::IoError(e)),
            },
            (ValueType::TextFixed, Some(fixed_size)) => {
                let buf = match reader.read_blob(fixed_size as usize) {
                    Ok(b) => b,
                    Err(e) => return Err(Error::IoError(e)),
                };
                match string_from_utf8(buf) {
                    Ok(s) => Ok(Value::TextFixed(s)),
                    Err(e) => Err(Error::FromUtf8Error(e)),
                }
            },
            (ValueType::Unknown19, _) => match reader.read_exact(8) {
                Ok(_) => Ok(Value::Unknown19),
                Err(e) => Err(Error::IoError(e)),
            },
            _ => Err(Error::InvalidSchema),
        }
    }
}

/// A schema is its type byte, followed, for a type of fixed size (codes 33,
/// 49 and 65), by that size as a variable-length quantity of up to 8 bytes; a
/// byte that names no type is refused with that byte.
pub proof fn lemma_schema_layout(code: u8, size: Seq<u8>, rest: Seq<u8>)
    ensures
        (16 <= code <= 19 || code == 32 || code == 48 || code == 64) ==> take_schema(
            seq![code] + rest,
        ) == (
            Ok::<Schema, ErrorView>(
                Schema { value_type: ValueType::spec_from_code(code).unwrap(), fixed_size: None },
            ),
            rest,
        ),
        (code == 33 || code == 49 || code == 65) && is_vlq(size) && size.len() <= 8 ==> take_schema(
            seq![code] + size + rest,
        ) == (
            Ok::<Schema, ErrorView>(
                Schema {
                    value_type: ValueType::spec_from_code(code).unwrap(),
                    fixed_size: Some(vlq_value(size) as u64),
                },
            ),
            rest,
        ) && vlq_value(size) <= u64::MAX,
        !(16 <= code <= 19 || code == 32 || code == 33 || code == 48 || code == 49 || code == 64
            || code == 65) ==> take_schema(seq![code] + rest) == (
            Err::<Schema, ErrorView>(ErrorView::InvalidSchemaType(code)),
            rest,
        ),
{
    let s = seq![code] + rest;
    assert(s[0] == code);
    assert(s.skip(1) =~= rest);
    if (code == 33 || code == 49 || code == 65) && is_vlq(size) && size.len() <= 8 {
        let f = seq![code] + size + rest;
        assert(f[0] == code);
        assert(f.skip(1) =~= size + rest);
        lemma_vlq_prefix(size, rest, 8);
        lemma_pow128_values();
        lemma_pow128_le(size.len(), 8);
    }
}

/// A blob is its length as a variable-length quantity of up to 8 bytes,
/// followed by that many bytes.
pub proof fn lemma_blob_value(schema: Schema, len: Seq<u8>, b: Seq<u8>, rest: Seq<u8>)
    requires
        schema.value_type == ValueType::Blob,
        is_vlq(len),
        len.len() <= 8,
        b.len() == vlq_value(len),
        b.len() <= usize::MAX,
    ensures
        take_value(schema, len + b + rest) == (Ok::<ValueView, ErrorView>(ValueView::Blob(b)), rest),
{
    assert(len + b + rest =~= len + (b + rest));
    lemma_vlq_prefix(len, b + rest, 8);
    assert((b + rest).take(b.len() as int) =~= b);
    assert((b + rest).skip(b.len() as int) =~= rest);
}

/// A text is its bytes up to the first zero byte, whatever else they hold,
/// decoded as UTF-8; the zero byte is read too.
pub proof fn lemma_text_value(schema: Schema, t: Seq<u8>, rest: Seq<u8>)
    requires
        schema.value_type == ValueType::Text,
        forall|j: int| 0 <= j < t.len() ==> #[trigger] t[j] != 0,
    ensures
        valid_utf8(t) ==> take_value(schema, t + seq![0u8] + rest) == (
            Ok::<ValueView, ErrorView>(ValueView::Text(decode_utf8(t))),
            rest,
        ),
        !valid_utf8(t) ==> take_value(schema, t + seq![0u8] + rest) == (
            Err::<ValueView, ErrorView>(ErrorView::IoError(IoErrorKind::InvalidUtf8)),
            rest,
        ),
{
    lemma_c_string_read(t, rest);
}

/// A value of a fixed-size column is exactly as many bytes as its schema
/// fixes: a number of up to 8 bytes, most significant byte first, the bytes
/// of a blob, or the UTF-8 of a text; an `Unknown19` value is 8 bytes.
pub proof fn lemma_sized_values(schema: Schema, b: Seq<u8>, rest: Seq<u8>)
    requires
        b.len() <= usize::MAX,
    ensures
        schema.value_type == ValueType::UNumFixed && schema.fixed_size == Some(b.len() as u64)
            && b.len() <= 8 ==> take_value(schema, b + rest) == (
            Ok::<ValueView, ErrorView>(ValueView::UNumFixed(be_value(b) as u64)),
            rest,
        ) && be_value(b) <= u64::MAX,
        schema.value_type == ValueType::BlobFixed && schema.fixed_size == Some(b.len() as u64)
            ==> take_value(schema, b + rest) == (
            Ok::<ValueView, ErrorView>(ValueView::BlobFixed(b)),
            rest,
        ),
        schema.value_type == ValueType::TextFixed && schema.fixed_size == Some(b.len() as u64)
            && valid_utf8(b) ==> take_value(schema, b + rest) == (
            Ok::<ValueView, ErrorView>(ValueView::TextFixed(decode_utf8(b))),
            rest,
        ),
        schema.value_type == ValueType::TextFixed && schema.fixed_size == Some(b.len() as u64)
            && !valid_utf8(b) ==> take_value(schema, b + rest) == (
            Err::<ValueView, ErrorView>(ErrorView::FromUtf8Error),
            rest,
        ),
        schema.value_type == ValueType::Unknown19 && b.len() == 8 ==> take_value(schema, b + rest)
            == (Ok::<ValueView, ErrorView>(ValueView::Unknown19), rest),
{
    assert((b + rest).take(b.len() as int) =~= b);
    assert((b + rest).skip(b.len() as int) =~= rest);
    if b.len() <= 8 {
        lemma_unum_read(b, rest);
    }
}

} // verus!
