//! The value codec: sixteen logical types, each with a stable numeric tag,
//! serialized as a tag byte followed by a payload — big-endian bytes for the
//! fixed-width types, UTF-8 for the text classes, raw bytes for the binary
//! classes. The codec writes no length prefix: a caller must know how many
//! payload bytes to read back before decoding.

use crate::numeric::{
    be_bytes, be_decode, be_encode, be_val, i16_to_twos, i32_to_twos, i64_to_twos, i8_to_twos,
    lemma_be_bytes_injective, lemma_be_bytes_len, lemma_be_bytes_of_be_val, lemma_be_val_bound,
    lemma_pow256_values, twos16, twos32, twos64, twos8, twos_to_i16, twos_to_i32, twos_to_i64,
    twos_to_i8,
};
use vstd::prelude::*;
use vstd::utf8::{decode_utf8, decode_utf8_encode_utf8, encode_utf8, encode_utf8_decode_utf8,
    encode_utf8_valid_utf8, valid_utf8};

verus! {

/// The closed set of logical value types the codec understands.
#[derive(Clone, Copy, Debug, PartialEq, Eq, Structural)]
pub enum DataType {
    Byte,
    Short,
    Int,
    Long,
    UByte,
    UShort,
    UInt,
    ULong,
    ShortText,
    Text,
    LongText,
    ShortBinary,
    Binary,
    LongBinary,
    DateTime,
    Uuid,
}

/// A typed value: one payload per logical type.
#[derive(Clone, Debug, PartialEq, Eq)]
pub enum Data {
    Byte(i8),
    Short(i16),
    Int(i32),
    Long(i64),
    UByte(u8),
    UShort(u16),
    UInt(u32),
    ULong(u64),
    ShortText(String),
    Text(String),
    LongText(String),
    ShortBinary(Vec<u8>),
    Binary(Vec<u8>),
    LongBinary(Vec<u8>),
    DateTime(i64),
    Uuid(Vec<u8>),
}

/// Why a decode failed.
#[derive(Clone, Copy, Debug, PartialEq, Eq, Structural)]
pub enum CodecError {
    /// A fixed-width payload had the wrong number of bytes.
    LengthMismatch,
    /// A text payload was not valid UTF-8.
    Utf8Decode,
}

/// The tag byte written in front of a value of type t.
pub open spec fn code_of(t: DataType) -> u8 {
    match t {
        DataType::Byte => 1,
        DataType::Short => 2,
        DataType::Int => 3,
        DataType::Long => 4,
        DataType::UByte => 5,
        DataType::UShort => 6,
        DataType::UInt => 7,
        DataType::ULong => 8,
        DataType::ShortText => 9,
        DataType::Text => 10,
        DataType::LongText => 11,
        DataType::ShortBinary => 12,
        DataType::Binary => 13,
        DataType::LongBinary => 14,
        DataType::DateTime => 15,
        DataType::Uuid => 16,
    }
}

/// The type a tag byte resolves to; tags 0 and above 16 resolve to nothing.
pub open spec fn type_of_code(c: u8) -> Option<DataType> {
    match c {
        1 => Some(DataType::Byte),
        2 => Some(DataType::Short),
        3 => Some(DataType::Int),
        4 => Some(DataType::Long),
        5 => Some(DataType::UByte),
        6 => Some(DataType::UShort),
        7 => Some(DataType::UInt),
        8 => Some(DataType::ULong),
        9 => Some(DataType::ShortText),
        10 => Some(DataType::Text),
        11 => Some(DataType::LongText),
        12 => Some(DataType::ShortBinary),
        13 => Some(DataType::Binary),
        14 => Some(DataType::LongBinary),
        15 => Some(DataType::DateTime),
        16 => Some(DataType::Uuid),
        _ => None,
    }
}

/// The payload length a type implies: the exact width for fixed-width types,
/// the class maximum for the variable-width classes. A caller sizing a read
/// from this value will over-read a variable-width payload unless the true
/// length is tracked externally.
pub open spec fn len_of(t: DataType) -> int {
    match t {
        DataType::Byte => 1,
        DataType::Short => 2,
        DataType::Int => 4,
        DataType::Long => 8,
        DataType::UByte => 1,
        DataType::UShort => 2,
        DataType::UInt => 4,
        DataType::ULong => 8,
        DataType::ShortText => 0xff,
        DataType::Text => 0xffff,
        DataType::LongText => 0xffffffff,
        DataType::ShortBinary => 0xff,
        DataType::Binary => 0xffff,
        DataType::LongBinary => 0xffffffff,
        DataType::DateTime => 8,
        DataType::Uuid => 16,
    }
}

/// Types whose payload width is constant and type-determined.
pub open spec fn is_fixed(t: DataType) -> bool {
    match t {
        DataType::ShortText
        | DataType::Text
        | DataType::LongText
        | DataType::ShortBinary
        | DataType::Binary
        | DataType::LongBinary => false,
        _ => true,
    }
}

/// The three text classes, whose payload is UTF-8.
pub open spec fn is_text(t: DataType) -> bool {
    match t {
        DataType::ShortText | DataType::Text | DataType::LongText => true,
        _ => false,
    }
}

/// The three binary classes, whose payload is raw bytes.
pub open spec fn is_blob(t: DataType) -> bool {
    match t {
        DataType::ShortBinary | DataType::Binary | DataType::LongBinary => true,
        _ => false,
    }
}

/// The mathematical value of a `Data`: the same sixteen variants over ghost
/// payloads.
pub enum DataView {
    Byte(i8),
    Short(i16),
    Int(i32),
    Long(i64),
    UByte(u8),
    UShort(u16),
    UInt(u32),
    ULong(u64),
    ShortText(Seq<char>),
    Text(Seq<char>),
    LongText(Seq<char>),
    ShortBinary(Seq<u8>),
    Binary(Seq<u8>),
    LongBinary(Seq<u8>),
    DateTime(i64),
    Uuid(Seq<u8>),
}

impl DataView {
    /// The logical type of this value.
    pub open spec fn data_type(self) -> DataType {
        match self {
            DataView::Byte(_) => DataType::Byte,
            DataView::Short(_) => DataType::Short,
            DataView::Int(_) => DataType::Int,
            DataView::Long(_) => DataType::Long,
            DataView::UByte(_) => DataType::UByte,
            DataView::UShort(_) => DataType::UShort,
            DataView::UInt(_) => DataType::UInt,
            DataView::ULong(_) => DataType::ULong,
            DataView::ShortText(_) => DataType::ShortText,
            DataView::Text(_) => DataType::Text,
            DataView::LongText(_) => DataType::LongText,
            DataView::ShortBinary(_) => DataType::ShortBinary,
            DataView::Binary(_) => DataType::Binary,
            DataView::LongBinary(_) => DataType::LongBinary,
            DataView::DateTime(_) => DataType::DateTime,
            DataView::Uuid(_) => DataType::Uuid,
        }
    }

    /// The serialized payload: everything after the tag byte.
    pub open spec fn payload(self) -> Seq<u8> {
        match self {
            DataView::Byte(x) => be_bytes(twos8(x), 1),
            DataView::Short(x) => be_bytes(twos16(x), 2),
            DataView::Int(x) => be_bytes(twos32(x), 4),
            DataView::Long(x) => be_bytes(twos64(x), 8),
            DataView::UByte(x) => be_bytes(x as nat, 1),
            DataView::UShort(x) => be_bytes(x as nat, 2),
            DataView::UInt(x) => be_bytes(x as nat, 4),
            DataView::ULong(x) => be_bytes(x as nat, 8),
            DataView::ShortText(s) => encode_utf8(s),
            DataView::Text(s) => encode_utf8(s),
            DataView::LongText(s) => encode_utf8(s),
            DataView::ShortBinary(b) => b,
            DataView::Binary(b) => b,
            DataView::LongBinary(b) => b,
            DataView::DateTime(x) => be_bytes(twos64(x), 8),
            DataView::Uuid(b) => b,
        }
    }

    /// The full serialized form: the tag byte followed by the payload.
    pub open spec fn encoding(self) -> Seq<u8> {
        seq![code_of(self.data_type())] + self.payload()
    }

    /// The type's own invariant on a value: fixed-width payloads have their
    /// exact width (a UUID is 16 bytes), variable-width payloads stay within
    /// their class maximum.
    pub open spec fn well_formed(self) -> bool {
        match self {
            DataView::ShortText(s) => encode_utf8(s).len() <= 0xff,
            DataView::Text(s) => encode_utf8(s).len() <= 0xffff,
            DataView::LongText(s) => encode_utf8(s).len() <= 0xffffffff,
            DataView::ShortBinary(b) => b.len() <= 0xff,
            DataView::Binary(b) => b.len() <= 0xffff,
            DataView::LongBinary(b) => b.len() <= 0xffffffff,
            DataView::Uuid(b) => b.len() == 16,
            _ => true,
        }
    }
}

impl View for Data {
    type V = DataView;

    open spec fn view(&self) -> DataView {
        match self {
            Data::Byte(x) => DataView::Byte(*x),
            Data::Short(x) => DataView::Short(*x),
            Data::Int(x) => DataView::Int(*x),
            Data::Long(x) => DataView::Long(*x),
            Data::UByte(x) => DataView::UByte(*x),
            Data::UShort(x) => DataView::UShort(*x),
            Data::UInt(x) => DataView::UInt(*x),
            Data::ULong(x) => DataView::ULong(*x),
            Data::ShortText(s) => DataView::ShortText(s@),
            Data::Text(s) => DataView::Text(s@),
            Data::LongText(s) => DataView::LongText(s@),
            Data::ShortBinary(b) => DataView::ShortBinary(b@),
            Data::Binary(b) => DataView::Binary(b@),
            Data::LongBinary(b) => DataView::LongBinary(b@),
            Data::DateTime(x) => DataView::DateTime(*x),
            Data::Uuid(b) => DataView::Uuid(b@),
        }
    }
}

impl DataType {
    /// Resolves a tag byte; tags 0 and above 16 are unknown and resolve to
    /// `None`.
    pub fn from_code(code: u8) -> (r: Option<DataType>)
        ensures
            r == type_of_code(code),
    {
        match code {
            1 => Some(DataType::Byte),
            2 => Some(DataType::Short),
            3 => Some(DataType::Int),
            4 => Some(DataType::Long),
            5 => Some(DataType::UByte),
            6 => Some(DataType::UShort),
            7 => Some(DataType::UInt),
            8 => Some(DataType::ULong),
            9 => Some(DataType::ShortText),
            10 => Some(DataType::Text),
            11 => Some(DataType::LongText),
            12 => Some(DataType::ShortBinary),
            13 => Some(DataType::Binary),
            14 => Some(DataType::LongBinary),
            15 => Some(DataType::DateTime),
            16 => Some(DataType::Uuid),
            _ => None,
        }
    }

    /// The tag byte written for this type.
    pub fn get_code(&self) -> (r: u8)
        ensures
            r == code_of(*self),
    {
        match self {
            DataType::Byte => 1,
            DataType::Short => 2,
            DataType::Int => 3,
            DataType::Long => 4,
            DataType::UByte => 5,
            DataType::UShort => 6,
            DataType::UInt => 7,
            DataType::ULong => 8,
            DataType::ShortText => 9,
            DataType::Text => 10,
            DataType::LongText => 11,
            DataType::ShortBinary => 12,
            DataType::Binary => 13,
            DataType::LongBinary => 14,
            DataType::DateTime => 15,
            DataType::Uuid => 16,
        }
    }

    /// The payload length this type implies (the class maximum for
    /// variable-width types; see `len_of`).
    pub fn get_length(&self) -> (r: usize)
        ensures
            r as int == len_of(*self),
    {
        match self {
            DataType::Byte => 1,
            DataType::Short => 2,
            DataType::Int => 4,
            DataType::Long => 8,
            DataType::UByte => 1,
            DataType::UShort => 2,
            DataType::UInt => 4,
            DataType::ULong => 8,
            DataType::ShortText => 255,
            DataType::Text => 65535,
            DataType::LongText => 4294967295,
            DataType::ShortBinary => 255,
            DataType::Binary => 65535,
            DataType::LongBinary => 4294967295,
            DataType::DateTime => 8,
            DataType::Uuid => 16,
        }
    }
}

/// Tag bijection: every type's tag resolves back to that type, tags are
/// within 1 to 16, every resolvable tag round-trips, and tag 0 and tags
/// above 16 resolve to nothing.
pub proof fn lemma_tag_bijection(t: DataType, c: u8)
    ensures
        type_of_code(code_of(t)) == Some(t),
        1 <= code_of(t) <= 16,
        type_of_code(c) matches Some(t2) ==> code_of(t2) == c,
        c == 0 || c > 16 ==> type_of_code(c) is None,
{
}

fn serialize_byte(b: &i8) -> (r: Vec<u8>)
    ensures
        r@ == DataView::Byte(*b).encoding(),
{
    let mut v: Vec<u8> = Vec::new();
    v.push(1);
    proof {
        lemma_pow256_values();
    }
    let mut payload = be_encode(i8_to_twos(*b) as u64, 1);
    v.append(&mut payload);
    proof {
        assert(v@ =~= DataView::Byte(*b).encoding());
    }
    v
}

fn serialize_short(s: &i16) -> (r: Vec<u8>)
    ensures
        r@ == DataView::Short(*s).encoding(),
{
    let mut v: Vec<u8> = Vec::new();
    v.push(2);
    proof {
        lemma_pow256_values();
    }
    let mut payload = be_encode(i16_to_twos(*s) as u64, 2);
    v.append(&mut payload);
    proof {
        assert(v@ =~= DataView::Short(*s).encoding());
    }
    v
}

fn serialize_int(i: &i32) -> (r: Vec<u8>)
    ensures
        r@ == DataView::Int(*i).encoding(),
{
    let mut v: Vec<u8> = Vec::new();
    v.push(3);
    proof {
        lemma_pow256_values();
    }
    let mut payload = be_encode(i32_to_twos(*i) as u64, 4);
    v.append(&mut payload);
    proof {
        assert(v@ =~= DataView::Int(*i).encoding());
    }
    v
}

fn serialize_long(l: &i64) -> (r: Vec<u8>)
    ensures
        r@ == DataView::Long(*l).encoding(),
{
    let mut v: Vec<u8> = Vec::new();
    v.push(4);
    proof {
        lemma_pow256_values();
    }
    let mut payload = be_encode(i64_to_twos(*l), 8);
    v.append(&mut payload);
    proof {
        assert(v@ =~= DataView::Long(*l).encoding());
    }
    v
}

fn serialize_ubyte(b: &u8) -> (r: Vec<u8>)
    ensures
        r@ == DataView::UByte(*b).encoding(),
{
    let v = vec![5u8, *b];
    proof {
        reveal_with_fuel(be_bytes, 3);
        assert(v@ =~= DataView::UByte(*b).encoding());
    }
    v
}

fn serialize_ushort(s: &u16) -> (r: Vec<u8>)
    ensures
        r@ == DataView::UShort(*s).encoding(),
{
    let mut v: Vec<u8> = Vec::new();
    v.push(6);
    proof {
        lemma_pow256_values();
    }
    let mut payload = be_encode(*s as u64, 2);
    v.append(&mut payload);
    proof {
        assert(v@ =~= DataView::UShort(*s).encoding());
    }
    v
}

fn serialize_uint(i: &u32) -> (r: Vec<u8>)
    ensures
        r@ == DataView::UInt(*i).encoding(),
{
    let mut v: Vec<u8> = Vec::new();
    v.push(7);
    proof {
        lemma_pow256_values();
    }
    let mut payload = be_encode(*i as u64, 4);
    v.append(&mut payload);
    proof {
        assert(v@ =~= DataView::UInt(*i).encoding());
    }
    v
}

fn serialize_ulong(l: &u64) -> (r: Vec<u8>)
    ensures
        r@ == DataView::ULong(*l).encoding(),
{
    let mut v: Vec<u8> = Vec::new();
    v.push(8);
    proof {
        lemma_pow256_values();
    }
    let mut payload = be_encode(*l, 8);
    v.append(&mut payload);
    proof {
        assert(v@ =~= DataView::ULong(*l).encoding());
    }
    v
}

fn serialize_shorttext(s: String) -> (r: Vec<u8>)
    ensures
        r@ == DataView::ShortText(s@).encoding(),
{
    let mut v: Vec<u8> = Vec::new();
    v.push(9);
    let mut payload = vstd::slice::slice_to_vec(s.as_str().as_bytes());
    v.append(&mut payload);
    proof {
        assert(v@ =~= DataView::ShortText(s@).encoding());
    }
    v
}

fn serialize_text(s: String) -> (r: Vec<u8>)
    ensures
        r@ == DataView::Text(s@).encoding(),
{
    let mut v: Vec<u8> = Vec::new();
    v.push(10);
    let mut payload = vstd::slice::slice_to_vec(s.as_str().as_bytes());
    v.append(&mut payload);
    proof {
        assert(v@ =~= DataView::Text(s@).encoding());
    }
    v
}

fn serialize_longtext(s: String) -> (r: Vec<u8>)
    ensures
        r@ == DataView::LongText(s@).encoding(),
{
    let mut v: Vec<u8> = Vec::new();
    v.push(11);
    let mut payload = vstd::slice::slice_to_vec(s.as_str().as_bytes());
    v.append(&mut payload);
    proof {
        assert(v@ =~= DataView::LongText(s@).encoding());
    }
    v
}

fn serialize_shortbinary(b: &mut Vec<u8>) -> (r: Vec<u8>)
    ensures
        r@ == DataView::ShortBinary(old(b)@).encoding(),
        final(b)@.len() == 0,
{
    let mut v: Vec<u8> = Vec::new();
    v.push(12);
    v.append(b);
    proof {
        assert(v@ =~= DataView::ShortBinary(old(b)@).encoding());
    }
    v
}

fn serialize_binary(b: &mut Vec<u8>) -> (r: Vec<u8>)
    ensures
        r@ == DataView::Binary(old(b)@).encoding(),
        final(b)@.len() == 0,
{
    let mut v: Vec<u8> = Vec::new();
    v.push(13);
    v.append(b);
    proof {
        assert(v@ =~= DataView::Binary(old(b)@).encoding());
    }
    v
}

fn serialize_longbinary(b: &mut Vec<u8>) -> (r: Vec<u8>)
    ensures
        r@ == DataView::LongBinary(old(b)@).encoding(),
        final(b)@.len() == 0,
{
    let mut v: Vec<u8> = Vec::new();
    v.push(14);
    v.append(b);
    proof {
        assert(v@ =~= DataView::LongBinary(old(b)@).encoding());
    }
    v
}

fn serialize_datetime(dt: &i64) -> (r: Vec<u8>)
    ensures
        r@ == DataView::DateTime(*dt).encoding(),
{
    let mut v: Vec<u8> = Vec::new();
    v.push(15);
    proof {
        lemma_pow256_values();
    }
    let mut payload = be_encode(i64_to_twos(*dt), 8);
    v.append(&mut payload);
    proof {
        assert(v@ =~= DataView::DateTime(*dt).encoding());
    }
    v
}

fn serialize_uuid(u: &mut Vec<u8>) -> (r: Vec<u8>)
    ensures
        r@ == DataView::Uuid(old(u)@).encoding(),
        final(u)@.len() == 0,
{
    let mut v: Vec<u8> = Vec::new();
    v.push(16);
    v.append(u);
    proof {
        assert(v@ =~= DataView::Uuid(old(u)@).encoding());
    }
    v
}

/// Round trip: two values of the same logical type with the same payload
/// bytes are the same value — serialization loses nothing, so decoding a
/// value's payload at its own type can only yield that value.
pub proof fn lemma_payload_injective(dv1: DataView, dv2: DataView)
    requires
        dv1.data_type() == dv2.data_type(),
        dv1.payload() == dv2.payload(),
    ensures
        dv1 == dv2,
{
    lemma_pow256_values();
    match (dv1, dv2) {
        (DataView::Byte(x), DataView::Byte(y)) => {
            lemma_be_bytes_injective(twos8(x), twos8(y), 1);
        },
        (DataView::Short(x), DataView::Short(y)) => {
            lemma_be_bytes_injective(twos16(x), twos16(y), 2);
        },
        (DataView::Int(x), DataView::Int(y)) => {
            lemma_be_bytes_injective(twos32(x), twos32(y), 4);
        },
        (DataView::Long(x), DataView::Long(y)) => {
            lemma_be_bytes_injective(twos64(x), twos64(y), 8);
        },
        (DataView::UByte(x), DataView::UByte(y)) => {
            lemma_be_bytes_injective(x as nat, y as nat, 1);
        },
        (DataView::UShort(x), DataView::UShort(y)) => {
            lemma_be_bytes_injective(x as nat, y as nat, 2);
        },
        (DataView::UInt(x), DataView::UInt(y)) => {
            lemma_be_bytes_injective(x as nat, y as nat, 4);
        },
        (DataView::ULong(x), DataView::ULong(y)) => {
            lemma_be_bytes_injective(x as nat, y as nat, 8);
        },
        (DataView::ShortText(s1), DataView::ShortText(s2)) => {
            encode_utf8_decode_utf8(s1);
            encode_utf8_decode_utf8(s2);
        },
        (DataView::Text(s1), DataView::Text(s2)) => {
            encode_utf8_decode_utf8(s1);
            encode_utf8_decode_utf8(s2);
        },
        (DataView::LongText(s1), DataView::LongText(s2)) => {
            encode_utf8_decode_utf8(s1);
            encode_utf8_decode_utf8(s2);
        },
        (DataView::DateTime(x), DataView::DateTime(y)) => {
            lemma_be_bytes_injective(twos64(x), twos64(y), 8);
        },
        _ => {},
    }
}

/// The whole serialized form, tag byte included, determines the value.
pub proof fn lemma_encoding_injective(dv1: DataView, dv2: DataView)
    requires
        dv1.encoding() == dv2.encoding(),
    ensures
        dv1 == dv2,
{
    lemma_tag_bijection(dv1.data_type(), 0);
    lemma_tag_bijection(dv2.data_type(), 0);
    assert(dv1.encoding()[0] == code_of(dv1.data_type()));
    assert(dv2.encoding()[0] == code_of(dv2.data_type()));
    assert(dv1.encoding() == seq![code_of(dv1.data_type())] + dv1.payload());
    assert(dv2.encoding() == seq![code_of(dv2.data_type())] + dv2.payload());
    assert(dv1.encoding().len() == 1 + dv1.payload().len());
    assert(dv2.encoding().len() == 1 + dv2.payload().len());
    assert(dv1.payload().len() == dv2.payload().len());
    assert forall|i: int| 0 <= i < dv1.payload().len() implies dv1.payload()[i]
        == dv2.payload()[i] by {
        assert((seq![code_of(dv1.data_type())] + dv1.payload())[i + 1] == dv1.payload()[i]);
        assert((seq![code_of(dv2.data_type())] + dv2.payload())[i + 1] == dv2.payload()[i]);
    }
    assert(dv1.payload() =~= dv2.payload());
    lemma_payload_injective(dv1, dv2);
}

/// A well-formed value of a fixed-width type has a payload of exactly its
/// type's width.
pub proof fn lemma_payload_len_fixed(dv: DataView)
    requires
        dv.well_formed(),
        is_fixed(dv.data_type()),
    ensures
        dv.payload().len() == len_of(dv.data_type()),
{
    match dv {
        DataView::Byte(x) => lemma_be_bytes_len(twos8(x), 1),
        DataView::Short(x) => lemma_be_bytes_len(twos16(x), 2),
        DataView::Int(x) => lemma_be_bytes_len(twos32(x), 4),
        DataView::Long(x) => lemma_be_bytes_len(twos64(x), 8),
        DataView::UByte(x) => lemma_be_bytes_len(x as nat, 1),
        DataView::UShort(x) => lemma_be_bytes_len(x as nat, 2),
        DataView::UInt(x) => lemma_be_bytes_len(x as nat, 4),
        DataView::ULong(x) => lemma_be_bytes_len(x as nat, 8),
        DataView::DateTime(x) => lemma_be_bytes_len(twos64(x), 8),
        _ => {},
    }
}

/// A well-formed value's payload is always accepted by `Data::deserialize`
/// at the value's own type: it has the exact width for a fixed-width type and
/// is valid UTF-8 for a text type. Together with `deserialize`'s contract and
/// `lemma_payload_injective`, decoding a serialized well-formed value at its
/// own type succeeds and yields exactly that value.
pub proof fn lemma_well_formed_payload_decodes(dv: DataView)
    requires
        dv.well_formed(),
    ensures
        is_fixed(dv.data_type()) ==> dv.payload().len() == len_of(dv.data_type()),
        is_text(dv.data_type()) ==> valid_utf8(dv.payload()),
{
    if is_fixed(dv.data_type()) {
        lemma_payload_len_fixed(dv);
    }
    match dv {
        DataView::ShortText(s) => encode_utf8_valid_utf8(s),
        DataView::Text(s) => encode_utf8_valid_utf8(s),
        DataView::LongText(s) => encode_utf8_valid_utf8(s),
        _ => {},
    }
}

/// Relies on `core::str::from_utf8`: it returns `Ok` exactly when the bytes
/// are valid UTF-8, and the resulting string's characters are the bytes'
/// UTF-8 decoding.
#[verifier::external_body]
fn utf8_to_string(raw: &[u8]) -> (r: Option<String>)
    ensures
        r matches Some(s) ==> valid_utf8(raw@) && s@ == decode_utf8(raw@),
        r is None ==> !valid_utf8(raw@),
{
    match core::str::from_utf8(raw) {
        Ok(s) => Some(s.to_string()),
        Err(_) => None,
    }
}

fn deserialize_byte(raw: &[u8]) -> (r: Result<i8, CodecError>)
    ensures
        r is Ok <==> raw@.len() == 1,
        r matches Ok(x) ==> twos8(x) == be_val(raw@),
        r matches Err(e) ==> e == CodecError::LengthMismatch,
{
    if raw.len() == 1 {
        proof {
            lemma_be_val_bound(raw@);
            lemma_pow256_values();
        }
        let u = be_decode(raw);
        Ok(twos_to_i8(u as u8))
    } else {
        Err(CodecError::LengthMismatch)
    }
}

fn deserialize_short(raw: &[u8]) -> (r: Result<i16, CodecError>)
    ensures
        r is Ok <==> raw@.len() == 2,
        r matches Ok(x) ==> twos16(x) == be_val(raw@),
        r matches Err(e) ==> e == CodecError::LengthMismatch,
{
    if raw.len() == 2 {
        proof {
            lemma_be_val_bound(raw@);
            lemma_pow256_values();
        }
        let u = be_decode(raw);
        Ok(twos_to_i16(u as u16))
    } else {
        Err(CodecError::LengthMismatch)
    }
}

fn deserialize_int(raw: &[u8]) -> (r: Result<i32, CodecError>)
    ensures
        r is Ok <==> raw@.len() == 4,
        r matches Ok(x) ==> twos32(x) == be_val(raw@),
        r matches Err(e) ==> e == CodecError::LengthMismatch,
{
    if raw.len() == 4 {
        proof {
            lemma_be_val_bound(raw@);
            lemma_pow256_values();
        }
        let u = be_decode(raw);
        Ok(twos_to_i32(u as u32))
    } else {
        Err(CodecError::LengthMismatch)
    }
}

fn deserialize_long(raw: &[u8]) -> (r: Result<i64, CodecError>)
    ensures
        r is Ok <==> raw@.len() == 8,
        r matches Ok(x) ==> twos64(x) == be_val(raw@),
        r matches Err(e) ==> e == CodecError::LengthMismatch,
{
    if raw.len() == 8 {
        proof {
            lemma_be_val_bound(raw@);
            lemma_pow256_values();
        }
        let u = be_decode(raw);
        Ok(twos_to_i64(u))
    } else {
        Err(CodecError::LengthMismatch)
    }
}

fn deserialize_ubyte(raw: &[u8]) -> (r: Result<u8, CodecError>)
    ensures
        r is Ok <==> raw@.len() == 1,
        r matches Ok(x) ==> x as nat == be_val(raw@),
        r matches Err(e) ==> e == CodecError::LengthMismatch,
{
    if raw.len() == 1 {
        proof {
            lemma_be_val_bound(raw@);
            lemma_pow256_values();
        }
        let u = be_decode(raw);
        Ok(u as u8)
    } else {
        Err(CodecError::LengthMismatch)
    }
}

fn deserialize_ushort(raw: &[u8]) -> (r: Result<u16, CodecError>)
    ensures
        r is Ok <==> raw@.len() == 2,
        r matches Ok(x) ==> x as nat == be_val(raw@),
        r matches Err(e) ==> e == CodecError::LengthMismatch,
{
    if raw.len() == 2 {
        proof {
            lemma_be_val_bound(raw@);
            lemma_pow256_values();
        }
        let u = be_decode(raw);
        Ok(u as u16)
    } else {
        Err(CodecError::LengthMismatch)
    }
}

fn deserialize_uint(raw: &[u8]) -> (r: Result<u32, CodecError>)
    ensures
        r is Ok <==> raw@.len() == 4,
        r matches Ok(x) ==> x as nat == be_val(raw@),
        r matches Err(e) ==> e == CodecError::LengthMismatch,
{
    if raw.len() == 4 {
        proof {
            lemma_be_val_bound(raw@);
            lemma_pow256_values();
        }
        let u = be_decode(raw);
        Ok(u as u32)
    } else {
        Err(CodecError::LengthMismatch)
    }
}

fn deserialize_ulong(raw: &[u8]) -> (r: Result<u64, CodecError>)
    ensures
        r is Ok <==> raw@.len() == 8,
        r matches Ok(x) ==> x as nat == be_val(raw@),
        r matches Err(e) ==> e == CodecError::LengthMismatch,
{
    if raw.len() == 8 {
        let u = be_decode(raw);
        Ok(u)
    } else {
        Err(CodecError::LengthMismatch)
    }
}

fn deseralize_text(raw: &[u8]) -> (r: Result<String, CodecError>)
    ensures
        r is Ok <==> valid_utf8(raw@),
        r matches Ok(s) ==> s@ == decode_utf8(raw@),
        r matches Err(e) ==> e == CodecError::Utf8Decode,
{
    match utf8_to_string(raw) {
        Some(s) => Ok(s),
        None => Err(CodecError::Utf8Decode),
    }
}

fn deserialize_binary(raw: &[u8]) -> (r: Result<Vec<u8>, CodecError>)
    ensures
        r matches Ok(v) && v@ == raw@,
{
    Ok(vstd::slice::slice_to_vec(raw))
}

impl Data {
    /// The serialized form of this value: its type's tag byte followed by its
    /// payload bytes. Always succeeds; no length limit is enforced here.
    pub fn serialize(&self) -> (r: Vec<u8>)
        ensures
            r@ == self@.encoding(),
    {
        match self {
            Data::Byte(b) => serialize_byte(b),
            Data::Short(s) => serialize_short(s),
            Data::Int(i) => serialize_int(i),
            Data::Long(l) => serialize_long(l),
            Data::UByte(b) => serialize_ubyte(b),
            Data::UShort(s) => serialize_ushort(s),
            Data::UInt(i) => serialize_uint(i),
            Data::ULong(l) => serialize_ulong(l),
            Data::ShortText(s) => serialize_shorttext(s.clone()),
            Data::Text(s) => serialize_text(s.clone()),
            Data::LongText(s) => serialize_longtext(s.clone()),
            Data::ShortBinary(b) => {
                let mut t = vstd::slice::slice_to_vec(b.as_slice());
                serialize_shortbinary(&mut t)
            },
            Data::Binary(b) => {
                let mut t = vstd::slice::slice_to_vec(b.as_slice());
                serialize_binary(&mut t)
            },
            Data::LongBinary(b) => {
                let mut t = vstd::slice::slice_to_vec(b.as_slice());
                serialize_longbinary(&mut t)
            },
            Data::DateTime(dt) => serialize_datetime(dt),
            Data::Uuid(u) => {
                let mut t = vstd::slice::slice_to_vec(u.as_slice());
                serialize_uuid(&mut t)
            },
        }
    }

    /// Decodes a payload span (the bytes after the tag) at a known type.
    ///
    /// Succeeds exactly when the span can be a payload of that type: the
    /// exact width for fixed-width types, valid UTF-8 for the text classes,
    /// any bytes for the binary classes. On success the result is the one
    /// well-formed value of that type whose payload is the span.
    #[verifier::rlimit(100)]
    pub fn deserialize(raw: &[u8], data_type: DataType) -> (r: Result<Data, CodecError>)
        ensures
            r matches Ok(d) ==> d@.data_type() == data_type && d@.payload() == raw@,
            is_fixed(data_type) ==> ((r is Err) <==> raw@.len() != len_of(data_type)),
            is_text(data_type) ==> ((r is Ok) <==> valid_utf8(raw@)),
            is_blob(data_type) ==> r is Ok,
            r matches Err(e) ==> e == if is_text(data_type) {
                CodecError::Utf8Decode
            } else {
                CodecError::LengthMismatch
            },
    {
        match data_type {
            DataType::Byte => match deserialize_byte(raw) {
                Ok(x) => {
                    proof {
                        lemma_be_bytes_of_be_val(raw@);
                        assert(DataView::Byte(x).payload() == raw@);
                    }
                    Ok(Data::Byte(x))
                },
                Err(e) => Err(e),
            },
            DataType::Short => match deserialize_short(raw) {
                Ok(x) => {
                    proof {
                        lemma_be_bytes_of_be_val(raw@);
                        assert(DataView::Short(x).payload() == raw@);
                    }
                    Ok(Data::Short(x))
                },
                Err(e) => Err(e),
            },
            DataType::Int => match deserialize_int(raw) {
                Ok(x) => {
                    proof {
                        lemma_be_bytes_of_be_val(raw@);
                        assert(DataView::Int(x).payload() == raw@);
                    }
                    Ok(Data::Int(x))
                },
                Err(e) => Err(e),
            },
            DataType::Long => match deserialize_long(raw) {
                Ok(x) => {
                    proof {
                        lemma_be_bytes_of_be_val(raw@);
                        assert(DataView::Long(x).payload() == raw@);
                    }
                    Ok(Data::Long(x))
                },
                Err(e) => Err(e),
            },
            DataType::UByte => match deserialize_ubyte(raw) {
                Ok(x) => {
                    proof {
                        lemma_be_bytes_of_be_val(raw@);
                        assert(DataView::UByte(x).payload() == raw@);
                    }
                    Ok(Data::UByte(x))
                },
                Err(e) => Err(e),
            },
            DataType::UShort => match deserialize_ushort(raw) {
                Ok(x) => {
                    proof {
                        lemma_be_bytes_of_be_val(raw@);
                        assert(DataView::UShort(x).payload() == raw@);
                    }
                    Ok(Data::UShort(x))
                },
                Err(e) => Err(e),
            },
            DataType::UInt => match deserialize_uint(raw) {
                Ok(x) => {
                    proof {
                        lemma_be_bytes_of_be_val(raw@);
                        assert(DataView::UInt(x).payload() == raw@);
                    }
                    Ok(Data::UInt(x))
                },
                Err(e) => Err(e),
            },
            DataType::ULong => match deserialize_ulong(raw) {
                Ok(x) => {
                    proof {
                        lemma_be_bytes_of_be_val(raw@);
                        assert(DataView::ULong(x).payload() == raw@);
                    }
                    Ok(Data::ULong(x))
                },
                Err(e) => Err(e),
            },
            DataType::ShortText => match deseralize_text(raw) {
                Ok(s) => {
                    proof {
                        decode_utf8_encode_utf8(raw@);
                        assert(DataView::ShortText(s@).payload() == raw@);
                    }
                    Ok(Data::ShortText(s))
                },
                Err(e) => Err(e),
            },
            DataType::Text => match deseralize_text(raw) {
                Ok(s) => {
                    proof {
                        decode_utf8_encode_utf8(raw@);
                        assert(DataView::Text(s@).payload() == raw@);
                    }
                    Ok(Data::Text(s))
                },
                Err(e) => Err(e),
            },
            DataType::LongText => match deseralize_text(raw) {
                Ok(s) => {
                    proof {
                        decode_utf8_encode_utf8(raw@);
                        assert(DataView::LongText(s@).payload() == raw@);
                    }
                    Ok(Data::LongText(s))
                },
                Err(e) => Err(e),
            },
            DataType::ShortBinary => match deserialize_binary(raw) {
                Ok(v) => {
                    proof {
                        assert(DataView::ShortBinary(v@).payload() == raw@);
                    }
                    Ok(Data::ShortBinary(v))
                },
                Err(e) => Err(e),
            },
            DataType::Binary => match deserialize_binary(raw) {
                Ok(v) => {
                    proof {
                        assert(DataView::Binary(v@).payload() == raw@);
                    }
                    Ok(Data::Binary(v))
                },
                Err(e) => Err(e),
            },
            DataType::LongBinary => match deserialize_binary(raw) {
                Ok(v) => {
                    proof {
                        assert(DataView::LongBinary(v@).payload() == raw@);
                    }
                    Ok(Data::LongBinary(v))
                },
                Err(e) => Err(e),
            },
            DataType::DateTime => match deserialize_long(raw) {
                Ok(x) => {
                    proof {
                        lemma_be_bytes_of_be_val(raw@);
                        assert(DataView::DateTime(x).payload() == raw@);
                    }
                    Ok(Data::DateTime(x))
                },
                Err(e) => Err(e),
            },
            DataType::Uuid => {
                // The declared 16-byte width is enforced on decode, unlike
                // the binary classes.
                if raw.len() == 16 {
                    match deserialize_binary(raw) {
                        Ok(v) => {
                            proof {
                                assert(DataView::Uuid(v@).payload() == raw@);
                            }
                            Ok(Data::Uuid(v))
                        },
                        Err(e) => Err(e),
                    }
                } else {
                    Err(CodecError::LengthMismatch)
                }
            },
        }
    }
}

} // verus!
