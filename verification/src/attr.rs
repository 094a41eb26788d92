//! Attributes: tagged, length-delimited payloads, and the rules that turn a
//! payload into a value.

use vstd::prelude::*;
use neli::err::DeError;
use neli::FromBytesWithInput;

verus! {

/// Index of the physical device.
pub const ATTR_WIPHY: u16 = 1;
/// Index of the network interface.
pub const ATTR_IFINDEX: u16 = 3;
/// Name of the network interface.
pub const ATTR_IFNAME: u16 = 4;
/// Type of the interface.
pub const ATTR_IFTYPE: u16 = 5;
/// Hardware address.
pub const ATTR_MAC: u16 = 6;
/// Frequency of the selected channel in MHz.
pub const ATTR_WIPHY_FREQ: u16 = 38;
/// Channel type.
pub const ATTR_WIPHY_CHANNEL_TYPE: u16 = 39;
/// Network name.
pub const ATTR_SSID: u16 = 52;
/// Transmit power level in mBm.
pub const ATTR_WIPHY_TX_POWER_LEVEL: u16 = 98;
/// Wireless device identifier.
pub const ATTR_WDEV: u16 = 153;
/// Channel width.
pub const ATTR_CHANNEL_WIDTH: u16 = 159;
/// First center frequency.
pub const ATTR_CENTER_FREQ1: u16 = 160;
/// Second center frequency.
pub const ATTR_CENTER_FREQ2: u16 = 161;

/// One attribute of a message: a tag and the bytes sent with it.
#[derive(Debug, Clone, PartialEq, Eq)]
pub struct Attribute {
    pub tag: u16,
    pub payload: Vec<u8>,
}

/// What an attribute is, as a mathematical value.
pub ghost struct AttrModel {
    pub tag: u16,
    pub payload: Seq<u8>,
}

impl View for Attribute {
    type V = AttrModel;

    open spec fn view(&self) -> AttrModel {
        AttrModel { tag: self.tag, payload: self.payload@ }
    }
}

/// The models of a sequence of attributes, in the same order.
pub open spec fn models(attrs: Seq<Attribute>) -> Seq<AttrModel> {
    attrs.map_values(|a: Attribute| a@)
}

/// Why an attribute sequence could not be decoded.
#[derive(Debug, Clone, Copy, PartialEq, Eq, Structural)]
pub enum DecodeError {
    /// An integer attribute whose payload is not as long as the integer.
    MalformedAttribute { tag: u16, len: usize },
}

/// The unsigned 32-bit integer whose little-endian bytes are `b`.
pub open spec fn le_u32(b: Seq<u8>) -> u32
    recommends
        b.len() == 4,
{
    (b[0] as int + b[1] as int * 0x100 + b[2] as int * 0x1_0000 + b[3] as int * 0x100_0000) as u32
}

/// The signed 32-bit integer whose little-endian two's complement bytes are `b`.
pub open spec fn le_i32(b: Seq<u8>) -> i32
    recommends
        b.len() == 4,
{
    if b[3] < 0x80 {
        le_u32(b) as int as i32
    } else {
        (le_u32(b) as int - 0x1_0000_0000) as i32
    }
}

/// The unsigned 64-bit integer whose little-endian bytes are `b`.
pub open spec fn le_u64(b: Seq<u8>) -> u64
    recommends
        b.len() == 8,
{
    (le_u32(b.subrange(0, 4)) as int + le_u32(b.subrange(4, 8)) as int * 0x1_0000_0000) as u64
}

/// The little-endian two's complement bytes of `x`.
pub open spec fn i32_le_bytes(x: i32) -> Seq<u8> {
    let u: int = if x >= 0 { x as int } else { x as int + 0x1_0000_0000 };
    seq![
        (u % 0x100) as u8,
        (u / 0x100 % 0x100) as u8,
        (u / 0x1_0000 % 0x100) as u8,
        (u / 0x100_0000) as u8,
    ]
}

/// Writing a signed integer and reading the bytes back gives the integer.
pub proof fn lemma_i32_round_trip(x: i32)
    ensures
        i32_le_bytes(x).len() == 4,
        le_i32(i32_le_bytes(x)) == x,
{
    let u: int = if x >= 0 { x as int } else { x as int + 0x1_0000_0000 };
    let b = i32_le_bytes(x);
    let q1 = u / 0x100;
    let q2 = u / 0x1_0000;
    let q3 = u / 0x100_0000;
    assert(u == q1 * 0x100 + u % 0x100);
    assert(q1 == q2 * 0x100 + q1 % 0x100);
    assert(q2 == q3 * 0x100 + q2 % 0x100);
    assert(0 <= q3 < 0x100);
    assert(b[0] as int == u % 0x100);
    assert(b[1] as int == q1 % 0x100);
    assert(b[2] as int == q2 % 0x100);
    assert(b[3] as int == q3);
    assert(le_u32(b) as int == u);
    assert(x >= 0 <==> q3 < 0x80);
}

/// Reads the four payload bytes starting at `at` as a little-endian integer.
fn read_le_word(payload: &Vec<u8>, at: usize) -> (v: u32)
    requires
        at + 4 <= payload.len(),
    ensures
        v == le_u32(payload@.subrange(at as int, at + 4)),
{
    let b0: u32 = payload[at] as u32;
    let b1: u32 = payload[at + 1] as u32;
    let b2: u32 = payload[at + 2] as u32;
    let b3: u32 = payload[at + 3] as u32;
    b0 + b1 * 0x100 + b2 * 0x1_0000 + b3 * 0x100_0000
}

/// Decodes the payload of an unsigned 32-bit attribute. The payload must be
/// exactly four bytes long.
pub fn decode_u32(tag: u16, payload: &Vec<u8>) -> (r: Result<u32, DecodeError>)
    ensures
        payload.len() == 4 ==> r == Ok::<u32, DecodeError>(le_u32(payload@)),
        payload.len() != 4 ==> r == Err::<u32, DecodeError>(
            DecodeError::MalformedAttribute { tag, len: payload.len() },
        ),
{
    if payload.len() != 4 {
        return Err(DecodeError::MalformedAttribute { tag, len: payload.len() });
    }
    assert(payload@.subrange(0, 4) =~= payload@);
    Ok(read_le_word(payload, 0))
}

/// Decodes the payload of a signed 32-bit attribute. The payload must be
/// exactly four bytes long.
pub fn decode_i32(tag: u16, payload: &Vec<u8>) -> (r: Result<i32, DecodeError>)
    ensures
        payload.len() == 4 ==> r == Ok::<i32, DecodeError>(le_i32(payload@)),
        payload.len() != 4 ==> r == Err::<i32, DecodeError>(
            DecodeError::MalformedAttribute { tag, len: payload.len() },
        ),
{
    if payload.len() != 4 {
        return Err(DecodeError::MalformedAttribute { tag, len: payload.len() });
    }
    assert(payload@.subrange(0, 4) =~= payload@);
    let u: u32 = read_le_word(payload, 0);
    if u < 0x8000_0000 {
        Ok(u as i32)
    } else {
        let low: i32 = (u - 0x8000_0000) as i32;
        Ok(low + i32::MIN)
    }
}

/// Decodes the payload of an unsigned 64-bit attribute. The payload must be
/// exactly eight bytes long.
pub fn decode_u64(tag: u16, payload: &Vec<u8>) -> (r: Result<u64, DecodeError>)
    ensures
        payload.len() == 8 ==> r == Ok::<u64, DecodeError>(le_u64(payload@)),
        payload.len() != 8 ==> r == Err::<u64, DecodeError>(
            DecodeError::MalformedAttribute { tag, len: payload.len() },
        ),
{
    if payload.len() != 8 {
        return Err(DecodeError::MalformedAttribute { tag, len: payload.len() });
    }
    let low: u64 = read_le_word(payload, 0) as u64;
    let high: u64 = read_le_word(payload, 4) as u64;
    Ok(low + high * 0x1_0000_0000)
}

/// Encodes a signed 32-bit integer as its four little-endian bytes.
pub fn encode_i32(x: i32) -> (bytes: Vec<u8>)
    ensures
        bytes@ == i32_le_bytes(x),
{
    let u: u32 = if x >= 0 {
        x as u32
    } else {
        (x - i32::MIN) as u32 + 0x8000_0000
    };
    let mut bytes: Vec<u8> = Vec::new();
    bytes.push((u % 0x100) as u8);
    bytes.push((u / 0x100 % 0x100) as u8);
    bytes.push((u / 0x1_0000 % 0x100) as u8);
    bytes.push((u / 0x100_0000) as u8);
    assert(bytes@ =~= i32_le_bytes(x));
    bytes
}

#[verifier::external_type_specification]
#[verifier::external_body]
pub struct ExDeError(DeError);

/// Calls neli's `Vec::<u8>::from_bytes_with_input` on the whole payload, as
/// `Attribute::get_payload_as_with_len` does. With the payload's own length
/// as input it reads every byte in order and cannot run past the end, so the
/// result is always `Ok` and holds the payload verbatim.
#[verifier::external_body]
fn payload_as_bytes(payload: &Vec<u8>) -> (r: Result<Vec<u8>, DeError>)
    ensures
        r is Ok,
        r->Ok_0@ == payload@,
{
    Vec::<u8>::from_bytes_with_input(
        &mut std::io::Cursor::new(payload.as_slice()),
        payload.len(),
    )
}

/// Decodes the payload of a raw-bytes attribute: the bytes as they were
/// sent, whatever their number.
pub fn decode_bytes(payload: &Vec<u8>) -> (bytes: Vec<u8>)
    ensures
        bytes@ == payload@,
{
    payload_as_bytes(payload).unwrap()
}

/// The payload of the last attribute of `attrs` that carries `tag`, or
/// `None` where no attribute carries it.
pub open spec fn last_payload(attrs: Seq<AttrModel>, tag: u16) -> Option<Seq<u8>>
    decreases attrs.len(),
{
    if attrs.len() == 0 {
        None
    } else if attrs.last().tag == tag {
        Some(attrs.last().payload)
    } else {
        last_payload(attrs.drop_last(), tag)
    }
}

/// The field that an unsigned 32-bit rule reads from `attrs` at `tag`.
pub open spec fn u32_at(attrs: Seq<AttrModel>, tag: u16) -> Option<u32> {
    match last_payload(attrs, tag) {
        Some(p) => Some(le_u32(p)),
        None => None,
    }
}

/// The field that a signed 32-bit rule reads from `attrs` at `tag`.
pub open spec fn i32_at(attrs: Seq<AttrModel>, tag: u16) -> Option<i32> {
    match last_payload(attrs, tag) {
        Some(p) => Some(le_i32(p)),
        None => None,
    }
}

/// The field that an unsigned 64-bit rule reads from `attrs` at `tag`.
pub open spec fn u64_at(attrs: Seq<AttrModel>, tag: u16) -> Option<u64> {
    match last_payload(attrs, tag) {
        Some(p) => Some(le_u64(p)),
        None => None,
    }
}

/// How the payload of a recognized tag is decoded.
pub ghost enum Rule {
    /// An integer of the given width in bytes; the payload has that length.
    Integer(nat),
    /// The payload itself, of any length.
    Bytes,
}

/// An attribute sequence holds a payload at `tag` exactly when some
/// attribute carries the tag, and the payload is that of the last such
/// attribute: later entries overwrite earlier ones.
pub proof fn lemma_last_payload(attrs: Seq<AttrModel>, tag: u16)
    ensures
        match last_payload(attrs, tag) {
            None => forall|i: int| 0 <= i < attrs.len() ==> (#[trigger] attrs[i]).tag != tag,
            Some(p) => exists|j: int|
                {
                    &&& 0 <= j < attrs.len()
                    &&& (#[trigger] attrs[j]).tag == tag
                    &&& attrs[j].payload == p
                    &&& forall|k: int| j < k < attrs.len() ==> (#[trigger] attrs[k]).tag != tag
                },
        },
    decreases attrs.len(),
{
    if attrs.len() > 0 {
        let rest = attrs.drop_last();
        lemma_last_payload(rest, tag);
        if attrs.last().tag == tag {
            assert(attrs[attrs.len() - 1].tag == tag);
        } else {
            match last_payload(rest, tag) {
                None => {
                    assert forall|i: int| 0 <= i < attrs.len() implies (#[trigger] attrs[i]).tag
                        != tag by {
                        if i < rest.len() {
                            assert(rest[i].tag != tag);
                        }
                    }
                },
                Some(p) => {
                    let j = choose|j: int|
                        {
                            &&& 0 <= j < rest.len()
                            &&& (#[trigger] rest[j]).tag == tag
                            &&& rest[j].payload == p
                            &&& forall|k: int| j < k < rest.len() ==> (#[trigger] rest[k]).tag != tag
                        };
                    assert(attrs[j].tag == tag && attrs[j].payload == p);
                    assert forall|k: int| j < k < attrs.len() implies (#[trigger] attrs[k]).tag
                        != tag by {
                        if k < rest.len() {
                            assert(rest[k].tag != tag);
                        }
                    }
                },
            }
        }
    }
}

/// Last write wins: where `attrs[j]` is the last attribute that carries its
/// tag, the payload read at that tag is the payload of `attrs[j]`, whatever
/// earlier attributes with the same tag hold.
pub proof fn lemma_last_write_wins(attrs: Seq<AttrModel>, j: int)
    requires
        0 <= j < attrs.len(),
        forall|k: int| j < k < attrs.len() ==> (#[trigger] attrs[k]).tag != attrs[j].tag,
    ensures
        last_payload(attrs, attrs[j].tag) == Some(attrs[j].payload),
        u32_at(attrs, attrs[j].tag) == Some(le_u32(attrs[j].payload)),
        i32_at(attrs, attrs[j].tag) == Some(le_i32(attrs[j].payload)),
        u64_at(attrs, attrs[j].tag) == Some(le_u64(attrs[j].payload)),
    decreases attrs.len(),
{
    if j < attrs.len() - 1 {
        assert(attrs[attrs.len() - 1].tag != attrs[j].tag);
        let rest = attrs.drop_last();
        assert(rest[j] == attrs[j]);
        assert forall|k: int| j < k < rest.len() implies (#[trigger] rest[k]).tag
            != rest[j].tag by {
            assert(attrs[k].tag != attrs[j].tag);
        }
        lemma_last_write_wins(rest, j);
    }
}

/// Absence fidelity: where no attribute carries `tag`, nothing is read at
/// `tag`, and no value stands in for what is missing.
pub proof fn lemma_absent_tag(attrs: Seq<AttrModel>, tag: u16)
    requires
        forall|i: int| 0 <= i < attrs.len() ==> (#[trigger] attrs[i]).tag != tag,
    ensures
        last_payload(attrs, tag) is None,
        u32_at(attrs, tag) is None,
        i32_at(attrs, tag) is None,
        u64_at(attrs, tag) is None,
    decreases attrs.len(),
{
    if attrs.len() > 0 {
        assert(attrs[attrs.len() - 1].tag != tag);
        let rest = attrs.drop_last();
        assert forall|i: int| 0 <= i < rest.len() implies (#[trigger] rest[i]).tag != tag by {
            assert(attrs[i].tag != tag);
        }
        lemma_absent_tag(rest, tag);
    }
}

} // verus!
