//! The record of one wireless network interface and its decoder.

use vstd::prelude::*;
use crate::attr::{
    decode_bytes, decode_i32, decode_u32, decode_u64, i32_at, last_payload, le_i32, le_u32,
    le_u64, lemma_absent_tag, lemma_last_write_wins, models, u32_at, u64_at, AttrModel, Attribute, DecodeError, Rule, ATTR_CENTER_FREQ1, ATTR_CENTER_FREQ2,
    ATTR_CHANNEL_WIDTH, ATTR_IFINDEX, ATTR_IFNAME, ATTR_IFTYPE, ATTR_MAC, ATTR_SSID, ATTR_WDEV,
    ATTR_WIPHY, ATTR_WIPHY_CHANNEL_TYPE, ATTR_WIPHY_FREQ, ATTR_WIPHY_TX_POWER_LEVEL,
};
use crate::record::Record;

verus! {

/// A wireless network interface. A field is `None` where the message did
/// not carry its attribute.
#[derive(Debug, Clone, PartialEq, Eq)]
pub struct Interface {
    /// Type of the interface.
    pub iftype: Option<u32>,
    /// Index of the interface, by which further information is asked for.
    pub index: Option<i32>,
    /// Network name.
    pub ssid: Option<Vec<u8>>,
    /// Hardware address.
    pub mac: Option<Vec<u8>>,
    /// Name of the interface.
    pub name: Option<Vec<u8>>,
    /// Frequency of the selected channel in MHz.
    pub frequency: Option<u32>,
    /// Channel type.
    pub channel_type: Option<u32>,
    /// Channel width.
    pub channel: Option<u32>,
    /// First center frequency.
    pub center_freq1: Option<u32>,
    /// Second center frequency.
    pub center_freq2: Option<u32>,
    /// Transmit power level in mBm; the bit pattern of a signed value.
    pub power: Option<u32>,
    /// Index of the physical device.
    pub phy: Option<u32>,
    /// Wireless device identifier.
    pub device: Option<u64>,
}

/// What an interface record holds, as a mathematical value.
pub ghost struct InterfaceModel {
    pub iftype: Option<u32>,
    pub index: Option<i32>,
    pub ssid: Option<Seq<u8>>,
    pub mac: Option<Seq<u8>>,
    pub name: Option<Seq<u8>>,
    pub frequency: Option<u32>,
    pub channel_type: Option<u32>,
    pub channel: Option<u32>,
    pub center_freq1: Option<u32>,
    pub center_freq2: Option<u32>,
    pub power: Option<u32>,
    pub phy: Option<u32>,
    pub device: Option<u64>,
}

/// The bytes of an optional byte field.
pub open spec fn bytes_model(field: Option<Vec<u8>>) -> Option<Seq<u8>> {
    match field {
        Some(v) => Some(v@),
        None => None,
    }
}

impl View for Interface {
    type V = InterfaceModel;

    open spec fn view(&self) -> InterfaceModel {
        InterfaceModel {
            iftype: self.iftype,
            index: self.index,
            ssid: bytes_model(self.ssid),
            mac: bytes_model(self.mac),
            name: bytes_model(self.name),
            frequency: self.frequency,
            channel_type: self.channel_type,
            channel: self.channel,
            center_freq1: self.center_freq1,
            center_freq2: self.center_freq2,
            power: self.power,
            phy: self.phy,
            device: self.device,
        }
    }
}

impl Interface {
    /// The decode rule of each tag that an interface record recognizes;
    /// `None` for every other tag.
    pub open spec fn rule(tag: u16) -> Option<Rule> {
        if tag == ATTR_IFINDEX || tag == ATTR_IFTYPE || tag == ATTR_WIPHY_FREQ || tag
            == ATTR_WIPHY_CHANNEL_TYPE || tag == ATTR_CHANNEL_WIDTH || tag == ATTR_CENTER_FREQ1
            || tag == ATTR_CENTER_FREQ2 || tag == ATTR_WIPHY_TX_POWER_LEVEL || tag == ATTR_WIPHY {
            Some(Rule::Integer(4))
        } else if tag == ATTR_WDEV {
            Some(Rule::Integer(8))
        } else if tag == ATTR_SSID || tag == ATTR_MAC || tag == ATTR_IFNAME {
            Some(Rule::Bytes)
        } else {
            None
        }
    }

    /// Whether the tag is one that an interface record reads.
    pub open spec fn recognized(a: AttrModel) -> bool {
        Self::rule(a.tag) is Some
    }

    /// Whether the attribute's payload has the length that its rule asks for.
    pub open spec fn well_sized(a: AttrModel) -> bool {
        match Self::rule(a.tag) {
            Some(Rule::Integer(width)) => a.payload.len() == width,
            _ => true,
        }
    }

    /// The first attribute of `attrs` that is not well sized, if there is one.
    pub open spec fn first_malformed(attrs: Seq<AttrModel>) -> Option<AttrModel>
        decreases attrs.len(),
    {
        if attrs.len() == 0 {
            None
        } else {
            match Self::first_malformed(attrs.drop_last()) {
                Some(a) => Some(a),
                None => if Self::well_sized(attrs.last()) {
                    None
                } else {
                    Some(attrs.last())
                },
            }
        }
    }

    /// The record that `attrs` describes: each field is read from the last
    /// attribute with the field's tag, and is absent where there is none.
    pub open spec fn fields(attrs: Seq<AttrModel>) -> InterfaceModel {
        InterfaceModel {
            iftype: u32_at(attrs, ATTR_IFTYPE),
            index: i32_at(attrs, ATTR_IFINDEX),
            ssid: last_payload(attrs, ATTR_SSID),
            mac: last_payload(attrs, ATTR_MAC),
            name: last_payload(attrs, ATTR_IFNAME),
            frequency: u32_at(attrs, ATTR_WIPHY_FREQ),
            channel_type: u32_at(attrs, ATTR_WIPHY_CHANNEL_TYPE),
            channel: u32_at(attrs, ATTR_CHANNEL_WIDTH),
            center_freq1: u32_at(attrs, ATTR_CENTER_FREQ1),
            center_freq2: u32_at(attrs, ATTR_CENTER_FREQ2),
            power: u32_at(attrs, ATTR_WIPHY_TX_POWER_LEVEL),
            phy: u32_at(attrs, ATTR_WIPHY),
            device: u64_at(attrs, ATTR_WDEV),
        }
    }

    /// What decoding gives: the error of the first malformed attribute, or
    /// else the record that the attributes describe.
    pub open spec fn decode_spec(attrs: Seq<AttrModel>) -> Result<InterfaceModel, DecodeError> {
        match Self::first_malformed(attrs) {
            Some(a) => Err(
                DecodeError::MalformedAttribute { tag: a.tag, len: a.payload.len() as usize },
            ),
            None => Ok(Self::fields(attrs)),
        }
    }

    /// A malformed attribute found in a prefix is the first one of the whole
    /// sequence too.
    proof fn lemma_malformed_in_prefix(attrs: Seq<AttrModel>, k: int)
        requires
            0 <= k <= attrs.len(),
            Self::first_malformed(attrs.take(k)) is Some,
        ensures
            Self::first_malformed(attrs) == Self::first_malformed(attrs.take(k)),
        decreases attrs.len() - k,
    {
        if k < attrs.len() {
            assert(attrs.take(k + 1).drop_last() =~= attrs.take(k));
            Self::lemma_malformed_in_prefix(attrs, k + 1);
        } else {
            assert(attrs.take(k) =~= attrs);
        }
    }

    /// The attributes of `attrs` whose tags an interface record reads, in
    /// their order.
    pub open spec fn known(attrs: Seq<AttrModel>) -> Seq<AttrModel> {
        attrs.filter(|a: AttrModel| Self::recognized(a))
    }

    /// No attribute is malformed exactly when every attribute is well
    /// sized; else the one named is the earliest that is not.
    pub proof fn lemma_first_malformed(attrs: Seq<AttrModel>)
        ensures
            match Self::first_malformed(attrs) {
                None => forall|i: int|
                    0 <= i < attrs.len() ==> Self::well_sized(#[trigger] attrs[i]),
                Some(a) => exists|i: int|
                    {
                        &&& 0 <= i < attrs.len()
                        &&& #[trigger] attrs[i] == a
                        &&& !Self::well_sized(a)
                        &&& forall|j: int| 0 <= j < i ==> Self::well_sized(#[trigger] attrs[j])
                    },
            },
        decreases attrs.len(),
    {
        if attrs.len() > 0 {
            let rest = attrs.drop_last();
            Self::lemma_first_malformed(rest);
            match Self::first_malformed(rest) {
                Some(a) => {
                    let i = choose|i: int|
                        {
                            &&& 0 <= i < rest.len()
                            &&& #[trigger] rest[i] == a
                            &&& !Self::well_sized(a)
                            &&& forall|j: int| 0 <= j < i ==> Self::well_sized(#[trigger] rest[j])
                        };
                    assert(attrs[i] == a);
                    assert forall|j: int| 0 <= j < i implies Self::well_sized(
                        #[trigger] attrs[j],
                    ) by {
                        assert(Self::well_sized(rest[j]));
                    }
                },
                None => {
                    assert forall|j: int| 0 <= j < rest.len() implies Self::well_sized(
                        #[trigger] attrs[j],
                    ) by {
                        assert(Self::well_sized(rest[j]));
                    }
                    if !Self::well_sized(attrs.last()) {
                        assert(attrs[attrs.len() - 1] == attrs.last());
                    }
                },
            }
        }
    }

    /// Length strictness: an integer attribute whose payload is not as long
    /// as its integer makes decoding fail, wherever it stands.
    pub proof fn lemma_length_strictness(attrs: Seq<AttrModel>, i: int, width: nat)
        requires
            0 <= i < attrs.len(),
            Self::rule(attrs[i].tag) == Some(Rule::Integer(width)),
            attrs[i].payload.len() != width,
        ensures
            Self::decode_spec(attrs) is Err,
    {
        Self::lemma_first_malformed(attrs);
        if Self::first_malformed(attrs) is None {
            assert(Self::well_sized(attrs[i]));
        }
    }

    /// Last write wins in the record: where `attrs[j]` is the last attribute
    /// that carries its tag, the field of that tag holds the value of
    /// `attrs[j]`, whatever earlier attributes with the same tag hold.
    pub proof fn lemma_field_from_last(attrs: Seq<AttrModel>, j: int)
        requires
            0 <= j < attrs.len(),
            forall|k: int| j < k < attrs.len() ==> (#[trigger] attrs[k]).tag != attrs[j].tag,
        ensures
            ({
                let tag = attrs[j].tag;
                let payload = attrs[j].payload;
                let rec = Self::fields(attrs);
                &&& tag == ATTR_IFTYPE ==> rec.iftype == Some(le_u32(payload))
                &&& tag == ATTR_IFINDEX ==> rec.index == Some(le_i32(payload))
                &&& tag == ATTR_SSID ==> rec.ssid == Some(payload)
                &&& tag == ATTR_MAC ==> rec.mac == Some(payload)
                &&& tag == ATTR_IFNAME ==> rec.name == Some(payload)
                &&& tag == ATTR_WIPHY_FREQ ==> rec.frequency == Some(le_u32(payload))
                &&& tag == ATTR_WIPHY_CHANNEL_TYPE ==> rec.channel_type == Some(le_u32(payload))
                &&& tag == ATTR_CHANNEL_WIDTH ==> rec.channel == Some(le_u32(payload))
                &&& tag == ATTR_CENTER_FREQ1 ==> rec.center_freq1 == Some(le_u32(payload))
                &&& tag == ATTR_CENTER_FREQ2 ==> rec.center_freq2 == Some(le_u32(payload))
                &&& tag == ATTR_WIPHY_TX_POWER_LEVEL ==> rec.power == Some(le_u32(payload))
                &&& tag == ATTR_WIPHY ==> rec.phy == Some(le_u32(payload))
                &&& tag == ATTR_WDEV ==> rec.device == Some(le_u64(payload))
            }),
    {
        lemma_last_write_wins(attrs, j);
    }

    /// Absence fidelity in the record: where no attribute carries `tag`, the
    /// field of that tag is absent.
    pub proof fn lemma_field_absent(attrs: Seq<AttrModel>, tag: u16)
        requires
            forall|i: int| 0 <= i < attrs.len() ==> (#[trigger] attrs[i]).tag != tag,
        ensures
            ({
                let rec = Self::fields(attrs);
                &&& tag == ATTR_IFTYPE ==> rec.iftype is None
                &&& tag == ATTR_IFINDEX ==> rec.index is None
                &&& tag == ATTR_SSID ==> rec.ssid is None
                &&& tag == ATTR_MAC ==> rec.mac is None
                &&& tag == ATTR_IFNAME ==> rec.name is None
                &&& tag == ATTR_WIPHY_FREQ ==> rec.frequency is None
                &&& tag == ATTR_WIPHY_CHANNEL_TYPE ==> rec.channel_type is None
                &&& tag == ATTR_CHANNEL_WIDTH ==> rec.channel is None
                &&& tag == ATTR_CENTER_FREQ1 ==> rec.center_freq1 is None
                &&& tag == ATTR_CENTER_FREQ2 ==> rec.center_freq2 is None
                &&& tag == ATTR_WIPHY_TX_POWER_LEVEL ==> rec.power is None
                &&& tag == ATTR_WIPHY ==> rec.phy is None
                &&& tag == ATTR_WDEV ==> rec.device is None
            }),
    {
        lemma_absent_tag(attrs, tag);
    }

    proof fn lemma_known_payload(attrs: Seq<AttrModel>, tag: u16)
        requires
            Self::rule(tag) is Some,
        ensures
            last_payload(Self::known(attrs), tag) == last_payload(attrs, tag),
        decreases attrs.len(),
    {
        reveal(Seq::filter);
        if attrs.len() > 0 {
            let rest = attrs.drop_last();
            Self::lemma_known_payload(rest, tag);
            if Self::recognized(attrs.last()) {
                assert(Self::known(attrs) == Self::known(rest).push(attrs.last()));
                assert(Self::known(attrs).drop_last() =~= Self::known(rest));
            } else {
                assert(Self::known(attrs) == Self::known(rest));
            }
        }
    }

    proof fn lemma_known_malformed(attrs: Seq<AttrModel>)
        ensures
            Self::first_malformed(Self::known(attrs)) == Self::first_malformed(attrs),
        decreases attrs.len(),
    {
        reveal(Seq::filter);
        if attrs.len() > 0 {
            let rest = attrs.drop_last();
            Self::lemma_known_malformed(rest);
            if Self::recognized(attrs.last()) {
                assert(Self::known(attrs) == Self::known(rest).push(attrs.last()));
                assert(Self::known(attrs).drop_last() =~= Self::known(rest));
            } else {
                assert(Self::known(attrs) == Self::known(rest));
            }
        }
    }

    /// Unknown tags are tolerated: decoding a sequence gives what decoding
    /// it without the attributes of unrecognized tags gives.
    pub proof fn lemma_unknown_tags_ignored(attrs: Seq<AttrModel>)
        ensures
            Self::decode_spec(attrs) == Self::decode_spec(Self::known(attrs)),
    {
        Self::lemma_known_malformed(attrs);
        Self::lemma_known_payload(attrs, ATTR_IFTYPE);
        Self::lemma_known_payload(attrs, ATTR_IFINDEX);
        Self::lemma_known_payload(attrs, ATTR_SSID);
        Self::lemma_known_payload(attrs, ATTR_MAC);
        Self::lemma_known_payload(attrs, ATTR_IFNAME);
        Self::lemma_known_payload(attrs, ATTR_WIPHY_FREQ);
        Self::lemma_known_payload(attrs, ATTR_WIPHY_CHANNEL_TYPE);
        Self::lemma_known_payload(attrs, ATTR_CHANNEL_WIDTH);
        Self::lemma_known_payload(attrs, ATTR_CENTER_FREQ1);
        Self::lemma_known_payload(attrs, ATTR_CENTER_FREQ2);
        Self::lemma_known_payload(attrs, ATTR_WIPHY_TX_POWER_LEVEL);
        Self::lemma_known_payload(attrs, ATTR_WIPHY);
        Self::lemma_known_payload(attrs, ATTR_WDEV);
    }

    /// Decodes the attributes of one message into an interface record.
    ///
    /// Every integer attribute must be exactly as long as its integer, else
    /// decoding fails with the first such attribute. Attributes with other
    /// tags are passed over, and of several attributes with one tag the last
    /// is kept.
    pub fn try_from(attrs: &Vec<Attribute>) -> (r: Result<Interface, DecodeError>)
        ensures
            match r {
                Ok(rec) => Self::decode_spec(models(attrs@)) == Ok::<InterfaceModel, DecodeError>(
                    rec@,
                ),
                Err(e) => Self::decode_spec(models(attrs@)) == Err::<InterfaceModel, DecodeError>(
                    e,
                ),
            },
    {
        let mut res = Interface::absent();
        let mut i: usize = 0;
        while i < attrs.len()
            invariant
                i <= attrs.len(),
                Self::first_malformed(models(attrs@).take(i as int)) is None,
                res@ == Self::fields(models(attrs@).take(i as int)),
            decreases attrs.len() - i,
        {
            let attr = &attrs[i];
            let tag = attr.tag;
            proof {
                let m = models(attrs@);
                assert(m.take(i + 1).drop_last() =~= m.take(i as int));
                assert(m.take(i + 1).last() == attr@);
                if !Self::well_sized(attr@) {
                    Self::lemma_malformed_in_prefix(m, i + 1);
                }
            }
            if tag == ATTR_IFINDEX {
                match decode_i32(tag, &attr.payload) {
                    Ok(v) => res.index = Some(v),
                    Err(e) => return Err(e),
                }
            } else if tag == ATTR_SSID {
                res.ssid = Some(decode_bytes(&attr.payload));
            } else if tag == ATTR_MAC {
                res.mac = Some(decode_bytes(&attr.payload));
            } else if tag == ATTR_IFNAME {
                res.name = Some(decode_bytes(&attr.payload));
            } else if tag == ATTR_IFTYPE {
                match decode_u32(tag, &attr.payload) {
                    Ok(v) => res.iftype = Some(v),
                    Err(e) => return Err(e),
                }
            } else if tag == ATTR_WIPHY_FREQ {
                match decode_u32(tag, &attr.payload) {
                    Ok(v) => res.frequency = Some(v),
                    Err(e) => return Err(e),
                }
            } else if tag == ATTR_WIPHY_CHANNEL_TYPE {
                match decode_u32(tag, &attr.payload) {
                    Ok(v) => res.channel_type = Some(v),
                    Err(e) => return Err(e),
                }
            } else if tag == ATTR_CHANNEL_WIDTH {
                match decode_u32(tag, &attr.payload) {
                    Ok(v) => res.channel = Some(v),
                    Err(e) => return Err(e),
                }
            } else if tag == ATTR_CENTER_FREQ1 {
                match decode_u32(tag, &attr.payload) {
                    Ok(v) => res.center_freq1 = Some(v),
                    Err(e) => return Err(e),
                }
            } else if tag == ATTR_CENTER_FREQ2 {
                match decode_u32(tag, &attr.payload) {
                    Ok(v) => res.center_freq2 = Some(v),
                    Err(e) => return Err(e),
                }
            } else if tag == ATTR_WIPHY_TX_POWER_LEVEL {
                match decode_u32(tag, &attr.payload) {
                    Ok(v) => res.power = Some(v),
                    Err(e) => return Err(e),
                }
            } else if tag == ATTR_WIPHY {
                match decode_u32(tag, &attr.payload) {
                    Ok(v) => res.phy = Some(v),
                    Err(e) => return Err(e),
                }
            } else if tag == ATTR_WDEV {
                match decode_u64(tag, &attr.payload) {
                    Ok(v) => res.device = Some(v),
                    Err(e) => return Err(e),
                }
            }
            i += 1;
        }
        assert(models(attrs@).take(i as int) =~= models(attrs@));
        Ok(res)
    }
}

impl Record for Interface {
    open spec fn decoded(attrs: Seq<AttrModel>) -> Result<InterfaceModel, DecodeError> {
        Self::decode_spec(attrs)
    }

    open spec fn absent_model() -> InterfaceModel {
        Self::fields(Seq::empty())
    }

    fn absent() -> (rec: Interface) {
        Interface {
            iftype: None,
            index: None,
            ssid: None,
            mac: None,
            name: None,
            frequency: None,
            channel_type: None,
            channel: None,
            center_freq1: None,
            center_freq2: None,
            power: None,
            phy: None,
            device: None,
        }
    }

    fn decode(attrs: &Vec<Attribute>) -> (r: Result<Interface, DecodeError>) {
        Interface::try_from(attrs)
    }
}

impl Default for Interface {
    fn default() -> (rec: Interface)
        ensures
            rec@ == Interface::absent_model(),
    {
        Interface::absent()
    }
}

} // verus!
