//! Request envelopes: a command, the protocol version, and the attributes
//! that narrow the command to one interface.

use vstd::prelude::*;
use crate::attr::{
    encode_i32, i32_le_bytes, last_payload, lemma_i32_round_trip, models, AttrModel, Attribute,
    DecodeError, ATTR_IFINDEX,
};
use crate::interface::{Interface, InterfaceModel};
use crate::record::Record;
use crate::NL_80211_GENL_VERSION;

verus! {

/// Asks for the interfaces.
pub const CMD_GET_INTERFACE: u8 = 5;
/// Asks for the station that an interface is linked to.
pub const CMD_GET_STATION: u8 = 17;
/// Asks for the results of the last scan of an interface.
pub const CMD_GET_SCAN: u8 = 32;

/// A request as it is handed to the transport.
#[derive(Debug, Clone, PartialEq, Eq)]
pub struct Request {
    pub cmd: u8,
    pub version: u8,
    pub attrs: Vec<Attribute>,
}

/// What a request holds, as a mathematical value.
pub ghost struct RequestModel {
    pub cmd: u8,
    pub version: u8,
    pub attrs: Seq<AttrModel>,
}

impl View for Request {
    type V = RequestModel;

    open spec fn view(&self) -> RequestModel {
        RequestModel { cmd: self.cmd, version: self.version, attrs: models(self.attrs@) }
    }
}

/// The attributes that scope a request: the interface index in little-endian
/// bytes where there is one, and nothing else.
pub open spec fn scope_attrs(scope: Option<i32>) -> Seq<AttrModel> {
    match scope {
        Some(index) => seq![AttrModel { tag: ATTR_IFINDEX, payload: i32_le_bytes(index) }],
        None => Seq::empty(),
    }
}

/// The scope of a request reads back as the interface index: decoding the
/// scoping attributes gives the record whose only field is that index.
pub proof fn lemma_scope_reads_back(index: i32)
    ensures
        Interface::decode_spec(scope_attrs(Some(index))) == Ok::<InterfaceModel, DecodeError>(
            InterfaceModel { index: Some(index), ..Interface::absent_model() },
        ),
{
    let attrs = scope_attrs(Some(index));
    lemma_i32_round_trip(index);
    assert(attrs.drop_last() =~= Seq::empty());
    assert(Interface::first_malformed(attrs.drop_last()) is None);
    assert(Interface::well_sized(attrs.last()));
    assert(last_payload(attrs.drop_last(), ATTR_IFINDEX) is None);
}

impl Request {
    /// Builds the request for `cmd`, narrowed to the interface `scope` where
    /// one is given.
    pub fn new(cmd: u8, scope: Option<i32>) -> (req: Request)
        ensures
            req@ == (RequestModel {
                cmd,
                version: NL_80211_GENL_VERSION,
                attrs: scope_attrs(scope),
            }),
    {
        let mut attrs: Vec<Attribute> = Vec::new();
        match scope {
            Some(index) => {
                attrs.push(Attribute { tag: ATTR_IFINDEX, payload: encode_i32(index) });
            },
            None => {},
        }
        assert(models(attrs@) =~= scope_attrs(scope));
        Request { cmd, version: NL_80211_GENL_VERSION, attrs }
    }

    /// The request that lists every interface.
    pub fn interfaces() -> (req: Request)
        ensures
            req@ == (RequestModel {
                cmd: CMD_GET_INTERFACE,
                version: NL_80211_GENL_VERSION,
                attrs: Seq::empty(),
            }),
    {
        Request::new(CMD_GET_INTERFACE, None)
    }

    /// The request for the station of the interface `interface_index`.
    pub fn station(interface_index: i32) -> (req: Request)
        ensures
            req@ == (RequestModel {
                cmd: CMD_GET_STATION,
                version: NL_80211_GENL_VERSION,
                attrs: scope_attrs(Some(interface_index)),
            }),
    {
        Request::new(CMD_GET_STATION, Some(interface_index))
    }

    /// The request for the scan results of the interface `interface_index`.
    pub fn scan(interface_index: i32) -> (req: Request)
        ensures
            req@ == (RequestModel {
                cmd: CMD_GET_SCAN,
                version: NL_80211_GENL_VERSION,
                attrs: scope_attrs(Some(interface_index)),
            }),
    {
        Request::new(CMD_GET_SCAN, Some(interface_index))
    }
}

} // verus!
