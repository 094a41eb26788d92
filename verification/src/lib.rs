//! Client-side logic of the nl80211 wireless-configuration protocol:
//! decoding of attribute sequences into typed records, construction of
//! request envelopes, and aggregation of streamed responses.

use vstd::prelude::*;

pub mod attr;
pub mod interface;
pub mod query;
pub mod record;
pub mod request;

verus! {

/// Name under which the protocol family is registered.
pub const NL_80211_GENL_NAME: &'static str = "nl80211";

/// Protocol version carried by every request.
pub const NL_80211_GENL_VERSION: u8 = 1;

} // verus!
