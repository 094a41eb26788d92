//! What every record type of the protocol offers to the response aggregator.

use vstd::prelude::*;
use crate::attr::{models, AttrModel, Attribute, DecodeError};

verus! {

/// A record that is decoded from the attribute sequence of one message.
pub trait Record: View + Sized {
    /// What decoding `attrs` gives: the record's model, or the error.
    spec fn decoded(attrs: Seq<AttrModel>) -> Result<Self::V, DecodeError>;

    /// The model of the record in which every field is absent.
    spec fn absent_model() -> Self::V;

    /// The record in which every field is absent.
    fn absent() -> (rec: Self)
        ensures
            rec@ == Self::absent_model(),
    ;

    /// Decodes one message's attributes.
    fn decode(attrs: &Vec<Attribute>) -> (r: Result<Self, DecodeError>)
        ensures
            match r {
                Ok(rec) => Self::decoded(models(attrs@)) == Ok::<Self::V, DecodeError>(rec@),
                Err(e) => Self::decoded(models(attrs@)) == Err::<Self::V, DecodeError>(e),
            },
    ;
}

} // verus!
