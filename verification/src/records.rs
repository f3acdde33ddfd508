//! The answers of the district query: a district with its parcels, or an error.
use vstd::prelude::*;
use crate::text::{decimal, push_decimal, push_str};

verus! {

/// A parcel of a district, as the query reports it.
pub struct ParcelInfo {
    pub tx_index: u64,
    pub block_number: u64,
    pub inscription_id: String,
}

/// A district with its parcels.
pub struct DistrictResponse {
    pub district: u64,
    pub inscription_id: String,
    pub parcels: Vec<ParcelInfo>,
}

/// A refused query.
pub struct ErrorResponse {
    pub error: String,
}

/// The answer for district `id`, given its inscription (if it was ever
/// accepted) and its parcels as stored (transaction index and inscription):
/// each parcel is reported with the district's number as its block.
pub fn district_response(
    id: u64,
    inscription_id: Option<String>,
    parcels: Vec<(u64, String)>,
) -> (r: Result<DistrictResponse, ErrorResponse>)
    ensures
        inscription_id is None ==> (r matches Err(e) && e.error@ == "District "@ + decimal(
            id as nat,
        ) + " not found"@),
        inscription_id matches Some(ins) ==> (r matches Ok(resp) && {
            &&& resp.district == id
            &&& resp.inscription_id == ins
            &&& resp.parcels.len() == parcels.len()
            &&& forall|i: int|
                0 <= i < parcels.len() ==> {
                    &&& (#[trigger] resp.parcels[i]).tx_index == parcels[i].0
                    &&& resp.parcels[i].block_number == id
                    &&& resp.parcels[i].inscription_id == parcels[i].1
                }
        }),
{
    match inscription_id {
        None => {
            let mut error = String::new();
            push_str(&mut error, "District ");
            push_decimal(&mut error, id);
            push_str(&mut error, " not found");
            assert(error@ =~= "District "@ + decimal(id as nat) + " not found"@);
            Err(ErrorResponse { error })
        },
        Some(ins) => {
            let ghost raw = parcels@;
            let mut out: Vec<ParcelInfo> = Vec::new();
            for entry in it: parcels
                invariant
                    raw == it.seq(),
                    out.len() == it.index(),
                    forall|i: int|
                        0 <= i < it.index() ==> {
                            &&& (#[trigger] out[i]).tx_index == raw[i].0
                            &&& out[i].block_number == id
                            &&& out[i].inscription_id == raw[i].1
                        },
            {
                let (tx_index, inscription_id) = entry;
                out.push(ParcelInfo { tx_index, block_number: id, inscription_id });
            }
            Ok(DistrictResponse { district: id, inscription_id: ins, parcels: out })
        },
    }
}

} // verus!
