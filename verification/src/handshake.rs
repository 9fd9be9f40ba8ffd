//! What the two ends make of a request and of the response to it.
use crate::error::TransferError;
use crate::protocol::{create_response, is_acceptance, parse_response, response_bytes};
use vstd::prelude::*;

verus! {

/// What becomes of a received group: it is kept if it came through and the filter lets it pass.
/// The other end is told so in the response, and is told of every failure.
pub fn answer_request<G, F: Fn(&G) -> bool>(
    received: Result<G, TransferError>,
    filter: F,
) -> (answer: (Result<G, TransferError>, Vec<u8>))
    requires
        received matches Ok(group) ==> call_requires(filter, (&group,)),
    ensures
        match received {
            Ok(group) => exists|passed: bool|
                #![trigger call_ensures(filter, (&group,), passed)]
                {
                    &&& call_ensures(filter, (&group,), passed)
                    &&& answer.0 == if passed {
                        Ok::<G, TransferError>(group)
                    } else {
                        Err::<G, TransferError>(TransferError::Rejected)
                    }
                },
            Err(e) => answer.0 == Err::<G, TransferError>(e),
        },
        answer.1@ == response_bytes(answer.0 is Ok),
{
    let result: Result<G, TransferError> = match received {
        Ok(group) => {
            if filter(&group) {
                Ok(group)
            } else {
                Err(TransferError::Rejected)
            }
        },
        Err(e) => Err(e),
    };
    let response: Vec<u8> = create_response(result.is_ok());
    (result, response)
}

/// What becomes of a group that was offered: it is kept if the other end has accepted it.
pub fn accept_response<G>(group: G, response: &[u8]) -> (result: Result<G, TransferError>)
    ensures
        result == if is_acceptance(response@) {
            Ok::<G, TransferError>(group)
        } else {
            Err::<G, TransferError>(TransferError::ResponseError)
        },
{
    match parse_response(response) {
        Ok(_) => Ok(group),
        Err(e) => Err(e),
    }
}

/// The end that offers a group keeps it if and only if the other end does; a group that was
/// refused, for whatever reason, is given up with a response error.
pub proof fn law_both_ends_keep_the_group_or_none(kept: bool)
    ensures
        is_acceptance(response_bytes(kept)) <==> kept,
{
    crate::protocol::law_response_round_trip(kept);
}

} // verus!
