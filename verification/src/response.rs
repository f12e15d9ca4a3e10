//! The settled outcome of one input record.
use vstd::prelude::*;

verus! {

/// What a `FetchResponse` says, with the payload as a character sequence.
pub struct ResponseModel {
    pub response: Seq<char>,
    pub status_code: u16,
    pub retries: u8,
}

/// A settled outcome for one input record: the processed payload, the final
/// HTTP status (0 when no request was attempted), and how many retries were
/// spent beyond the first attempt.
#[derive(Debug)]
pub struct FetchResponse {
    pub response: String,
    pub status_code: u16,
    pub retries: u8,
}

impl View for FetchResponse {
    type V = ResponseModel;

    open spec fn view(&self) -> ResponseModel {
        ResponseModel {
            response: self.response@,
            status_code: self.status_code,
            retries: self.retries,
        }
    }
}

impl Clone for FetchResponse {
    fn clone(&self) -> (r: Self)
        ensures
            r@ == self@,
    {
        FetchResponse {
            response: self.response.clone(),
            status_code: self.status_code,
            retries: self.retries,
        }
    }
}

/// The response used for records whose URL field is empty: nothing was
/// attempted, so the status is 0 and the payload is blank.
pub open spec fn empty_response_model() -> ResponseModel {
    ResponseModel { response: Seq::empty(), status_code: 0, retries: 0 }
}

impl FetchResponse {
    pub fn empty() -> (r: FetchResponse)
        ensures
            r@ == empty_response_model(),
    {
        FetchResponse { response: String::new(), status_code: 0, retries: 0 }
    }
}

} // verus!
