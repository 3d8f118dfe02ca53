//! The uniform reply shape of the API surface.
//!
//! Every reply is either data or an error message, with the unused
//! side left empty. Serialisation of these values to the wire is a
//! transport concern and stays outside.

use vstd::prelude::*;

verus! {

/// One API reply body: data on success, a message on failure.
#[derive(Debug)]
pub enum ApiResponse<T> {
    Success { data: T, error: Option<()> },
    Error { data: Option<()>, error: String },
}

impl<T> ApiResponse<T> {
    /// Wrap data as a successful reply.
    pub fn success(data: T) -> (r: Self)
        ensures
            r == (ApiResponse::<T>::Success { data, error: None::<()> }),
    {
        ApiResponse::Success { data, error: None }
    }

    /// Wrap a message as a failed reply.
    pub fn error(error: String) -> (r: Self)
        ensures
            r == (ApiResponse::<T>::Error { data: None::<()>, error }),
    {
        ApiResponse::Error { data: None, error }
    }
}

/// Conversion into the uniform reply shape.
pub trait IntoApiResponse<T>: Sized {
    /// Does `r` render this value correctly?
    spec fn api_fits(self, r: ApiResponse<T>) -> bool;

    fn into_api_response(self) -> (r: ApiResponse<T>)
        ensures
            self.api_fits(r),
    ;
}

impl<T> IntoApiResponse<T> for Result<T, String> {
    open spec fn api_fits(self, r: ApiResponse<T>) -> bool {
        match self {
            Result::Ok(data) => r == (ApiResponse::<T>::Success { data, error: None::<()> }),
            Result::Err(error) => r == (ApiResponse::<T>::Error { data: None::<()>, error }),
        }
    }

    fn into_api_response(self) -> (r: ApiResponse<T>) {
        match self {
            Ok(data) => ApiResponse::success(data),
            Err(error) => ApiResponse::error(error),
        }
    }
}

impl<T> IntoApiResponse<T> for Option<T> {
    open spec fn api_fits(self, r: ApiResponse<T>) -> bool {
        match self {
            Option::Some(data) => r == (ApiResponse::<T>::Success { data, error: None::<()> }),
            Option::None => r matches ApiResponse::Error { data: Option::None, error }
                && error@ == "Not found"@,
        }
    }

    fn into_api_response(self) -> (r: ApiResponse<T>) {
        match self {
            Some(data) => ApiResponse::success(data),
            None => ApiResponse::error(String::from_str("Not found")),
        }
    }
}

/// A reply ready for the transport layer to serialise.
pub struct ApiResult<T>(pub ApiResponse<T>);

/// Wrap any convertible value as a reply.
pub fn api_response<T, R: IntoApiResponse<T>>(response: R) -> (r: ApiResult<T>)
    ensures
        response.api_fits(r.0),
{
    ApiResult(response.into_api_response())
}

} // verus!
