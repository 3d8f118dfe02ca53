use ironstream::{api_response, ApiResponse, IntoApiResponse};

#[test]
fn success_and_error_wrap_their_values() {
    let r: ApiResponse<u32> = ApiResponse::success(7);
    assert!(matches!(r, ApiResponse::Success { data: 7, error: None }));

    let r: ApiResponse<u32> = ApiResponse::error("boom".to_string());
    assert!(matches!(r, ApiResponse::Error { data: None, error } if error == "boom"));
}

#[test]
fn results_convert_by_side() {
    let ok: Result<u32, String> = Ok(5);
    assert!(matches!(
        ok.into_api_response(),
        ApiResponse::Success { data: 5, error: None }
    ));
    let err: Result<u32, String> = Err("nope".to_string());
    assert!(matches!(
        err.into_api_response(),
        ApiResponse::Error { data: None, error } if error == "nope"
    ));
}

#[test]
fn options_convert_with_a_fixed_message() {
    let some: Option<&str> = Some("x");
    assert!(matches!(
        some.into_api_response(),
        ApiResponse::Success { data: "x", error: None }
    ));
    let none: Option<&str> = None;
    assert!(matches!(
        none.into_api_response(),
        ApiResponse::Error { data: None, error } if error == "Not found"
    ));
}

#[test]
fn api_response_helper_wraps_any_convertible() {
    let wrapped = api_response(Ok::<u32, String>(9));
    assert!(matches!(
        wrapped.0,
        ApiResponse::Success { data: 9, error: None }
    ));
}
