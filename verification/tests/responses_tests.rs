use scheduling_service::responses::{ApiResponse, EmptyApiResponse, HeadpatResponse};

#[test]
fn ok_envelope_carries_data_and_no_error() {
    let r: ApiResponse<u32> = ApiResponse::ok(7);
    assert!(r.success);
    assert_eq!(r.data, Some(7));
    assert!(r.error.is_none());
}

#[test]
fn err_envelope_carries_message_and_no_data() {
    let r: ApiResponse<u32> = ApiResponse::err("boom".to_string());
    assert!(!r.success);
    assert!(r.data.is_none());
    assert_eq!(r.error.as_deref(), Some("boom"));
}

#[test]
fn plain_envelopes_hold_their_fields() {
    let empty = EmptyApiResponse {
        success: true,
        error: None,
    };
    assert!(empty.success);
    let headpat = HeadpatResponse {
        message: "ok".to_string(),
    };
    assert_eq!(headpat.message, "ok");
}
