use rbuilder::preconf::api::{ApiData, ApiResponse, PreconfMarkets};
use rbuilder::preconf::error::{unknown_response_text, PreconfError, PreconfErrorResponse};

fn response(code: Option<u64>, message: &str) -> PreconfErrorResponse {
    PreconfErrorResponse { code, message: message.to_string() }
}

#[test]
fn error_responses_show_code_and_message() {
    assert_eq!(
        response(Some(404), "no market").display(),
        "Preconf error: (code: 404, message: no market)"
    );
    assert_eq!(response(None, "").display(), "Preconf error: (code: 0, message: )");
    assert_eq!(
        response(Some(u64::MAX), "x").display(),
        "Preconf error: (code: 18446744073709551615, message: x)"
    );
}

#[test]
fn every_error_in_words() {
    assert_eq!(PreconfError::RequestError("timeout".to_string()).display(), "Request error: timeout");
    assert_eq!(PreconfError::InvalidHeader.display(), "Header error");
    assert_eq!(
        PreconfError::from(response(Some(1), "m")).display(),
        "Preconf error: Preconf error: (code: 1, message: m)"
    );
    assert_eq!(
        PreconfError::UnknownPreconfError(404, "oops".to_string()).display(),
        "Unknown preconf response, status: 404 Not Found, body: oops"
    );
    assert_eq!(
        PreconfError::UnknownPreconfError(599, "".to_string()).display(),
        "Unknown preconf response, status: 599 <unknown status code>, body: "
    );
    assert_eq!(
        unknown_response_text("200 OK", "b"),
        "Unknown preconf response, status: 200 OK, body: b"
    );
    assert_eq!(PreconfError::TooManyRequests.display(), "Too many requests");
    assert_eq!(PreconfError::ConnectionError.display(), "Connection error");
    assert_eq!(PreconfError::InternalError.display(), "Internal error");
    assert_eq!(
        PreconfError::PreconfConvertError("r".to_string()).display(),
        "Preconf order conversion error: r"
    );
    assert_eq!(PreconfError::SenderError.display(), "Sender Error");
}

#[test]
fn responses_show_their_success() {
    let data = ApiData::PreconfMarkets(PreconfMarkets { markets: vec![] });
    let good = ApiResponse { success: true, data: data.clone() };
    let bad = ApiResponse { success: false, data };
    assert_eq!(good.display(), "ApiResponse { success: true }");
    assert_eq!(bad.display(), "ApiResponse { success: false }");
}
