//! What can go wrong with preconfirmations.
use crate::text::{decimal, push_decimal};
use vstd::prelude::*;
use vstd::std_specs::convert::FromSpecImpl;
use vstd::string::*;

verus! {

/// The text of an HTTP status code, as reqwest's `StatusCode` displays it.
pub uninterp spec fn status_text(code: u16) -> Seq<char>;

/// `StatusCode::from_u16` and `StatusCode`'s `Display` of reqwest: the text of the status code.
/// A status code is a number of three digits, and no other is admitted.
#[verifier::external_body]
fn display_status(code: u16) -> (text: String)
    requires
        100 <= code <= 999,
    ensures
        text@ == status_text(code),
{
    reqwest::StatusCode::from_u16(code).unwrap().to_string()
}

/// An error that the preconfirmation server reports.
#[derive(Debug, Clone)]
pub struct PreconfErrorResponse {
    pub code: Option<u64>,
    pub message: String,
}

impl PreconfErrorResponse {
    /// The text that [`PreconfErrorResponse::display`] gives.
    pub open spec fn text(self) -> Seq<char> {
        "Preconf error: (code: "@ + decimal(
            (match self.code {
                Some(code) => code as nat,
                None => 0,
            }),
        ) + ", message: "@ + self.message@ + ")"@
    }

    /// The error in words. A missing code shows as 0.
    pub fn display(&self) -> (text: String)
        ensures
            text@ == self.text(),
            text@ == "Preconf error: (code: "@ + decimal(
                (if self.code is Some {
                    self.code->0 as nat
                } else {
                    0
                }),
            ) + ", message: "@ + self.message@ + ")"@,
    {
        let mut text = "Preconf error: (code: ".to_owned();
        let code: u64 = match self.code {
            Some(code) => code,
            None => 0,
        };
        push_decimal(&mut text, code);
        text.append(", message: ");
        text.append(self.message.as_str());
        text.append(")");
        text
    }
}

/// What can go wrong between the builder and the preconfirmation server.
#[derive(Debug, Clone)]
pub enum PreconfError {
    /// The request failed; the text says why.
    RequestError(String),
    InvalidHeader,
    PreconfError(PreconfErrorResponse),
    /// A response that cannot be made sense of: its status code and its body.
    UnknownPreconfError(u16, String),
    TooManyRequests,
    ConnectionError,
    InternalError,
    /// A preconfirmed bundle could not be made an order; the text says why.
    PreconfConvertError(String),
    SenderError,
}

impl From<PreconfErrorResponse> for PreconfError {
    fn from(response: PreconfErrorResponse) -> (error: Self) {
        PreconfError::PreconfError(response)
    }
}

impl FromSpecImpl<PreconfErrorResponse> for PreconfError {
    open spec fn obeys_from_spec() -> bool {
        true
    }

    open spec fn from_spec(response: PreconfErrorResponse) -> Self {
        PreconfError::PreconfError(response)
    }
}

impl PreconfError {
    /// A status code has three digits.
    pub open spec fn wf(self) -> bool {
        self matches PreconfError::UnknownPreconfError(code, _) ==> 100 <= code <= 999
    }

    /// The text that [`PreconfError::display`] gives.
    pub open spec fn text(self) -> Seq<char> {
        match self {
            PreconfError::RequestError(reason) => "Request error: "@ + reason@,
            PreconfError::InvalidHeader => "Header error"@,
            PreconfError::PreconfError(response) => "Preconf error: "@ + response.text(),
            PreconfError::UnknownPreconfError(code, body) => "Unknown preconf response, status: "@
                + status_text(code) + ", body: "@ + body@,
            PreconfError::TooManyRequests => "Too many requests"@,
            PreconfError::ConnectionError => "Connection error"@,
            PreconfError::InternalError => "Internal error"@,
            PreconfError::PreconfConvertError(reason) => "Preconf order conversion error: "@
                + reason@,
            PreconfError::SenderError => "Sender Error"@,
        }
    }

    /// The error in words.
    pub fn display(&self) -> (text: String)
        requires
            self.wf(),
        ensures
            text@ == self.text(),
            *self matches PreconfError::RequestError(reason) ==> text@ == "Request error: "@
                + reason@,
            *self is InvalidHeader ==> text@ == "Header error"@,
            *self matches PreconfError::PreconfError(response) ==> text@ == "Preconf error: "@
                + response.text(),
            *self matches PreconfError::UnknownPreconfError(code, body) ==> text@
                == "Unknown preconf response, status: "@ + status_text(code) + ", body: "@ + body@,
            *self is TooManyRequests ==> text@ == "Too many requests"@,
            *self is ConnectionError ==> text@ == "Connection error"@,
            *self is InternalError ==> text@ == "Internal error"@,
            *self matches PreconfError::PreconfConvertError(reason) ==> text@
                == "Preconf order conversion error: "@ + reason@,
            *self is SenderError ==> text@ == "Sender Error"@,
    {
        match self {
            PreconfError::RequestError(reason) => "Request error: ".to_owned().concat(
                reason.as_str(),
            ),
            PreconfError::InvalidHeader => "Header error".to_owned(),
            PreconfError::PreconfError(response) => "Preconf error: ".to_owned().concat(
                response.display().as_str(),
            ),
            PreconfError::UnknownPreconfError(code, body) => unknown_response_text(
                display_status(*code).as_str(),
                body.as_str(),
            ),
            PreconfError::TooManyRequests => "Too many requests".to_owned(),
            PreconfError::ConnectionError => "Connection error".to_owned(),
            PreconfError::InternalError => "Internal error".to_owned(),
            PreconfError::PreconfConvertError(reason) => "Preconf order conversion error: ".to_owned()
                .concat(reason.as_str()),
            PreconfError::SenderError => "Sender Error".to_owned(),
        }
    }
}

/// A response that cannot be made sense of, in words, given its status code in words.
pub fn unknown_response_text(status: &str, body: &str) -> (text: String)
    ensures
        text@ == "Unknown preconf response, status: "@ + status@ + ", body: "@ + body@,
{
    let mut text = "Unknown preconf response, status: ".to_owned();
    text.append(status);
    text.append(", body: ");
    text.append(body);
    text
}

/// The text of an error that the server reports shows its code, or 0 for want of one, and its
/// message.
pub proof fn lemma_response_text_means(response: PreconfErrorResponse)
    ensures
        response.text() == "Preconf error: (code: "@ + decimal(
            (if response.code is Some {
                response.code->0 as nat
            } else {
                0
            }),
        ) + ", message: "@ + response.message@ + ")"@,
{
}

} // verus!
