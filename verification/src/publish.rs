//! Everything the publish operation decides locally: token validation, the
//! exact request to send, and what each HTTP status of the answer means.
//!
//! The network call itself is the caller's: it sends the prepared request and
//! hands the status code back.

use vstd::prelude::*;

use vstd::string::StringExecFns;
use vstd::string::StringSliceAdditionalSpecFns;

use crate::error::AppstoreError;
use crate::json::release_body;
use crate::models::NewRelease;

verus! {

/// The token holds only visible ASCII: every byte is 32 to 127.
pub open spec fn token_wf(t: Seq<u8>) -> bool {
    forall|i: int| 0 <= i < t.len() ==> 32 <= #[trigger] t[i] <= 127
}

/// Whether the API token may be placed in an authorization header.
pub fn token_valid(token: &str) -> (r: bool)
    ensures
        r == token_wf(token.spec_bytes()),
{
    let bs = token.as_bytes();
    let n = bs.len();
    let mut i: usize = 0;
    while i < n
        invariant
            bs@ == token.spec_bytes(),
            n == bs@.len(),
            i <= n,
            forall|t: int| 0 <= t < i ==> 32 <= #[trigger] bs@[t] <= 127,
        decreases n - i,
    {
        let b = bs[i];
        if b < 32 || b > 127 {
            return false;
        }
        i = i + 1;
    }
    true
}

/// The characters of the fixed publication endpoint.
pub open spec fn publish_url_chars() -> Seq<char> {
    "https://apps.nextcloud.com/api/v1/apps/releases"@
}

/// The fixed publication endpoint.
pub fn publish_url() -> (r: String)
    ensures
        r@ == publish_url_chars(),
{
    String::from_str("https://apps.nextcloud.com/api/v1/apps/releases")
}

/// The authorization header value: `Token ` followed by the API token.
pub fn auth_header_value(token: &str) -> (r: String)
    ensures
        r@ == "Token "@ + token@,
{
    let mut s = String::from_str("Token ");
    s.append(token);
    s
}

/// A fully prepared publish request: where to POST, the authorization header
/// value, and the JSON body. The remaining headers are fixed by the wire
/// contract: `Content-Type: application/json` and a `Content-Length` of the
/// body's byte length.
pub struct PublishRequest {
    pub url: String,
    pub auth: String,
    pub body: Vec<u8>,
}

/// Builds the publish request, rejecting a token that cannot be carried in a
/// header. No network is touched: a bad token fails before any request could
/// be issued.
pub fn prepare_publish(url: &str, is_nightly: bool, signature: &str, api_token: &str) -> (r: Result<
    PublishRequest,
    AppstoreError,
>)
    ensures
        r is Ok <==> token_wf(api_token.spec_bytes()),
        r matches Ok(p) ==> p.url@ == publish_url_chars() && p.auth@ == "Token "@ + api_token@
            && p.body@ == release_body(url.spec_bytes(), signature.spec_bytes(), is_nightly),
        !token_wf(api_token.spec_bytes()) ==> r == Err::<PublishRequest, AppstoreError>(
            AppstoreError::InvalidToken,
        ),
{
    if !token_valid(api_token) {
        return Err(AppstoreError::InvalidToken);
    }
    let release = NewRelease { download: url, signature, nightly: is_nightly };
    let body = crate::json::encode_release(&release);
    Ok(PublishRequest { url: publish_url(), auth: auth_header_value(api_token), body })
}

/// What each HTTP status of the publish answer means: 200 and 201 are
/// success, 400 is a caller-fixable rejection, anything else is unexpected.
pub open spec fn status_outcome(status: u16) -> Result<(), AppstoreError> {
    if status == 200 || status == 201 {
        Ok(())
    } else if status == 400 {
        Err(AppstoreError::ClientRejected(status))
    } else {
        Err(AppstoreError::UnexpectedStatus(status))
    }
}

/// The local flow of one publish attempt whose request was actually answered:
/// a bad token fails before the call, otherwise the status decides.
pub open spec fn publish_outcome(token: Seq<u8>, status: u16) -> Result<(), AppstoreError> {
    if !token_wf(token) {
        Err(AppstoreError::InvalidToken)
    } else {
        status_outcome(status)
    }
}

/// Maps the status code of the publish answer to the operation's result.
pub fn interpret_publish_status(status: u16) -> (r: Result<(), AppstoreError>)
    ensures
        r == status_outcome(status),
{
    if status == 200 || status == 201 {
        Ok(())
    } else if status == 400 {
        Err(AppstoreError::ClientRejected(status))
    } else {
        Err(AppstoreError::UnexpectedStatus(status))
    }
}

} // verus!
