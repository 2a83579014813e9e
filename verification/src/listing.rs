//! The two listing operations' local halves: the URLs they GET and the
//! decoding of the bodies that come back.

use vstd::prelude::*;

use vstd::string::StringExecFns;

use crate::error::AppstoreError;
use crate::json::{app_views, cat_views};
use crate::models::{App, Category};
use crate::parse::{parse_apps_v, parse_categories_v};

verus! {

/// The characters of the fixed category listing endpoint.
pub open spec fn categories_url_chars() -> Seq<char> {
    "https://apps.nextcloud.com/api/v1/categories.json"@
}

/// The fixed category listing endpoint.
pub fn categories_url() -> (r: String)
    ensures
        r@ == categories_url_chars(),
{
    String::from_str("https://apps.nextcloud.com/api/v1/categories.json")
}

/// The platform listing endpoint for a platform version: the version is
/// substituted into the path between `/platform/` and `/apps.json`.
pub open spec fn apps_url_chars(version: Seq<char>) -> Seq<char> {
    "https://apps.nextcloud.com/api/v1/platform/"@ + version + "/apps.json"@
}

/// The platform listing endpoint for `version`. The result always carries
/// `/platform/` directly followed by the version and `/apps.json`; the caller
/// is trusted to supply a well-formed version token.
pub fn apps_url_for_platform(version: &str) -> (r: String)
    ensures
        r@ == apps_url_chars(version@),
{
    let mut s = String::from_str("https://apps.nextcloud.com/api/v1/platform/");
    s.append(version);
    s.append("/apps.json");
    s
}

/// Decodes a category listing body; a body that is not the expected JSON
/// shape is a `MalformedResponse`, never a crash.
pub fn parse_categories_response(body: &[u8]) -> (r: Result<Vec<Category>, AppstoreError>)
    ensures
        r is Ok <==> parse_categories_v(body@) is Some,
        r matches Ok(cs) ==> parse_categories_v(body@) == Some(cat_views(cs@)),
        parse_categories_v(body@) is None ==> r == Err::<Vec<Category>, AppstoreError>(
            AppstoreError::MalformedResponse,
        ),
{
    match crate::parse::decode_categories(body) {
        Some(cs) => Ok(cs),
        None => Err(AppstoreError::MalformedResponse),
    }
}

/// Decodes an app listing body; a body that is not the expected JSON shape is
/// a `MalformedResponse`, never a crash.
pub fn parse_apps_response(body: &[u8]) -> (r: Result<Vec<App>, AppstoreError>)
    ensures
        r is Ok <==> parse_apps_v(body@) is Some,
        r matches Ok(aps) ==> parse_apps_v(body@) == Some(app_views(aps@)),
        parse_apps_v(body@) is None ==> r == Err::<Vec<App>, AppstoreError>(
            AppstoreError::MalformedResponse,
        ),
{
    match crate::parse::decode_apps(body) {
        Some(aps) => Ok(aps),
        None => Err(AppstoreError::MalformedResponse),
    }
}

} // verus!
