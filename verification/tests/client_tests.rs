use appstore_client::error::AppstoreError;
use appstore_client::json::{encode_apps, encode_categories, encode_release};
use appstore_client::listing::{
    apps_url_for_platform, categories_url, parse_apps_response, parse_categories_response,
};
use appstore_client::models::{App, AppRelease, Category, NewRelease};
use appstore_client::publish::{
    auth_header_value, interpret_publish_status, prepare_publish, publish_url, token_valid,
};

fn cat(id: &str, name: &str) -> Category {
    Category { id: id.as_bytes().to_vec(), name: name.as_bytes().to_vec() }
}

fn rel(version: &str, download: &str) -> AppRelease {
    AppRelease { version: version.as_bytes().to_vec(), download: download.as_bytes().to_vec() }
}

fn app(id: &str, name: &str, releases: Vec<AppRelease>) -> App {
    App { id: id.as_bytes().to_vec(), name: name.as_bytes().to_vec(), releases }
}

#[test]
fn publish_succeeds_on_200_and_201() {
    let req = prepare_publish("http://x/y.tar.gz", false, "sig", "tok").unwrap();
    assert_eq!(req.url, "https://apps.nextcloud.com/api/v1/apps/releases");
    assert_eq!(req.auth, "Token tok");
    assert_eq!(interpret_publish_status(200), Ok(()));
    assert_eq!(interpret_publish_status(201), Ok(()));
}

#[test]
fn invalid_token_fails_before_any_request() {
    let low = prepare_publish("http://x/y.tar.gz", false, "sig", "to\u{7}k");
    assert!(matches!(low, Err(AppstoreError::InvalidToken)));
    let high = prepare_publish("http://x/y.tar.gz", false, "sig", "t\u{f6}k");
    assert!(matches!(high, Err(AppstoreError::InvalidToken)));
    assert!(!token_valid("a\nb"));
    assert!(!token_valid("t\u{f6}k"));
}

#[test]
fn token_boundaries() {
    assert!(token_valid(""));
    assert!(token_valid(" ")); // byte 32
    assert!(token_valid("\u{7f}")); // byte 127
    assert!(!token_valid("\u{1f}")); // byte 31
    assert!(token_valid("abcDEF0123-_~"));
}

#[test]
fn status_400_is_client_rejected() {
    assert_eq!(interpret_publish_status(400), Err(AppstoreError::ClientRejected(400)));
}

#[test]
fn status_500_is_unexpected() {
    assert_eq!(interpret_publish_status(500), Err(AppstoreError::UnexpectedStatus(500)));
    assert_eq!(interpret_publish_status(301), Err(AppstoreError::UnexpectedStatus(301)));
    assert_eq!(interpret_publish_status(401), Err(AppstoreError::UnexpectedStatus(401)));
    assert_eq!(interpret_publish_status(404), Err(AppstoreError::UnexpectedStatus(404)));
    assert_eq!(interpret_publish_status(409), Err(AppstoreError::UnexpectedStatus(409)));
}

#[test]
fn serialized_body_is_exact() {
    let release =
        NewRelease { download: "http://x/y.tar.gz", signature: "sig123", nightly: true };
    let body = encode_release(&release);
    assert_eq!(
        body.as_slice(),
        &b"{\"download\":\"http://x/y.tar.gz\",\"signature\":\"sig123\",\"nightly\":true}"[..]
    );
}

#[test]
fn serialized_body_escapes_quotes_and_backslashes() {
    let release = NewRelease { download: "a", signature: "s\"i\\g", nightly: false };
    let body = encode_release(&release);
    assert_eq!(
        body.as_slice(),
        &b"{\"download\":\"a\",\"signature\":\"s\\\"i\\\\g\",\"nightly\":false}"[..]
    );
}

#[test]
fn serialized_body_escapes_control_bytes() {
    let release = NewRelease { download: "a\nb", signature: "s", nightly: false };
    let body = encode_release(&release);
    assert_eq!(
        body.as_slice(),
        &b"{\"download\":\"a\\u000ab\",\"signature\":\"s\",\"nightly\":false}"[..]
    );
}

#[test]
fn prepare_publish_builds_the_exact_body() {
    let req = prepare_publish("http://x/y.tar.gz", true, "sig123", "tok").unwrap();
    assert_eq!(
        req.body.as_slice(),
        &b"{\"download\":\"http://x/y.tar.gz\",\"signature\":\"sig123\",\"nightly\":true}"[..]
    );
    assert_eq!(req.auth, "Token tok");
}

#[test]
fn platform_url_carries_the_version() {
    let url = apps_url_for_platform("20");
    assert_eq!(url, "https://apps.nextcloud.com/api/v1/platform/20/apps.json");
    assert!(url.contains("/platform/20/apps.json"));
}

#[test]
fn fixed_urls() {
    assert_eq!(categories_url(), "https://apps.nextcloud.com/api/v1/categories.json");
    assert_eq!(publish_url(), "https://apps.nextcloud.com/api/v1/apps/releases");
    assert_eq!(auth_header_value("abc"), "Token abc");
}

#[test]
fn malformed_category_body_is_reported_not_fatal() {
    let r = parse_categories_response(b"not json");
    assert_eq!(r, Err(AppstoreError::MalformedResponse));
    assert_eq!(parse_categories_response(b""), Err(AppstoreError::MalformedResponse));
    assert_eq!(parse_categories_response(b"[ ]"), Err(AppstoreError::MalformedResponse));
    assert_eq!(
        parse_categories_response(b"[{\"id\":\"a\",\"name\":\"b\"}]x"),
        Err(AppstoreError::MalformedResponse)
    );
    assert_eq!(
        parse_categories_response(b"[{\"id\":\"a\nb\",\"name\":\"c\"}]"),
        Err(AppstoreError::MalformedResponse)
    );
}

#[test]
fn malformed_app_body_is_reported_not_fatal() {
    assert_eq!(parse_apps_response(b"{}"), Err(AppstoreError::MalformedResponse));
    assert_eq!(
        parse_apps_response(b"[{\"id\":\"a\",\"name\":\"b\"}]"),
        Err(AppstoreError::MalformedResponse)
    );
}

#[test]
fn categories_roundtrip_through_the_codec() {
    let cats = vec![
        cat("multimedia", "Multimedia"),
        cat("office", "Office & text"),
        cat("odd", "quote \" and backslash \\ survive"),
    ];
    let body = encode_categories(&cats);
    let decoded = parse_categories_response(body.as_slice()).unwrap();
    assert_eq!(decoded.len(), cats.len());
    assert_eq!(decoded, cats);
}

#[test]
fn empty_category_listing_roundtrips() {
    let cats: Vec<Category> = Vec::new();
    let body = encode_categories(&cats);
    assert_eq!(body.as_slice(), &b"[]"[..]);
    let decoded = parse_categories_response(body.as_slice()).unwrap();
    assert!(decoded.is_empty());
}

#[test]
fn apps_roundtrip_through_the_codec() {
    let apps = vec![
        app(
            "files",
            "Files",
            vec![rel("1.0.0", "https://example.org/files-1.0.0.tar.gz")],
        ),
        app("news", "News \"beta\"", Vec::new()),
        app(
            "mail",
            "Mail",
            vec![
                rel("0.1.0", "https://example.org/mail-0.1.0.tar.gz"),
                rel("0.2.0", "https://example.org/mail-0.2.0.tar.gz"),
            ],
        ),
    ];
    let body = encode_apps(&apps);
    let decoded = parse_apps_response(body.as_slice()).unwrap();
    assert_eq!(decoded.len(), apps.len());
    assert_eq!(decoded, apps);
}

#[test]
fn empty_app_listing_roundtrips() {
    let apps: Vec<App> = Vec::new();
    let body = encode_apps(&apps);
    assert_eq!(body.as_slice(), &b"[]"[..]);
    let decoded = parse_apps_response(body.as_slice()).unwrap();
    assert!(decoded.is_empty());
}

#[test]
fn category_listing_parses_handwritten_body() {
    let body = b"[{\"id\":\"games\",\"name\":\"Games\"},{\"id\":\"tools\",\"name\":\"Tools\"}]";
    let decoded = parse_categories_response(&body[..]).unwrap();
    assert_eq!(decoded, vec![cat("games", "Games"), cat("tools", "Tools")]);
}

#[test]
fn app_listing_parses_handwritten_body() {
    let body = b"[{\"id\":\"files\",\"name\":\"Files\",\"releases\":[{\"version\":\"1.0\",\"download\":\"https://x/f.tar.gz\"}]}]";
    let decoded = parse_apps_response(&body[..]).unwrap();
    assert_eq!(
        decoded,
        vec![app("files", "Files", vec![rel("1.0", "https://x/f.tar.gz")])]
    );
}

#[test]
fn error_descriptions_are_nonempty() {
    assert!(!AppstoreError::TransportFailure(String::from("x")).describe().is_empty());
    assert!(!AppstoreError::InvalidToken.describe().is_empty());
    assert!(!AppstoreError::ClientRejected(400).describe().is_empty());
    assert!(!AppstoreError::UnexpectedStatus(500).describe().is_empty());
    assert!(!AppstoreError::MalformedResponse.describe().is_empty());
}
