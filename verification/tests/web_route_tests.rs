use grok_bridge::web::{
    rejection_message, rejection_status, web_route, DecodeError, WebAsset, WebRejection, WebRoute,
};

#[test]
fn close_api_still_requires_webui_header() {
    let route = web_route("POST", "/api/sessions/missing/close", false);
    assert_eq!(route, WebRoute::Rejected(WebRejection::MissingBridgeHeader));
    assert_eq!(rejection_status(WebRejection::MissingBridgeHeader), "403 Forbidden");
    assert_eq!(rejection_message(WebRejection::MissingBridgeHeader), "missing WebUI request header");
    assert_eq!(
        web_route("POST", "/api/sessions/missing/close", true),
        WebRoute::CloseSession("missing".to_owned())
    );
}

#[test]
fn serves_only_bundled_webui_distribution_assets() {
    assert_eq!(web_route("GET", "/", false), WebRoute::Asset(WebAsset::IndexHtml));
    assert_eq!(web_route("GET", "/assets/app.js", false), WebRoute::Asset(WebAsset::AppJs));
    assert_eq!(web_route("GET", "/assets/app.css", false), WebRoute::Asset(WebAsset::AppCss));
    assert_eq!(
        web_route("GET", "/assets/missing.js", false),
        WebRoute::Rejected(WebRejection::NotFound)
    );
    assert_eq!(WebAsset::IndexHtml.content_type(), "text/html; charset=utf-8");
    assert_eq!(WebAsset::AppJs.content_type(), "text/javascript; charset=utf-8");
    assert_eq!(WebAsset::AppCss.content_type(), "text/css; charset=utf-8");
    assert_eq!(WebAsset::AppJs.bundle_file(), "assets/app.js");
    assert_eq!(rejection_status(WebRejection::NotFound), "404 Not Found");
    assert_eq!(rejection_message(WebRejection::NotFound), "not found");
}

#[test]
fn sessions_api_remains_json_instead_of_static_content() {
    assert_eq!(web_route("GET", "/api/sessions", false), WebRoute::Sessions);
    assert_eq!(web_route("GET", "/api/version", false), WebRoute::Version);
    assert_eq!(web_route("GET", "/api/events", false), WebRoute::Events);
    assert_eq!(web_route("POST", "/api/sessions", true), WebRoute::Rejected(WebRejection::NotFound));
}

#[test]
fn group_close_routes_decode_and_validate_their_segment() {
    assert_eq!(
        web_route("POST", "/api/owners/Codex%20A/close", true),
        WebRoute::CloseOwner("Codex A".to_owned())
    );
    assert_eq!(
        web_route("POST", "/api/owners/%ZZ/close", true),
        WebRoute::Rejected(WebRejection::BadSegment(DecodeError::InvalidEscape))
    );
    assert_eq!(
        web_route("POST", "/api/owners/%20%20/close", true),
        WebRoute::Rejected(WebRejection::InvalidOwner)
    );
    assert_eq!(
        web_route("POST", "/api/clients/thread-42/close", true),
        WebRoute::CloseClient("thread-42".to_owned())
    );
    assert_eq!(
        web_route("POST", "/api/clients/a%0Ab/close", true),
        WebRoute::Rejected(WebRejection::InvalidClientSessionId)
    );
    assert_eq!(
        web_route("POST", "/api/clients/thread-42/close", false),
        WebRoute::Rejected(WebRejection::MissingBridgeHeader)
    );
    assert_eq!(rejection_status(WebRejection::InvalidOwner), "400 Bad Request");
    assert_eq!(rejection_status(WebRejection::NotFound), "404 Not Found");
}
