use http::{HeaderMap, HeaderValue};
use tower_webdev::config::{Backend, Config, Mode};
use tower_webdev::headers::{get_upgrade_type, requests_trailers, sanitize_headers};
use tower_webdev::proxy::{
    create_proxied_request, error_response, handle_response, ProxyError, ResponseAction,
};
use tower_webdev::uri::forward_uri;

fn map(pairs: &[(&'static str, &'static str)]) -> HeaderMap {
    let mut m = HeaderMap::new();
    for (k, v) in pairs {
        m.append(*k, HeaderValue::from_static(v));
    }
    m
}

fn first(m: &HeaderMap, name: &str) -> Option<String> {
    m.get(name).map(|v| v.to_str().unwrap().to_string())
}

#[test]
fn sanitizer_removes_hop_headers_and_is_idempotent() {
    let mut m = map(&[
        ("connection", "keep-alive, x-custom"),
        ("te", "trailers"),
        ("trailer", "expires"),
        ("keep-alive", "timeout=5"),
        ("proxy-connection", "close"),
        ("proxy-authenticate", "basic"),
        ("proxy-authorization", "secret"),
        ("transfer-encoding", "chunked"),
        ("upgrade", "websocket"),
        ("x-custom", "1"),
        ("content-type", "text/plain"),
    ]);
    sanitize_headers(&mut m);
    assert_eq!(m.len(), 1);
    assert_eq!(first(&m, "content-type").as_deref(), Some("text/plain"));
    let once = m.clone();
    sanitize_headers(&mut m);
    assert_eq!(m, once);
}

#[test]
fn sanitizer_removes_names_listed_in_connection() {
    let mut m = map(&[
        ("connection", "X-Foo , ,x-bar"),
        ("x-foo", "1"),
        ("x-bar", "2"),
        ("x-baz", "3"),
    ]);
    sanitize_headers(&mut m);
    assert!(m.get("x-foo").is_none());
    assert!(m.get("x-bar").is_none());
    assert_eq!(first(&m, "x-baz").as_deref(), Some("3"));
    assert!(m.get("connection").is_none());
}

#[test]
fn forward_uri_collapses_one_trailing_slash() {
    assert_eq!(forward_uri("http://x/a/", "/b", None), "http://x/a/b");
    assert_eq!(forward_uri("http://x/a//", "/b", None), "http://x/a//b");
    assert_eq!(forward_uri("http://x/a", "/b", None), "http://x/a/b");
}

#[test]
fn forward_uri_target_query_key_wins() {
    assert_eq!(
        forward_uri("http://x?k=1", "/", Some("k=2&j=3")),
        "http://x/?k=1&j=3"
    );
}

#[test]
fn forward_uri_uses_inbound_query_alone() {
    assert_eq!(forward_uri("http://x", "/p", Some("a=1&b")), "http://x/p?a=1&b");
    assert_eq!(forward_uri("http://x", "/p", Some("")), "http://x/p");
    assert_eq!(forward_uri("http://x", "/p", None), "http://x/p");
}

#[test]
fn forward_uri_keeps_target_query_without_inbound_one() {
    assert_eq!(forward_uri("http://x/?k=1", "/p", None), "http://x/p?k=1");
}

#[test]
fn forward_uri_pair_without_value_gets_empty_value() {
    assert_eq!(
        forward_uri("http://x?k=1", "/p", Some("flag&v=a=b")),
        "http://x/p?k=1&flag=&v=a=b"
    );
}

#[test]
fn forward_uri_trims_trailing_ampersand() {
    assert_eq!(forward_uri("http://x?k=1&", "/p", Some("k=5")), "http://x/p?k=1");
}

#[test]
fn forwarded_for_is_set_when_absent() {
    let mut m = map(&[("host", "example.org")]);
    let uri = create_proxied_request("10.0.0.1", "http://localhost:3000", "/a", None, &mut m, None);
    let (uri, text) = uri.ok().unwrap();
    assert_eq!(uri.to_string(), "http://localhost:3000/a");
    assert_eq!(text, "http://localhost:3000/a");
    assert_eq!(first(&m, "x-forwarded-for").as_deref(), Some("10.0.0.1"));
    assert!(m.get("host").is_none());
}

#[test]
fn forwarded_for_chain_is_extended() {
    let mut m = map(&[("x-forwarded-for", "9.9.9.9")]);
    let uri = create_proxied_request("10.0.0.1", "http://localhost:3000", "/", None, &mut m, None);
    assert!(uri.is_ok());
    assert_eq!(first(&m, "x-forwarded-for").as_deref(), Some("9.9.9.9, 10.0.0.1"));
}

#[test]
fn forwarded_for_that_is_not_text_fails() {
    let mut m = HeaderMap::new();
    m.insert("x-forwarded-for", HeaderValue::from_bytes(&[0x39, 0x80]).unwrap());
    let r = create_proxied_request("10.0.0.1", "http://localhost:3000", "/", None, &mut m, None);
    assert!(matches!(r, Err(ProxyError::ForwardHeaderError)));
}

#[test]
fn target_that_does_not_parse_fails() {
    let mut m = HeaderMap::new();
    let r = create_proxied_request("10.0.0.1", "http://bad host", "/", None, &mut m, None);
    assert!(matches!(r, Err(ProxyError::InvalidUri(_))));
}

#[test]
fn te_trailers_survives_alone() {
    let mut m = map(&[("te", "trailers, gzip")]);
    assert!(requests_trailers(&m));
    let r = create_proxied_request("10.0.0.1", "http://localhost:3000", "/", None, &mut m, None);
    assert!(r.is_ok());
    let all: Vec<&HeaderValue> = m.get_all("te").iter().collect();
    assert_eq!(all, vec![&HeaderValue::from_static("trailers")]);
}

#[test]
fn te_without_trailers_is_dropped() {
    let mut m = map(&[("te", "gzip, Trailers")]);
    assert!(!requests_trailers(&m));
    let r = create_proxied_request("10.0.0.1", "http://localhost:3000", "/", None, &mut m, None);
    assert!(r.is_ok());
    assert!(m.get("te").is_none());
}

#[test]
fn upgrade_headers_are_put_back() {
    let mut m = map(&[("connection", "Upgrade"), ("upgrade", "websocket")]);
    let kind = get_upgrade_type(&m);
    assert_eq!(kind.as_deref(), Some("websocket"));
    let r = create_proxied_request(
        "10.0.0.1",
        "http://localhost:3000",
        "/ws",
        None,
        &mut m,
        kind.as_ref(),
    );
    assert!(r.is_ok());
    assert_eq!(first(&m, "upgrade").as_deref(), Some("websocket"));
    assert_eq!(first(&m, "connection").as_deref(), Some("upgrade"));
}

#[test]
fn upgrade_type_needs_connection_upgrade() {
    let m = map(&[("connection", "keep-alive"), ("upgrade", "websocket")]);
    assert_eq!(get_upgrade_type(&m), None);
}

#[test]
fn matching_switch_opens_a_tunnel() {
    let mut m = map(&[("connection", "upgrade"), ("upgrade", "websocket")]);
    let before = m.clone();
    let r = handle_response(101, &Some("websocket".to_string()), &mut m, true);
    assert!(matches!(r, Ok(ResponseAction::Tunnel)));
    assert_eq!(m, before);
}

#[test]
fn mismatched_switch_names_both_protocols() {
    let mut m = map(&[("connection", "upgrade"), ("upgrade", "h2c")]);
    let r = handle_response(101, &Some("websocket".to_string()), &mut m, true);
    match r {
        Err(ProxyError::UpgradeError(msg)) => assert_eq!(
            msg,
            "backend tried to switch to protocol Some(\"h2c\") when Some(\"websocket\") was requested"
        ),
        _ => panic!("expected an upgrade error"),
    }
}

#[test]
fn switch_without_upgrade_handle_fails() {
    let mut m = map(&[("connection", "upgrade"), ("upgrade", "websocket")]);
    let r = handle_response(101, &Some("websocket".to_string()), &mut m, false);
    match r {
        Err(ProxyError::UpgradeError(msg)) => {
            assert_eq!(msg, "request does not have an upgrade extension")
        }
        _ => panic!("expected an upgrade error"),
    }
}

#[test]
fn ordinary_response_is_sanitized() {
    let mut m = map(&[("connection", "close"), ("content-length", "2")]);
    let r = handle_response(200, &None, &mut m, false);
    assert!(matches!(r, Ok(ResponseAction::Forward)));
    assert!(m.get("connection").is_none());
    assert_eq!(first(&m, "content-length").as_deref(), Some("2"));
}

#[test]
fn refused_connection_maps_to_bad_gateway() {
    let e = ProxyError::HyperClientError { message: "refused".to_string(), is_connect: true };
    let (status, body) = error_response(&e);
    assert_eq!(status, 502);
    assert_eq!(body, "Bad gateway. Is your dev server running?");
}

#[test]
fn other_failures_map_to_internal_error() {
    let (status, body) = error_response(&ProxyError::HyperError("broken pipe".to_string()));
    assert_eq!(status, 500);
    assert_eq!(body, "HyperError: broken pipe");
    let e = ProxyError::HyperClientError { message: "reset".to_string(), is_connect: false };
    assert_eq!(error_response(&e), (500, "HyperClientError: reset".to_string()));
    assert_eq!(error_response(&ProxyError::ForwardHeaderError).1, "ForwardHeaderError");
    assert_eq!(
        error_response(&ProxyError::UpgradeError("x".to_string())).1,
        "UpgradeError: x"
    );
    assert_eq!(
        error_response(&ProxyError::InvalidUri("bad".to_string())).1,
        "InvalidUri: bad"
    );
}

#[test]
fn pnpm_config_defaults() {
    let c = Config::new_pnpm(Mode::Development, "web".to_string());
    assert_eq!(c.command, "pnpm");
    assert_eq!(c.install_command, "install");
    assert_eq!(c.root, "web");
    assert_eq!(c.target, "web/dist");
    assert_eq!(c.dev_server_port, 3000);
    let c = Config::new_pnpm(Mode::Production, "web/".to_string());
    assert_eq!(c.target, "web/dist");
}

#[test]
fn config_builders() {
    let c = Config::new_pnpm(Mode::Development, "web".to_string())
        .dev_server_port(8080)
        .target("out".to_string());
    assert_eq!(c.dev_server_port, 8080);
    assert_eq!(c.target, "out");
    let c = c.root("elsewhere".to_string());
    assert_eq!(c.target, "elsewhere");
    assert_eq!(c.root, "web");
}

#[test]
fn backend_follows_mode() {
    let c = Config::new_pnpm(Mode::Development, "web".to_string()).dev_server_port(8080);
    assert!(matches!(c.backend(), Backend::Proxy(url) if url == "http://localhost:8080"));
    let c = Config::new_pnpm(Mode::Development, "web".to_string()).dev_server_port(7);
    assert!(matches!(c.backend(), Backend::Proxy(url) if url == "http://localhost:7"));
    let c = Config::new_pnpm(Mode::Production, "web".to_string());
    assert!(matches!(c.backend(), Backend::Directory(dir) if dir == "web/dist"));
}

#[test]
fn assumed_mode_follows_build() {
    assert_eq!(Mode::assumed(true), Mode::Development);
    assert_eq!(Mode::assumed(false), Mode::Production);
}

#[test]
fn te_listing_capitalised_trailers_is_dropped() {
    let mut m = map(&[("te", "Trailers")]);
    let r = create_proxied_request("10.0.0.1", "http://x", "/", None, &mut m, None);
    assert!(r.is_ok());
    assert!(m.get("te").is_none());
}

#[test]
fn connection_listed_header_is_not_forwarded() {
    let mut m = map(&[("connection", "x-trace"), ("x-trace", "1"), ("accept", "*/*")]);
    let r = create_proxied_request("10.0.0.1", "http://x", "/", None, &mut m, None);
    let (uri, text) = r.ok().unwrap();
    assert_eq!(text, "http://x/");
    assert_eq!(uri.to_string(), "http://x/");
    assert!(m.get("x-trace").is_none());
    assert!(m.get("connection").is_none());
    let accept: Vec<&HeaderValue> = m.get_all("accept").iter().collect();
    assert_eq!(accept, vec![&HeaderValue::from_static("*/*")]);
    assert_eq!(first(&m, "x-forwarded-for").as_deref(), Some("10.0.0.1"));
}

#[test]
fn upgrade_value_that_is_not_a_header_value_fails() {
    let mut m = HeaderMap::new();
    let kind = "web\nsocket".to_string();
    let r = create_proxied_request("10.0.0.1", "http://x", "/", None, &mut m, Some(&kind));
    assert!(matches!(r, Err(ProxyError::ForwardHeaderError)));
}
