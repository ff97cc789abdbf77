use insights::server_config::{
    default_insights_server_url, get_insights_server_url, socket_target, UrlHost,
};

#[test]
fn default_url_round_trips() {
    let a = socket_target(&default_insights_server_url()).unwrap();
    assert_eq!(a, (UrlHost::Ipv4([127, 0, 0, 1]), 2020));
}

#[test]
fn explicit_port() {
    let a = socket_target("http://127.0.0.1:4000").unwrap();
    assert_eq!(a.1, 4000);
}

#[test]
fn the_configured_url_wins_over_the_default() {
    assert_eq!(get_insights_server_url(None), "http://127.0.0.1:2020");
    assert_eq!(get_insights_server_url(Some("http://h:1".to_string())), "http://h:1");
}

#[test]
fn schemes_supply_their_usual_port() {
    assert_eq!(socket_target("http://localhost").unwrap(), (UrlHost::Domain("localhost".to_string()), 80));
    assert_eq!(socket_target("https://example.com/x").unwrap(), (UrlHost::Domain("example.com".to_string()), 443));
    assert_eq!(socket_target("http://[::1]:8080").unwrap(), (UrlHost::Ipv6([0, 0, 0, 0, 0, 0, 0, 1]), 8080));
}

#[test]
fn urls_without_an_address_are_refused() {
    assert_eq!(socket_target("mailto:me@example.com").unwrap_err(), "INSIGHTS_SERVER_URL: invalid base URL");
    assert_eq!(socket_target("unix://host/path").unwrap_err(), "INSIGHTS_SERVER_URL: No port number in the URL");
    let err = socket_target("not a url").unwrap_err();
    assert!(err.starts_with("INSIGHTS_SERVER_URL: "));
    assert!(err.len() > "INSIGHTS_SERVER_URL: ".len());
}
