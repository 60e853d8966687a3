use cow::config::{Cowconfig, Server};
use cow::response::ResponseHeader;
use cow::routing::{find_locatiton, location_verdict, parser_request, LocationError, Route};

fn server(settings: &[(&str, &str)]) -> Server {
    Server {
        location: settings.iter().map(|(k, v)| (k.to_string(), v.to_string())).collect(),
    }
}

fn sample_config() -> Cowconfig {
    Cowconfig {
        debug: false,
        port: "3000".to_string(),
        address: "0.0.0.0".to_string(),
        root_dir: "/srv/www".to_string(),
        server: vec![
            server(&[("pattern", "/api/v1"), ("proxy_pass", "127.0.0.1:8000")]),
            server(&[("pattern", "/"), ("static_path", "/")]),
        ],
    }
}

fn assert_not_found(route: &Route) {
    match route {
        Route::Respond(r) => {
            assert_eq!(r.status, 200);
            assert_eq!(r.body, b"not found".to_vec());
        }
        other => panic!("expected a not-found answer, got {:?}", other),
    }
}

#[test]
fn first_matching_location_is_chosen() {
    let config = sample_config();
    assert_eq!(find_locatiton(&config.server, "/api/v1/users"), Ok(Some(0)));
    assert_eq!(find_locatiton(&config.server, "/index.html"), Ok(Some(1)));
}

#[test]
fn patterns_match_anywhere_in_the_path() {
    let servers = vec![server(&[("pattern", "v1")])];
    assert_eq!(find_locatiton(&servers, "/api/v1/x"), Ok(Some(0)));
    assert_eq!(find_locatiton(&servers, "/api/v2/x"), Ok(None));
}

#[test]
fn anchored_patterns_are_honoured() {
    let servers = vec![server(&[("pattern", "^/static/.*\\.css$")])];
    assert_eq!(find_locatiton(&servers, "/static/site.css"), Ok(Some(0)));
    assert_eq!(find_locatiton(&servers, "/x/static/site.css"), Ok(None));
}

#[test]
fn no_location_matches() {
    let servers = vec![server(&[("pattern", "^/api")])];
    assert_eq!(find_locatiton(&servers, "/home"), Ok(None));
    assert_eq!(find_locatiton(&Vec::new(), "/home"), Ok(None));
}

#[test]
fn a_location_without_pattern_stops_the_search() {
    let servers = vec![server(&[("static_path", "/")]), server(&[("pattern", "/")])];
    assert_eq!(find_locatiton(&servers, "/"), Err(LocationError::MissingPattern(0)));
}

#[test]
fn an_invalid_pattern_stops_the_search() {
    let servers = vec![server(&[("pattern", "^/a")]), server(&[("pattern", "(unclosed")])];
    assert_eq!(find_locatiton(&servers, "/b"), Err(LocationError::InvalidPattern(1)));
}

#[test]
fn locations_after_a_match_are_not_examined() {
    let servers = vec![server(&[("pattern", "/")]), server(&[("pattern", "(unclosed")])];
    assert_eq!(find_locatiton(&servers, "/b"), Ok(Some(0)));
}

#[test]
fn static_location_is_served_from_files() {
    match parser_request(&sample_config(), "/index.html") {
        Ok(Route::ServeStatic) => {}
        other => panic!("unexpected {:?}", other),
    }
}

#[test]
fn proxy_location_is_forwarded_to_its_proxy_pass() {
    match parser_request(&sample_config(), "/api/v1/users") {
        Ok(Route::Proxy { client_ip, forward_url }) => {
            assert_eq!(client_ip, "127.0.0.1");
            assert_eq!(forward_url, "http://127.0.0.1:8000");
        }
        other => panic!("unexpected {:?}", other),
    }
}

#[test]
fn proxy_pass_names_the_upstream() {
    let config = Cowconfig {
        server: vec![server(&[("pattern", "^/svc"), ("proxy_pass", "10.1.2.3:9000")])],
        ..sample_config()
    };
    match parser_request(&config, "/svc/a") {
        Ok(Route::Proxy { client_ip, forward_url }) => {
            assert_eq!(client_ip, "127.0.0.1");
            assert_eq!(forward_url, "http://10.1.2.3:9000");
        }
        other => panic!("unexpected {:?}", other),
    }
}

#[test]
fn one_location_decides_or_passes_on() {
    assert_eq!(location_verdict(3, false, false, false), Some(Err(LocationError::MissingPattern(3))));
    assert_eq!(location_verdict(3, true, false, false), Some(Err(LocationError::InvalidPattern(3))));
    assert_eq!(location_verdict(3, true, true, true), Some(Ok(Some(3))));
    assert_eq!(location_verdict(3, true, true, false), None);
}

#[test]
fn static_path_wins_over_proxy_pass() {
    let config = Cowconfig {
        server: vec![server(&[("pattern", "/"), ("proxy_pass", "x"), ("static_path", "/")])],
        ..sample_config()
    };
    match parser_request(&config, "/") {
        Ok(Route::ServeStatic) => {}
        other => panic!("unexpected {:?}", other),
    }
}

#[test]
fn location_without_a_handler_is_not_found() {
    let config = Cowconfig { server: vec![server(&[("pattern", "/")])], ..sample_config() };
    let route = parser_request(&config, "/x").unwrap();
    assert_not_found(&route);
    match route {
        Route::Respond(r) => match &r.headers[..] {
            [ResponseHeader::Named(k, v)] => {
                assert_eq!(k, "cow");
                assert_eq!(v, "0.0.1");
            }
            other => panic!("unexpected headers {:?}", other),
        },
        _ => unreachable!(),
    }
}

#[test]
fn unmatched_request_is_not_found() {
    let config = Cowconfig { server: vec![server(&[("pattern", "^/api")])], ..sample_config() };
    assert_not_found(&parser_request(&config, "/home").unwrap());
}

#[test]
fn routing_reports_a_broken_location() {
    let config = Cowconfig { server: vec![server(&[("pattern", "[")])], ..sample_config() };
    match parser_request(&config, "/") {
        Err(LocationError::InvalidPattern(0)) => {}
        other => panic!("unexpected {:?}", other),
    }
}

#[test]
fn location_settings_are_looked_up_by_key() {
    let s = server(&[("pattern", "/api"), ("proxy_pass", "127.0.0.1:8000")]);
    assert_eq!(s.get("proxy_pass").map(|v| v.as_str()), Some("127.0.0.1:8000"));
    assert_eq!(s.get("static_path"), None);
    assert!(s.contains_key("pattern"));
    assert!(!s.contains_key("Pattern"));
}

#[test]
fn listen_address_and_log_level() {
    let mut config = sample_config();
    assert_eq!(config.listen_address(), "0.0.0.0:3000");
    assert_eq!(config.log_level(), "info");
    config.debug = true;
    assert_eq!(config.log_level(), "debug");
}
