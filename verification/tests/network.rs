use aegis::dynamic_model::{DnsScenario, HttpScenario, NetworkHeader, NetworkScenario, SocketScenario};
use aegis::network::{eq_ignore_case, NetworkRuntime};

fn scenario() -> NetworkScenario {
    NetworkScenario {
        id: "unit".into(),
        dns: vec![DnsScenario { host: "c2.example.test".into(), address: [10, 0, 0, 7] }],
        http: vec![
            HttpScenario {
                url: "http://a.test/start".into(),
                status: 302,
                headers: vec![],
                body: vec![],
                redirect_to: Some("http://a.test/payload".into()),
            },
            HttpScenario {
                url: "http://a.test/payload".into(),
                status: 200,
                headers: vec![NetworkHeader { name: "Content-Type".into(), value: "text/plain".into() }],
                body: b"payload".to_vec(),
                redirect_to: None,
            },
        ],
        sockets: vec![SocketScenario { destination: "10.0.0.7:4444".into(), response: b"hello".to_vec() }],
    }
}

#[test]
fn dns_lookups_ignore_case() {
    let runtime = NetworkRuntime::new(scenario());
    assert_eq!(runtime.scenario_id(), "unit");
    assert_eq!(runtime.resolve_dns("C2.Example.TEST"), Some([10, 0, 0, 7]));
    assert_eq!(runtime.resolve_dns("other.test"), None);
    assert!(eq_ignore_case("HeLLo", "hello"));
    assert!(!eq_ignore_case("hello", "hell"));
}

#[test]
fn redirects_are_followed_and_the_body_read_in_parts() {
    let mut runtime = NetworkRuntime::new(scenario());
    runtime.register_request(7, "GET".into(), "HTTP://A.TEST/START".into());
    let hops = runtime.resolve_request(7);
    assert_eq!(hops.len(), 2);
    assert_eq!(hops[0].status, 302);
    assert!(hops[0].redirected);
    assert_eq!(hops[1].url, "http://a.test/payload");
    assert_eq!(hops[1].status, 200);
    assert!(!hops[1].redirected);
    assert_eq!(runtime.response_status(7), Some(200));
    assert_eq!(runtime.read_response(7, 3), Some(b"pay".to_vec()));
    assert_eq!(runtime.read_response(7, 100), Some(b"load".to_vec()));
    assert_eq!(runtime.read_response(7, 100), Some(Vec::new()));
    let (method, url, headers, body) = runtime.request_metadata(7).unwrap();
    assert_eq!(method, "GET");
    assert_eq!(url, "http://a.test/payload");
    assert!(headers.is_empty());
    assert!(body.is_empty());
}

#[test]
fn unknown_routes_answer_404() {
    let mut runtime = NetworkRuntime::new(scenario());
    runtime.register_request(1, "GET".into(), "http://missing.test/".into());
    let hops = runtime.resolve_request(1);
    assert_eq!(hops.len(), 1);
    assert_eq!(hops[0].status, 404);
    assert_eq!(runtime.read_response(1, 10), Some(Vec::new()));
    assert!(runtime.resolve_request(99).is_empty());
}

#[test]
fn connections_build_urls_with_their_port() {
    let mut runtime = NetworkRuntime::new(scenario());
    runtime.register_connection(3, "a.test".into(), 80);
    runtime.register_connection(4, "a.test".into(), 8080);
    assert_eq!(runtime.connection_url(3, "/x"), Some("http://a.test/x".to_string()));
    assert_eq!(runtime.connection_url(4, "/x"), Some("http://a.test:8080/x".to_string()));
    assert_eq!(runtime.connection_url(5, "/x"), None);
}

#[test]
fn sockets_replay_their_scripted_response() {
    let mut runtime = NetworkRuntime::new(scenario());
    runtime.register_socket(9);
    assert_eq!(runtime.socket_destination(9), None);
    runtime.connect_socket(9, "10.0.0.7:4444".into());
    assert_eq!(runtime.socket_destination(9), Some("10.0.0.7:4444".to_string()));
    assert_eq!(runtime.recv_socket(9, 2), Some(b"he".to_vec()));
    assert_eq!(runtime.recv_socket(9, 10), Some(b"llo".to_vec()));
    runtime.close(9);
    assert_eq!(runtime.recv_socket(9, 10), None);
}
