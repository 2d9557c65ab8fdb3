use aegis::dynamic_model::{
    bounded_text, default_max_instructions, default_max_trace_events, DynamicOptions, EnvironmentProfile, HttpScenario,
    NetworkMode, NetworkScenario, SocketScenario, HARD_MAX_INSTRUCTIONS, HARD_MAX_TRACE_EVENTS,
};

#[test]
fn option_defaults() {
    assert_eq!(default_max_instructions(), 1_000_000);
    assert_eq!(default_max_trace_events(), 2_000);
    let o = DynamicOptions::default();
    assert_eq!(o.max_instructions, 1_000_000);
    assert_eq!(o.environment.id, "balanced");
}

#[test]
fn options_are_bounded() {
    let mut o = DynamicOptions::default();
    o.max_instructions = 0;
    o.max_trace_events = usize::MAX;
    let b = o.bounded();
    assert_eq!(b.max_instructions, 1);
    assert_eq!(b.max_trace_events, HARD_MAX_TRACE_EVENTS);
    let mut o = DynamicOptions::default();
    o.max_instructions = u64::MAX;
    assert_eq!(o.bounded().max_instructions, HARD_MAX_INSTRUCTIONS);
}

#[test]
fn texts_drop_controls_and_fall_back() {
    assert_eq!(bounded_text("ab\u{0}c", 10, "x"), "abc");
    assert_eq!(bounded_text("abcdef", 3, "x"), "abc");
    assert_eq!(bounded_text("  \n ", 10, "fallback"), "fallback");
    assert_eq!(bounded_text("", 10, ""), "");
}

#[test]
fn presets_are_the_four_profiles() {
    let p = EnvironmentProfile::presets();
    let ids: Vec<&str> = p.iter().map(|x| x.id.as_str()).collect();
    assert_eq!(ids, vec!["balanced", "legacy", "hardened", "analysis"]);
    assert_eq!(p[2].network_mode, NetworkMode::Offline);
    assert!(p[3].debugger_present);
    assert_eq!(p[3].initial_virtual_time_ms, 3_000_000);
    assert_eq!(NetworkMode::Sinkhole.description(), "Synthetic sinkhole responses; no external access");
}

#[test]
fn profiles_are_bounded() {
    let mut p = EnvironmentProfile::balanced();
    p.id = "\u{1}".into();
    p.timezone_offset_minutes = 5000;
    p.memory_mb = 1;
    p.cpu_count = 1000;
    p.initial_virtual_time_ms = u64::MAX;
    let b = p.bounded();
    assert_eq!(b.id, "custom");
    assert_eq!(b.timezone_offset_minutes, 14 * 60);
    assert_eq!(b.memory_mb, 256);
    assert_eq!(b.cpu_count, 64);
    assert_eq!(b.initial_virtual_time_ms, 86_400_000);
}

#[test]
fn network_scenarios_share_a_byte_budget() {
    let big = vec![7u8; 1_500_000];
    let http: Vec<HttpScenario> = (0..5)
        .map(|i| HttpScenario {
            url: format!("http://h{i}.test/"),
            status: 200,
            headers: Vec::new(),
            body: big.clone(),
            redirect_to: None,
        })
        .collect();
    let scenario = NetworkScenario {
        id: String::new(),
        dns: Vec::new(),
        http,
        sockets: vec![SocketScenario { destination: "1.2.3.4:5".into(), response: big.clone() }],
    };
    let b = scenario.bounded();
    assert_eq!(b.id, "custom-network");
    let lengths: Vec<usize> = b.http.iter().map(|h| h.body.len()).collect();
    assert_eq!(lengths, vec![1_048_576, 1_048_576, 1_048_576, 1_048_576, 0]);
    assert_eq!(b.sockets[0].response.len(), 0);
    assert_eq!(NetworkScenario::default().id, "safe-default");
}
