use grpcbench::config::{
    default_aperture_signatures_only, default_buffer_size, default_no_tx_timeout, ApertureEndpointConfig, Config,
    ConfigError, EndpointConfig, Protocol, TimeSpan,
};

fn config() -> Config {
    Config {
        duration: None,
        warmup: None,
        no_tx_timeout: default_no_tx_timeout(),
        buffer_size: default_buffer_size(),
        account_include: Vec::new(),
        yellowstone: Vec::new(),
        jito_shredstream: Vec::new(),
        aperture_txstream: Vec::new(),
        shreder_binary: Vec::new(),
        arpc: Vec::new(),
        jetstream: Vec::new(),
    }
}

fn entry(url: &str) -> EndpointConfig {
    EndpointConfig { url: url.to_string(), x_token: None, x_token_env: None }
}

fn aperture(url: &str, include_simulation: bool, batch_mode: bool) -> ApertureEndpointConfig {
    ApertureEndpointConfig {
        url: url.to_string(),
        x_token: None,
        x_token_env: None,
        signatures_only: default_aperture_signatures_only(),
        include_simulation,
        batch_mode,
    }
}

#[test]
fn aperture_optional_flags_default_to_false_and_can_be_enabled() {
    let mut config = config();
    config.aperture_txstream = vec![
        ("default".to_string(), aperture("https://default.example.com", false, false)),
        ("simulated".to_string(), aperture("https://simulated.example.com", true, true)),
    ];

    let endpoints = config.endpoints(&[]).expect("resolve endpoints");
    assert!(!endpoints[0].include_simulation);
    assert!(!endpoints[0].batch_mode);
    assert!(endpoints[1].include_simulation);
    assert!(endpoints[1].batch_mode);
}

#[test]
fn additional_protocol_sections_resolve_to_endpoints() {
    let mut config = config();
    config.shreder_binary = vec![("fra".to_string(), entry("http://fra.binary.shreder.xyz:9991"))];
    config.arpc = vec![("corvus".to_string(), entry("http://arpc.fra.corvus-labs.io:20202"))];
    config.jetstream = vec![("orbit".to_string(), entry("http://fra.jetstream.orbitflare.com"))];

    let endpoints = config.endpoints(&[]).expect("resolve endpoints");
    assert_eq!(endpoints.len(), 3);
    assert_eq!(endpoints[0].protocol, Protocol::ShrederBinary);
    assert_eq!(endpoints[1].protocol, Protocol::Arpc);
    assert_eq!(endpoints[2].protocol, Protocol::Jetstream);
}

#[test]
fn defaults_match_documented_values() {
    assert_eq!(default_no_tx_timeout(), TimeSpan { secs: 30, nanos: 0 });
    assert_eq!(default_buffer_size(), 4 * 1024 * 1024);
    assert!(default_aperture_signatures_only());
}

#[test]
fn tokens_come_inline_or_from_the_environment() {
    let mut config = config();
    config.yellowstone = vec![
        (
            "inline".to_string(),
            EndpointConfig {
                url: "https://a.example.com".to_string(),
                x_token: Some("secret".to_string()),
                x_token_env: Some("IGNORED".to_string()),
            },
        ),
        (
            "env".to_string(),
            EndpointConfig {
                url: "https://b.example.com".to_string(),
                x_token: None,
                x_token_env: Some("YS_TOKEN".to_string()),
            },
        ),
    ];
    config.jito_shredstream = vec![("none".to_string(), entry("https://c.example.com"))];
    let env = vec![("YS_TOKEN".to_string(), "from-env".to_string())];
    let endpoints = config.endpoints(&env).expect("resolve endpoints");
    assert_eq!(endpoints.len(), 3);
    assert_eq!(endpoints[0].alias, "inline");
    assert_eq!(endpoints[0].token, "secret");
    assert_eq!(endpoints[1].token, "from-env");
    assert_eq!(endpoints[2].token, "");
    assert_eq!(endpoints[2].protocol, Protocol::JitoShredstream);
}

#[test]
fn missing_token_variable_is_an_error() {
    let mut config = config();
    config.yellowstone = vec![(
        "env".to_string(),
        EndpointConfig { url: "https://b.example.com".to_string(), x_token: None, x_token_env: Some("NOPE".to_string()) },
    )];
    match config.endpoints(&[]) {
        Err(ConfigError::MissingTokenVariable(name)) => assert_eq!(name, "NOPE"),
        other => panic!("unexpected {other:?}"),
    }
}

#[test]
fn validation_needs_two_endpoints() {
    let mut config = config();
    config.yellowstone = vec![("a".to_string(), entry("https://a.example.com"))];
    assert_eq!(config.validate(), Err(ConfigError::TooFewEndpoints));
    config.jetstream = vec![("b".to_string(), entry("https://b.example.com"))];
    assert_eq!(config.validate(), Ok(()));
}

#[test]
fn protocol_names_and_labels() {
    assert_eq!(Protocol::JitoShredstream.as_str(), "jito-shredstream");
    assert_eq!(Protocol::ApertureTxstream.label(), "Aperture txstream");
    assert_eq!(Protocol::Arpc.label(), "aRPC");
}

#[test]
fn endpoints_follow_table_order_by_alias() {
    let mut config = config();
    config.yellowstone = vec![("alpha".to_string(), entry("https://a")), ("beta".to_string(), entry("https://b"))];
    config.jetstream = vec![("gamma".to_string(), entry("https://c"))];
    let endpoints = config.endpoints(&[]).expect("resolve endpoints");
    let aliases: Vec<&str> = endpoints.iter().map(|e| e.alias.as_str()).collect();
    assert_eq!(aliases, vec!["alpha", "beta", "gamma"]);
}

#[test]
fn protocol_names_are_distinct() {
    let all = [
        Protocol::Yellowstone,
        Protocol::JitoShredstream,
        Protocol::ApertureTxstream,
        Protocol::ShrederBinary,
        Protocol::Arpc,
        Protocol::Jetstream,
    ];
    for (i, p) in all.iter().enumerate() {
        for q in &all[i + 1..] {
            assert_ne!(p.as_str(), q.as_str());
        }
    }
}
