use agent_wallet::config::{
    Config, EnabledTransports, LocalConfig, MqttConfig, SecurityConfig, StoreConfig, TransportsConfig,
};
use agent_wallet::config::{DEFAULT_REQUEST_TOPIC_PREFIX, DEFAULT_RESPONSE_TOPIC_PREFIX};
use agent_wallet::protocol::ClientPolicy;
use agent_wallet::Error;

fn store_only() -> Config {
    Config {
        store: StoreConfig {
            directory: "/tmp/wallet".to_owned(),
            master_key_file: "/tmp/master.key".to_owned(),
        },
        security: SecurityConfig::default(),
        transports: TransportsConfig::default(),
    }
}

fn policy(prefix: &str) -> ClientPolicy {
    ClientPolicy {
        client_id_prefix: prefix.to_owned(),
        wallet_ids: vec!["payer".to_owned()],
        purposes: vec!["x402.payment".to_owned()],
    }
}

fn served() -> Config {
    let mut config = store_only();
    config.security.client_policies = vec![policy("flowgent-")];
    config.transports.local.enabled = true;
    config.transports.mqtt.enabled = true;
    config
}

fn refusal(config: &Config) -> String {
    match config.validate() {
        Err(Error::Config(message)) => message,
        Err(error) => panic!("another error: {}", error.message()),
        Ok(()) => panic!("accepted"),
    }
}

#[test]
fn rejects_config_without_transport() {
    assert!(store_only().validate().is_err());
}

#[test]
fn loads_store_only_config_for_offline_commands() {
    assert!(Config::load(Ok(store_only())).is_ok());
}

#[test]
fn rejects_config_without_client_policy() {
    let mut config = store_only();
    config.transports.local.enabled = true;
    config.transports.local.socket_path = "/tmp/wallet.sock".to_owned();
    assert!(matches!(config.validate(), Err(Error::Config(message)) if message.contains("client_policies")));
}

#[test]
fn loading_passes_a_failure_on_and_checks_the_store() {
    let failed = Config::load(Err(Error::Config("expected a table".to_owned())));
    assert!(matches!(failed, Err(Error::Config(message)) if message == "expected a table"));
    let mut config = store_only();
    config.store.directory = " \t".to_owned();
    assert!(
        matches!(Config::load(Ok(config)), Err(Error::Config(message)) if message == "store.directory must not be empty")
    );
    let mut config = store_only();
    config.store.master_key_file = String::new();
    assert!(
        matches!(Config::load(Ok(config)), Err(Error::Config(message)) if message == "store.master_key_file must not be empty")
    );
}

#[test]
fn accepts_served_config() {
    assert!(served().validate().is_ok());
    assert!(served().validate_for_serve().is_ok());
}

#[test]
fn defaults_are_as_documented() {
    let security = SecurityConfig::default();
    assert!(security.client_policies.is_empty());
    assert_eq!(security.max_request_bytes, 16 * 1024);
    assert_eq!(security.max_request_ttl_seconds, 30);
    assert_eq!(security.clock_skew_seconds, 5);
    assert_eq!(security.dedup_ttl_seconds, 300);
    assert_eq!(security.max_dedup_entries, 10_000);
    let local = LocalConfig::default();
    assert!(!local.enabled);
    assert_eq!(local.socket_path, "/run/wallet/wallet.sock");
    let mqtt = MqttConfig::default();
    assert!(!mqtt.enabled);
    assert_eq!(mqtt.host, "127.0.0.1");
    assert_eq!(mqtt.port, 1883);
    assert_eq!(mqtt.client_id, "wallet");
    assert_eq!(mqtt.consumer_group, "wallet-pool");
    assert_eq!(mqtt.request_topic_prefix, DEFAULT_REQUEST_TOPIC_PREFIX);
    assert_eq!(mqtt.response_topic_prefix, DEFAULT_RESPONSE_TOPIC_PREFIX);
    assert_eq!(mqtt.qos, 1);
    assert!(!mqtt.tls);
    assert_eq!(mqtt.username, "");
    assert_eq!(mqtt.password_file, "");
}

#[test]
fn refuses_missing_transports_before_policies() {
    assert_eq!(refusal(&store_only()), "at least one transport must be enabled");
}

#[test]
fn refuses_too_many_policies() {
    let mut config = served();
    config.security.client_policies = (0..1025).map(|i| policy(&format!("client-{i}"))).collect();
    assert_eq!(
        refusal(&config),
        "security.client_policies must not exceed 1024 entries"
    );
    config.security.client_policies.pop();
    assert!(config.validate().is_ok());
}

#[test]
fn refuses_unsafe_policies() {
    let message = "each client policy requires a safe prefix and non-empty, safe wallet_ids and purposes";
    let mut config = served();
    config.security.client_policies[0].client_id_prefix = "flow gent".to_owned();
    assert_eq!(refusal(&config), message);
    let mut config = served();
    config.security.client_policies[0].wallet_ids = Vec::new();
    assert_eq!(refusal(&config), message);
    let mut config = served();
    config.security.client_policies[0].purposes = vec!["a".to_owned(); 257];
    assert_eq!(refusal(&config), message);
    let mut config = served();
    config.security.client_policies[0].wallet_ids = vec!["payer".to_owned(), "pay/er".to_owned()];
    assert_eq!(refusal(&config), message);
    let mut config = served();
    config.security.client_policies[0].wallet_ids = vec!["a".to_owned(); 256];
    assert!(config.validate().is_ok());
}

#[test]
fn refuses_shared_prefixes_where_they_come_first() {
    let mut config = served();
    config.security.client_policies = vec![policy("a"), policy("b"), policy("a"), policy("")];
    assert_eq!(
        refusal(&config),
        "security.client_policies must use unique client_id_prefix values"
    );
    config.security.client_policies = vec![policy("a"), policy(""), policy("a")];
    assert!(refusal(&config).starts_with("each client policy requires"));
}

#[test]
fn refuses_request_bytes_out_of_bounds() {
    let message = "security.max_request_bytes must be between 256 and 1048576";
    for (bytes, accepted) in [(255, false), (256, true), (1_048_576, true), (1_048_577, false)] {
        let mut config = served();
        config.security.max_request_bytes = bytes;
        if accepted {
            assert!(config.validate().is_ok());
        } else {
            assert_eq!(refusal(&config), message);
        }
    }
}

#[test]
fn refuses_limits_out_of_bounds() {
    let message = "request/dedup limits exceed the supported safety bounds";
    for (ttl, skew, dedup, entries) in [
        (0, 5, 300, 10),
        (301, 5, 86_400, 10),
        (30, -1, 300, 10),
        (30, 61, 300, 10),
        (30, 5, 0, 10),
        (30, 5, 86_401, 10),
        (30, 5, 300, 0),
        (30, 5, 300, 1_000_001),
    ] {
        let mut config = served();
        config.security.max_request_ttl_seconds = ttl;
        config.security.clock_skew_seconds = skew;
        config.security.dedup_ttl_seconds = dedup;
        config.security.max_dedup_entries = entries;
        assert_eq!(refusal(&config), message);
    }
}

#[test]
fn retention_must_cover_the_accepted_lifetime() {
    let mut config = served();
    config.security.max_request_ttl_seconds = 300;
    config.security.clock_skew_seconds = 60;
    config.security.dedup_ttl_seconds = 359;
    assert_eq!(
        refusal(&config),
        "security.dedup_ttl_seconds must cover the accepted request lifetime"
    );
    config.security.dedup_ttl_seconds = 360;
    assert!(config.validate().is_ok());
}

#[test]
fn refuses_blank_socket_path_of_an_enabled_transport_only() {
    let mut config = served();
    config.transports.local.socket_path = "\u{3000}\n".to_owned();
    assert_eq!(refusal(&config), "transports.local.socket_path must not be empty");
    config.transports.local.enabled = false;
    assert!(config.validate().is_ok());
}

#[test]
fn refuses_unusable_mqtt_fields() {
    let message = "enabled MQTT transport has an invalid required field";
    let mut broken: Vec<Config> = Vec::new();
    for _ in 0..8 {
        broken.push(served());
    }
    broken[0].transports.mqtt.host = " ".to_owned();
    broken[1].transports.mqtt.port = 0;
    broken[2].transports.mqtt.client_id = String::new();
    broken[3].transports.mqtt.consumer_group = "a/b".to_owned();
    broken[4].transports.mqtt.request_topic_prefix = "a/+/b".to_owned();
    broken[5].transports.mqtt.response_topic_prefix = "a/#".to_owned();
    broken[6].transports.mqtt.request_topic_prefix = "\t".to_owned();
    broken[7].transports.mqtt.response_topic_prefix = String::new();
    for config in &mut broken {
        assert_eq!(refusal(config), message);
        config.transports.mqtt.enabled = false;
        assert!(config.validate().is_ok());
    }
}

#[test]
fn refuses_unknown_delivery() {
    let mut config = served();
    config.transports.mqtt.qos = 3;
    assert_eq!(refusal(&config), "transports.mqtt.qos must be 0, 1, or 2");
    config.transports.mqtt.qos = 2;
    assert!(config.validate().is_ok());
}

#[test]
fn tells_the_enabled_transports() {
    let mut transports = TransportsConfig::default();
    assert_eq!(transports.enabled(), None);
    transports.mqtt.enabled = true;
    assert_eq!(transports.enabled(), Some(EnabledTransports::Mqtt));
    transports.local.enabled = true;
    assert_eq!(transports.enabled(), Some(EnabledTransports::Both));
    transports.mqtt.enabled = false;
    assert_eq!(transports.enabled(), Some(EnabledTransports::Local));
}
