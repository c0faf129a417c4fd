//! What a deployment sets, and which settings can be served.

use vstd::prelude::*;
use vstd::string::*;

use crate::error;
use crate::error::{config_error, Error, ErrorView};
use crate::protocol;
use crate::protocol::{check_identifier, ClientPolicy, PolicyView};
use crate::text;
use crate::text::{contains_char, same_text, trim};

verus! {

/// The topic under which requests arrive, unless set otherwise.
pub const DEFAULT_REQUEST_TOPIC_PREFIX: &'static str = "wallet/v1/sign/requests";

/// The topic under which responses are sent, unless set otherwise.
pub const DEFAULT_RESPONSE_TOPIC_PREFIX: &'static str = "wallet/v1/sign/responses";

/// The most client policies.
pub const MAX_CLIENT_POLICIES: usize = 1_024;

/// The most wallets, and the most purposes, of a policy.
pub const MAX_POLICY_VALUES: usize = 256;

/// The least that the limit on request bytes may be.
pub const MIN_REQUEST_BYTES: usize = 256;

/// The greatest that the limit on request bytes may be.
pub const MAX_REQUEST_BYTES: usize = 1_048_576;

/// The longest time that requests may be valid.
pub const MAX_REQUEST_TTL_SECONDS: i64 = 300;

/// The greatest clock skew.
pub const MAX_CLOCK_SKEW_SECONDS: i64 = 60;

/// The longest time that responses may be kept.
pub const MAX_DEDUP_TTL_SECONDS: i64 = 86_400;

/// The most responses that may be kept.
pub const MAX_DEDUP_ENTRIES: usize = 1_000_000;

/// All settings.
#[derive(Debug)]
pub struct Config {
    pub store: StoreConfig,
    pub security: SecurityConfig,
    pub transports: TransportsConfig,
}

/// Where the store and its master key are.
#[derive(Debug)]
pub struct StoreConfig {
    pub directory: String,
    pub master_key_file: String,
}

/// Who may sign what, and within which limits.
#[derive(Debug)]
pub struct SecurityConfig {
    pub client_policies: Vec<ClientPolicy>,
    pub max_request_bytes: usize,
    pub max_request_ttl_seconds: i64,
    pub clock_skew_seconds: i64,
    pub dedup_ttl_seconds: i64,
    pub max_dedup_entries: usize,
}

/// How requests arrive.
#[derive(Debug)]
pub struct TransportsConfig {
    pub local: LocalConfig,
    pub mqtt: MqttConfig,
}

/// The transport over a Unix socket.
#[derive(Debug)]
pub struct LocalConfig {
    pub enabled: bool,
    pub socket_path: String,
}

/// The transport over MQTT.
#[derive(Debug)]
pub struct MqttConfig {
    pub enabled: bool,
    pub host: String,
    pub port: u16,
    pub client_id: String,
    pub consumer_group: String,
    pub request_topic_prefix: String,
    pub response_topic_prefix: String,
    pub qos: u8,
    pub tls: bool,
    pub username: String,
    pub password_file: String,
}

/// The meaning of a [`Config`].
pub struct ConfigView {
    pub store: StoreView,
    pub security: SecurityView,
    pub local: LocalView,
    pub mqtt: MqttView,
}

/// The meaning of a [`StoreConfig`].
pub struct StoreView {
    pub directory: Seq<char>,
    pub master_key_file: Seq<char>,
}

/// The meaning of a [`SecurityConfig`].
pub struct SecurityView {
    pub client_policies: Seq<PolicyView>,
    pub max_request_bytes: usize,
    pub max_request_ttl_seconds: i64,
    pub clock_skew_seconds: i64,
    pub dedup_ttl_seconds: i64,
    pub max_dedup_entries: usize,
}

/// The meaning of a [`LocalConfig`].
pub struct LocalView {
    pub enabled: bool,
    pub socket_path: Seq<char>,
}

/// The meaning of an [`MqttConfig`].
pub struct MqttView {
    pub enabled: bool,
    pub host: Seq<char>,
    pub port: u16,
    pub client_id: Seq<char>,
    pub consumer_group: Seq<char>,
    pub request_topic_prefix: Seq<char>,
    pub response_topic_prefix: Seq<char>,
    pub qos: u8,
    pub tls: bool,
    pub username: Seq<char>,
    pub password_file: Seq<char>,
}

impl View for StoreConfig {
    type V = StoreView;

    open spec fn view(&self) -> StoreView {
        StoreView { directory: self.directory@, master_key_file: self.master_key_file@ }
    }
}

impl View for SecurityConfig {
    type V = SecurityView;

    open spec fn view(&self) -> SecurityView {
        SecurityView {
            client_policies: protocol::policies_view(self.client_policies@),
            max_request_bytes: self.max_request_bytes,
            max_request_ttl_seconds: self.max_request_ttl_seconds,
            clock_skew_seconds: self.clock_skew_seconds,
            dedup_ttl_seconds: self.dedup_ttl_seconds,
            max_dedup_entries: self.max_dedup_entries,
        }
    }
}

impl View for LocalConfig {
    type V = LocalView;

    open spec fn view(&self) -> LocalView {
        LocalView { enabled: self.enabled, socket_path: self.socket_path@ }
    }
}

impl View for MqttConfig {
    type V = MqttView;

    open spec fn view(&self) -> MqttView {
        MqttView {
            enabled: self.enabled,
            host: self.host@,
            port: self.port,
            client_id: self.client_id@,
            consumer_group: self.consumer_group@,
            request_topic_prefix: self.request_topic_prefix@,
            response_topic_prefix: self.response_topic_prefix@,
            qos: self.qos,
            tls: self.tls,
            username: self.username@,
            password_file: self.password_file@,
        }
    }
}

impl View for Config {
    type V = ConfigView;

    open spec fn view(&self) -> ConfigView {
        ConfigView {
            store: self.store@,
            security: self.security@,
            local: self.transports.local@,
            mqtt: self.transports.mqtt@,
        }
    }
}

impl Clone for SecurityConfig {
    fn clone(&self) -> (r: SecurityConfig)
        ensures
            r@ == self@,
    {
        let mut client_policies: Vec<ClientPolicy> = Vec::new();
        let mut i: usize = 0;
        while i < self.client_policies.len()
            invariant
                i <= self.client_policies@.len(),
                client_policies@.len() == i,
                forall|j: int| 0 <= j < i ==> client_policies@[j]@ == self.client_policies@[j]@,
            decreases self.client_policies@.len() - i,
        {
            client_policies.push(self.client_policies[i].clone());
            i = i + 1;
        }
        assert(protocol::policies_view(client_policies@) =~= protocol::policies_view(
            self.client_policies@,
        ));
        SecurityConfig {
            client_policies,
            max_request_bytes: self.max_request_bytes,
            max_request_ttl_seconds: self.max_request_ttl_seconds,
            clock_skew_seconds: self.clock_skew_seconds,
            dedup_ttl_seconds: self.dedup_ttl_seconds,
            max_dedup_entries: self.max_dedup_entries,
        }
    }
}

impl Clone for StoreConfig {
    fn clone(&self) -> (r: StoreConfig)
        ensures
            r@ == self@,
    {
        StoreConfig {
            directory: self.directory.clone(),
            master_key_file: self.master_key_file.clone(),
        }
    }
}

impl Clone for LocalConfig {
    fn clone(&self) -> (r: LocalConfig)
        ensures
            r@ == self@,
    {
        LocalConfig {
            enabled: self.enabled,
            socket_path: self.socket_path.clone(),
        }
    }
}

impl Clone for MqttConfig {
    fn clone(&self) -> (r: MqttConfig)
        ensures
            r@ == self@,
    {
        MqttConfig {
            enabled: self.enabled,
            host: self.host.clone(),
            port: self.port,
            client_id: self.client_id.clone(),
            consumer_group: self.consumer_group.clone(),
            request_topic_prefix: self.request_topic_prefix.clone(),
            response_topic_prefix: self.response_topic_prefix.clone(),
            qos: self.qos,
            tls: self.tls,
            username: self.username.clone(),
            password_file: self.password_file.clone(),
        }
    }
}

impl Clone for TransportsConfig {
    fn clone(&self) -> (r: TransportsConfig)
        ensures
            r.local@ == self.local@,
            r.mqtt@ == self.mqtt@,
    {
        TransportsConfig {
            local: self.local.clone(),
            mqtt: self.mqtt.clone(),
        }
    }
}

impl Clone for Config {
    fn clone(&self) -> (r: Config)
        ensures
            r@ == self@,
    {
        Config {
            store: self.store.clone(),
            security: self.security.clone(),
            transports: self.transports.clone(),
        }
    }
}

impl Default for SecurityConfig {
    fn default() -> (r: SecurityConfig)
        ensures
            r@ == (SecurityView {
                client_policies: Seq::empty(),
                max_request_bytes: 16_384,
                max_request_ttl_seconds: 30,
                clock_skew_seconds: 5,
                dedup_ttl_seconds: 300,
                max_dedup_entries: 10_000,
            }),
    {
        let r = SecurityConfig {
            client_policies: Vec::new(),
            max_request_bytes: 16_384,
            max_request_ttl_seconds: 30,
            clock_skew_seconds: 5,
            dedup_ttl_seconds: 300,
            max_dedup_entries: 10_000,
        };
        assert(r@.client_policies =~= Seq::empty());
        r
    }
}

/// The local transport unless set otherwise: off.
pub open spec fn default_local() -> LocalView {
    LocalView { enabled: false, socket_path: "/run/wallet/wallet.sock"@ }
}

/// The MQTT transport unless set otherwise: off.
pub open spec fn default_mqtt() -> MqttView {
    MqttView {
        enabled: false,
        host: "127.0.0.1"@,
        port: 1883,
        client_id: "wallet"@,
        consumer_group: "wallet-pool"@,
        request_topic_prefix: DEFAULT_REQUEST_TOPIC_PREFIX@,
        response_topic_prefix: DEFAULT_RESPONSE_TOPIC_PREFIX@,
        qos: 1,
        tls: false,
        username: ""@,
        password_file: ""@,
    }
}

impl Default for LocalConfig {
    fn default() -> (r: LocalConfig)
        ensures
            r@ == default_local(),
    {
        LocalConfig { enabled: false, socket_path: "/run/wallet/wallet.sock".to_owned() }
    }
}

impl Default for MqttConfig {
    fn default() -> (r: MqttConfig)
        ensures
            r@ == default_mqtt(),
    {
        MqttConfig {
            enabled: false,
            host: "127.0.0.1".to_owned(),
            port: 1883,
            client_id: "wallet".to_owned(),
            consumer_group: "wallet-pool".to_owned(),
            request_topic_prefix: DEFAULT_REQUEST_TOPIC_PREFIX.to_owned(),
            response_topic_prefix: DEFAULT_RESPONSE_TOPIC_PREFIX.to_owned(),
            qos: 1,
            tls: false,
            username: "".to_owned(),
            password_file: "".to_owned(),
        }
    }
}

impl Default for TransportsConfig {
    fn default() -> (r: TransportsConfig)
        ensures
            r.local@ == default_local(),
            r.mqtt@ == default_mqtt(),
    {
        TransportsConfig { local: LocalConfig::default(), mqtt: MqttConfig::default() }
    }
}

/// Whether a text holds nothing but white space.
pub open spec fn is_blank(s: Seq<char>) -> bool {
    text::trimmed(s).len() == 0
}

/// What is wrong with where the store is.
pub open spec fn store_check(store: StoreView) -> Result<(), ErrorView> {
    if is_blank(store.directory) {
        Err(ErrorView::Config("store.directory must not be empty"@))
    } else if is_blank(store.master_key_file) {
        Err(ErrorView::Config("store.master_key_file must not be empty"@))
    } else {
        Ok(())
    }
}

/// Whether a list holds between one and 256 texts, all identifiers.
pub open spec fn identifiers_safe(values: Seq<Seq<char>>) -> bool {
    1 <= values.len() <= MAX_POLICY_VALUES && forall|i: int|
        0 <= i < values.len() ==> protocol::is_identifier(#[trigger] values[i])
}

/// Whether a policy names clients, wallets and purposes by identifiers, and not too many.
pub open spec fn policy_safe(policy: PolicyView) -> bool {
    &&& protocol::is_identifier(policy.client_id_prefix)
    &&& identifiers_safe(policy.wallet_ids)
    &&& identifiers_safe(policy.purposes)
}

/// Whether one of the first `n` policies has a prefix.
pub open spec fn prefix_taken(policies: Seq<PolicyView>, n: int, prefix: Seq<char>) -> bool {
    exists|i: int| 0 <= i < n && (#[trigger] policies[i]).client_id_prefix == prefix
}

/// What is wrong with the first `n` policies.
pub open spec fn policies_check(policies: Seq<PolicyView>, n: int) -> Result<(), ErrorView>
    decreases n,
{
    if n <= 0 {
        Ok(())
    } else {
        match policies_check(policies, n - 1) {
            Err(error) => Err(error),
            Ok(()) => if !policy_safe(policies[n - 1]) {
                Err(
                    ErrorView::Config(
                        "each client policy requires a safe prefix and non-empty, safe wallet_ids and purposes"@,
                    ),
                )
            } else if prefix_taken(policies, n - 1, policies[n - 1].client_id_prefix) {
                Err(
                    ErrorView::Config(
                        "security.client_policies must use unique client_id_prefix values"@,
                    ),
                )
            } else {
                Ok(())
            },
        }
    }
}

/// Whether the limits on requests and on kept responses are within their bounds.
pub open spec fn limits_safe(security: SecurityView) -> bool {
    &&& 0 < security.max_request_ttl_seconds <= MAX_REQUEST_TTL_SECONDS
    &&& 0 <= security.clock_skew_seconds <= MAX_CLOCK_SKEW_SECONDS
    &&& 0 < security.dedup_ttl_seconds <= MAX_DEDUP_TTL_SECONDS
    &&& 0 < security.max_dedup_entries <= MAX_DEDUP_ENTRIES
}

/// What is wrong with who may sign what.
pub open spec fn security_check(security: SecurityView) -> Result<(), ErrorView> {
    let policies = security.client_policies;
    if policies.len() == 0 {
        Err(ErrorView::Config("security.client_policies must not be empty"@))
    } else if policies.len() > MAX_CLIENT_POLICIES {
        Err(ErrorView::Config("security.client_policies must not exceed 1024 entries"@))
    } else if policies_check(policies, policies.len() as int) is Err {
        policies_check(policies, policies.len() as int)
    } else if !(MIN_REQUEST_BYTES <= security.max_request_bytes <= MAX_REQUEST_BYTES) {
        Err(ErrorView::Config("security.max_request_bytes must be between 256 and 1048576"@))
    } else if !limits_safe(security) {
        Err(ErrorView::Config("request/dedup limits exceed the supported safety bounds"@))
    } else if security.dedup_ttl_seconds < security.max_request_ttl_seconds
        + security.clock_skew_seconds {
        Err(
            ErrorView::Config(
                "security.dedup_ttl_seconds must cover the accepted request lifetime"@,
            ),
        )
    } else {
        Ok(())
    }
}

/// Whether a topic prefix can be used: it is not blank and holds no wildcard.
pub open spec fn topic_safe(topic: Seq<char>) -> bool {
    !is_blank(topic) && !topic.contains('+') && !topic.contains('#')
}

/// What is wrong with the MQTT transport.
pub open spec fn mqtt_check(mqtt: MqttView) -> Result<(), ErrorView> {
    if !mqtt.enabled {
        Ok(())
    } else if is_blank(mqtt.host) || mqtt.port == 0 || !protocol::is_identifier(mqtt.client_id)
        || !protocol::is_identifier(mqtt.consumer_group) || !topic_safe(mqtt.request_topic_prefix)
        || !topic_safe(mqtt.response_topic_prefix) {
        Err(ErrorView::Config("enabled MQTT transport has an invalid required field"@))
    } else if mqtt.qos > 2 {
        Err(ErrorView::Config("transports.mqtt.qos must be 0, 1, or 2"@))
    } else {
        Ok(())
    }
}

/// What is wrong with the settings, if they are to be served.
pub open spec fn config_check(config: ConfigView) -> Result<(), ErrorView> {
    if store_check(config.store) is Err {
        store_check(config.store)
    } else if !config.local.enabled && !config.mqtt.enabled {
        Err(ErrorView::Config("at least one transport must be enabled"@))
    } else if security_check(config.security) is Err {
        security_check(config.security)
    } else if config.local.enabled && is_blank(config.local.socket_path) {
        Err(ErrorView::Config("transports.local.socket_path must not be empty"@))
    } else {
        mqtt_check(config.mqtt)
    }
}

fn blank(s: &str) -> (r: bool)
    ensures
        r == is_blank(s@),
{
    trim(s).unicode_len() == 0
}

fn topic_is_safe(topic: &str) -> (r: bool)
    ensures
        r == topic_safe(topic@),
{
    !blank(topic) && !contains_char(topic, '+') && !contains_char(topic, '#')
}

fn identifiers_are_safe(values: &Vec<String>) -> (r: bool)
    ensures
        r == identifiers_safe(text::texts(values@)),
{
    if values.len() == 0 || values.len() > MAX_POLICY_VALUES {
        return false;
    }
    let ghost view = text::texts(values@);
    let mut i: usize = 0;
    while i < values.len()
        invariant
            i <= values@.len(),
            view == text::texts(values@),
            forall|j: int| 0 <= j < i ==> protocol::is_identifier(#[trigger] view[j]),
        decreases values@.len() - i,
    {
        assert(view[i as int] == values@[i as int]@);
        if !check_identifier(values[i].as_str()) {
            return false;
        }
        i = i + 1;
    }
    true
}

fn policy_is_safe(policy: &ClientPolicy) -> (r: bool)
    ensures
        r == policy_safe(policy@),
{
    check_identifier(policy.client_id_prefix.as_str()) && identifiers_are_safe(&policy.wallet_ids)
        && identifiers_are_safe(&policy.purposes)
}

fn prefix_is_taken(policies: &Vec<ClientPolicy>, n: usize, prefix: &str) -> (r: bool)
    requires
        n <= policies@.len(),
    ensures
        r == prefix_taken(protocol::policies_view(policies@), n as int, prefix@),
{
    let ghost view = protocol::policies_view(policies@);
    let mut i: usize = 0;
    while i < n
        invariant
            i <= n <= policies@.len(),
            view == protocol::policies_view(policies@),
            forall|j: int| 0 <= j < i ==> (#[trigger] view[j]).client_id_prefix != prefix@,
        decreases n - i,
    {
        assert(view[i as int] == policies@[i as int]@);
        if same_text(policies[i].client_id_prefix.as_str(), prefix) {
            return true;
        }
        i = i + 1;
    }
    false
}

fn validate_policies(policies: &Vec<ClientPolicy>) -> (r: Result<(), Error>)
    ensures
        error::result_view(r) == policies_check(
            protocol::policies_view(policies@),
            policies@.len() as int,
        ),
{
    let ghost view = protocol::policies_view(policies@);
    let mut i: usize = 0;
    while i < policies.len()
        invariant
            i <= policies@.len(),
            view == protocol::policies_view(policies@),
            policies_check(view, i as int) is Ok,
        decreases policies@.len() - i,
    {
        let policy = &policies[i];
        assert(view[i as int] == policy@);
        if !policy_is_safe(policy) {
            let error = config_error(
                "each client policy requires a safe prefix and non-empty, safe wallet_ids and purposes",
            );
            assert(policies_check(view, i + 1) == Err::<(), ErrorView>(error@));
            proof {
                lemma_first_policy_error(view, i + 1, policies@.len() as int);
            }
            return Err(error);
        }
        if prefix_is_taken(policies, i, policy.client_id_prefix.as_str()) {
            let error = config_error(
                "security.client_policies must use unique client_id_prefix values",
            );
            assert(policies_check(view, i + 1) == Err::<(), ErrorView>(error@));
            proof {
                lemma_first_policy_error(view, i + 1, policies@.len() as int);
            }
            return Err(error);
        }
        i = i + 1;
    }
    Ok(())
}

pub(crate) proof fn lemma_first_policy_error(policies: Seq<PolicyView>, m: int, n: int)
    requires
        m <= n,
        policies_check(policies, m) is Err,
    ensures
        policies_check(policies, n) == policies_check(policies, m),
    decreases n - m,
{
    if m < n {
        lemma_first_policy_error(policies, m, n - 1);
    }
}

impl SecurityConfig {
    /// Validates who may sign what, and the limits.
    pub fn validate(&self) -> (r: Result<(), Error>)
        ensures
            error::result_view(r) == security_check(self@),
    {
        assert(self@.client_policies.len() == self.client_policies@.len());
        if self.client_policies.len() == 0 {
            return Err(config_error("security.client_policies must not be empty"));
        }
        if self.client_policies.len() > MAX_CLIENT_POLICIES {
            return Err(config_error("security.client_policies must not exceed 1024 entries"));
        }
        if let Err(error) = validate_policies(&self.client_policies) {
            return Err(error);
        }
        if self.max_request_bytes < MIN_REQUEST_BYTES || self.max_request_bytes
            > MAX_REQUEST_BYTES {
            return Err(
                config_error("security.max_request_bytes must be between 256 and 1048576"),
            );
        }
        if self.max_request_ttl_seconds <= 0 || self.max_request_ttl_seconds
            > MAX_REQUEST_TTL_SECONDS || self.clock_skew_seconds < 0 || self.clock_skew_seconds
            > MAX_CLOCK_SKEW_SECONDS || self.dedup_ttl_seconds <= 0 || self.dedup_ttl_seconds
            > MAX_DEDUP_TTL_SECONDS || self.max_dedup_entries == 0 || self.max_dedup_entries
            > MAX_DEDUP_ENTRIES {
            return Err(
                config_error("request/dedup limits exceed the supported safety bounds"),
            );
        }
        let accepted_lifetime: i64 = self.max_request_ttl_seconds + self.clock_skew_seconds;
        if self.dedup_ttl_seconds < accepted_lifetime {
            return Err(
                config_error("security.dedup_ttl_seconds must cover the accepted request lifetime"),
            );
        }
        Ok(())
    }
}

impl MqttConfig {
    /// Validates the fields that an enabled MQTT transport needs.
    pub fn validate(&self) -> (r: Result<(), Error>)
        ensures
            error::result_view(r) == mqtt_check(self@),
    {
        if !self.enabled {
            return Ok(());
        }
        if blank(self.host.as_str()) || self.port == 0 || !check_identifier(self.client_id.as_str())
            || !check_identifier(self.consumer_group.as_str()) || !topic_is_safe(
            self.request_topic_prefix.as_str(),
        ) || !topic_is_safe(self.response_topic_prefix.as_str()) {
            return Err(config_error("enabled MQTT transport has an invalid required field"));
        }
        if self.qos > 2 {
            return Err(config_error("transports.mqtt.qos must be 0, 1, or 2"));
        }
        Ok(())
    }
}

/// The transports that are to be served.
#[derive(Clone, Copy, Debug, PartialEq, Eq, Structural)]
pub enum EnabledTransports {
    Both,
    Local,
    Mqtt,
}

/// The transports that settings enable, if any.
pub open spec fn enabled_transports(local: LocalView, mqtt: MqttView) -> Option<EnabledTransports> {
    match (local.enabled, mqtt.enabled) {
        (true, true) => Some(EnabledTransports::Both),
        (true, false) => Some(EnabledTransports::Local),
        (false, true) => Some(EnabledTransports::Mqtt),
        (false, false) => None,
    }
}

impl TransportsConfig {
    /// The transports that are enabled, if any.
    pub fn enabled(&self) -> (r: Option<EnabledTransports>)
        ensures
            r == enabled_transports(self.local@, self.mqtt@),
    {
        match (self.local.enabled, self.mqtt.enabled) {
            (true, true) => Some(EnabledTransports::Both),
            (true, false) => Some(EnabledTransports::Local),
            (false, true) => Some(EnabledTransports::Mqtt),
            (false, false) => None,
        }
    }
}

/// What comes of settings that were read: a failure to read them stands, and the fields that every
/// command needs are checked.
pub open spec fn loaded(parsed: Result<ConfigView, ErrorView>) -> Result<ConfigView, ErrorView> {
    match parsed {
        Err(error) => Err(error),
        Ok(config) => match store_check(config.store) {
            Err(error) => Err(error),
            Ok(()) => Ok(config),
        },
    }
}

impl Config {
    /// Takes over settings that were read and parsed, and validates the store fields needed by
    /// every command.
    pub fn load(parsed: Result<Config, Error>) -> (r: Result<Config, Error>)
        ensures
            error::result_view(r) == loaded(error::result_view(parsed)),
    {
        match parsed {
            Err(error) => Err(error),
            Ok(config) => match config.validate_store() {
                Err(error) => Err(error),
                Ok(()) => Ok(config),
            },
        }
    }

    /// Validates the complete daemon configuration.
    pub fn validate(&self) -> (r: Result<(), Error>)
        ensures
            error::result_view(r) == config_check(self@),
    {
        self.validate_for_serve()
    }

    /// Validates fields required to serve signing requests.
    pub fn validate_for_serve(&self) -> (r: Result<(), Error>)
        ensures
            error::result_view(r) == config_check(self@),
    {
        if let Err(error) = self.validate_store() {
            return Err(error);
        }
        if !self.transports.local.enabled && !self.transports.mqtt.enabled {
            return Err(config_error("at least one transport must be enabled"));
        }
        if let Err(error) = self.security.validate() {
            return Err(error);
        }
        if self.transports.local.enabled && blank(self.transports.local.socket_path.as_str()) {
            return Err(config_error("transports.local.socket_path must not be empty"));
        }
        self.transports.mqtt.validate()
    }

    /// Validates where the store and its master key are.
    pub fn validate_store(&self) -> (r: Result<(), Error>)
        ensures
            error::result_view(r) == store_check(self@.store),
    {
        if blank(self.store.directory.as_str()) {
            return Err(config_error("store.directory must not be empty"));
        }
        if blank(self.store.master_key_file.as_str()) {
            return Err(config_error("store.master_key_file must not be empty"));
        }
        Ok(())
    }
}

/// What holds of every list of policies that passes: each is safe, and no two share a prefix.
pub proof fn lemma_accepted_policies(policies: Seq<PolicyView>, n: int)
    requires
        0 <= n <= policies.len(),
        policies_check(policies, n) is Ok,
    ensures
        forall|i: int| 0 <= i < n ==> policy_safe(#[trigger] policies[i]),
        protocol::unique_prefixes(policies.take(n)),
    decreases n,
{
    if n > 0 {
        lemma_accepted_policies(policies, n - 1);
        assert forall|i: int, j: int| 0 <= i < j < n implies (#[trigger] policies.take(
            n,
        )[i]).client_id_prefix != (#[trigger] policies.take(n)[j]).client_id_prefix by {
            if j < n - 1 {
                assert(policies.take(n - 1)[i] == policies[i]);
                assert(policies.take(n - 1)[j] == policies[j]);
            } else {
                assert(policies[i].client_id_prefix != policies[n - 1].client_id_prefix);
            }
        }
    }
}

/// What holds of every configuration that can be served: a transport is enabled and has what it
/// needs, every client policy is safe and has a prefix of its own, every limit is within its
/// bounds, and responses are kept for at least as long as requests are accepted.
pub proof fn lemma_served_config(config: ConfigView)
    requires
        config_check(config) is Ok,
    ensures
        store_check(config.store) is Ok,
        enabled_transports(config.local, config.mqtt) is Some,
        1 <= config.security.client_policies.len() <= MAX_CLIENT_POLICIES,
        forall|i: int|
            0 <= i < config.security.client_policies.len() ==> policy_safe(
                #[trigger] config.security.client_policies[i],
            ),
        protocol::unique_prefixes(config.security.client_policies),
        MIN_REQUEST_BYTES <= config.security.max_request_bytes <= MAX_REQUEST_BYTES,
        limits_safe(config.security),
        config.security.dedup_ttl_seconds >= config.security.max_request_ttl_seconds
            + config.security.clock_skew_seconds,
        config.local.enabled ==> !is_blank(config.local.socket_path),
        config.mqtt.enabled ==> {
            &&& !is_blank(config.mqtt.host)
            &&& config.mqtt.port != 0
            &&& protocol::is_identifier(config.mqtt.client_id)
            &&& protocol::is_identifier(config.mqtt.consumer_group)
            &&& topic_safe(config.mqtt.request_topic_prefix)
            &&& topic_safe(config.mqtt.response_topic_prefix)
            &&& config.mqtt.qos <= 2
        },
{
    let policies = config.security.client_policies;
    lemma_accepted_policies(policies, policies.len() as int);
    assert(policies.take(policies.len() as int) =~= policies);
}

} // verus!
