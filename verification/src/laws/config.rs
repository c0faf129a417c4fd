//! Laws on settings: which can be served, and what is told of the others.

use vstd::prelude::*;
use vstd::string::*;

use crate::config;
use crate::config::{
    Config, EnabledTransports, LocalConfig, MqttConfig, SecurityConfig, StoreConfig,
    TransportsConfig,
};
use crate::error;
use crate::error::Error;
use crate::laws::request;
use crate::laws::text as text_laws;
use crate::protocol;
use crate::protocol::ClientPolicy;
use crate::text;

verus! {

/// Whether a list names between one and 256 things, each by an identifier.
pub open spec fn names(values: Seq<String>) -> bool {
    &&& 1 <= values.len() <= 256
    &&& forall|i: int| 0 <= i < values.len() ==> request::identifier((#[trigger] values[i])@)
}

/// Whether a policy names its clients, its wallets and its purposes by identifiers.
pub open spec fn safe(policy: ClientPolicy) -> bool {
    &&& request::identifier(policy.client_id_prefix@)
    &&& names(policy.wallet_ids@)
    &&& names(policy.purposes@)
}

/// Whether no earlier policy has the prefix of a policy.
pub open spec fn first_with_prefix(policies: Seq<ClientPolicy>, n: int) -> bool {
    forall|i: int|
        0 <= i < n ==> (#[trigger] policies[i]).client_id_prefix@ != policies[n].client_id_prefix@
}

/// Whether the first policies are safe and each has a prefix of its own.
pub open spec fn first_are_good(policies: Seq<ClientPolicy>, n: int) -> bool {
    forall|i: int|
        0 <= i < n ==> safe(#[trigger] policies[i]) && first_with_prefix(policies, i)
}

/// Whether every limit is in its bounds.
pub open spec fn in_bounds(security: SecurityConfig) -> bool {
    &&& 1 <= security.max_request_ttl_seconds <= 300
    &&& 0 <= security.clock_skew_seconds <= 60
    &&& 1 <= security.dedup_ttl_seconds <= 86400
    &&& 1 <= security.max_dedup_entries <= 1000000
}

/// Whether who may sign what can be served.
pub open spec fn good_security(security: SecurityConfig) -> bool {
    &&& 1 <= security.client_policies@.len() <= 1024
    &&& forall|i: int|
        0 <= i < security.client_policies@.len() ==> safe(#[trigger] security.client_policies@[i])
    &&& forall|i: int, j: int|
        0 <= i < j < security.client_policies@.len() ==> (
        #[trigger] security.client_policies@[i]).client_id_prefix@ != (
        #[trigger] security.client_policies@[j]).client_id_prefix@
    &&& 256 <= security.max_request_bytes <= 1048576
    &&& in_bounds(security)
    &&& security.max_request_ttl_seconds + security.clock_skew_seconds
        <= security.dedup_ttl_seconds
}

/// Whether a text can lead topics: it holds more than white space, and no wildcard.
pub open spec fn leads_topics(topic: Seq<char>) -> bool {
    &&& !text_laws::all_white(topic)
    &&& forall|i: int| 0 <= i < topic.len() ==> #[trigger] topic[i] != '+' && topic[i] != '#'
}

/// Whether the fields are there that connecting to a broker takes.
pub open spec fn good_broker(mqtt: MqttConfig) -> bool {
    &&& !text_laws::all_white(mqtt.host@)
    &&& mqtt.port != 0
    &&& request::identifier(mqtt.client_id@)
    &&& request::identifier(mqtt.consumer_group@)
    &&& leads_topics(mqtt.request_topic_prefix@)
    &&& leads_topics(mqtt.response_topic_prefix@)
}

/// Whether a result is a refusal of the settings with a message.
pub open spec fn refuses(r: Result<(), Error>, told: Seq<char>) -> bool {
    r matches Err(Error::Config(message)) && message@ == told
}

proof fn lemma_blank(s: Seq<char>)
    ensures
        config::is_blank(s) == text_laws::all_white(s),
{
    if config::is_blank(s) {
        let (before, behind) = text_laws::lemma_trimmed_parts(s);
        assert forall|i: int| 0 <= i < s.len() implies text_laws::white(#[trigger] s[i]) by {
            if i < before.len() {
                assert(s[i] == before[i]);
            } else {
                assert(s[i] == behind[i - before.len()]);
            }
        }
    }
    if text_laws::all_white(s) {
        let nothing = Seq::<char>::empty();
        assert(s + nothing + nothing =~= s);
        text_laws::lemma_trimmed_core(s, nothing, nothing);
    }
}

proof fn lemma_leads_topics(topic: Seq<char>)
    ensures
        config::topic_safe(topic) == leads_topics(topic),
{
    lemma_blank(topic);
    if config::topic_safe(topic) {
        assert forall|i: int| 0 <= i < topic.len() implies #[trigger] topic[i] != '+' && topic[i]
            != '#' by {
            assert(topic.contains(topic[i]));
        }
    }
}

proof fn lemma_names(values: Seq<String>)
    ensures
        config::identifiers_safe(text::texts(values)) == names(values),
{
    let view = text::texts(values);
    assert forall|i: int| 0 <= i < values.len() implies (#[trigger] view[i]) == values[i]@ by {}
    assert forall|i: int| 0 <= i < values.len() implies protocol::is_identifier(#[trigger] view[i])
        == request::identifier(values[i]@) by {
        request::lemma_identifier(view[i]);
    }
    if names(values) {
        assert forall|i: int| 0 <= i < view.len() implies protocol::is_identifier(
            #[trigger] view[i],
        ) by {
            assert(request::identifier(values[i]@));
        }
    }
    if config::identifiers_safe(view) {
        assert forall|i: int| 0 <= i < values.len() implies request::identifier(
            (#[trigger] values[i])@,
        ) by {
            assert(protocol::is_identifier(view[i]));
        }
    }
}

proof fn lemma_safe(policy: ClientPolicy)
    ensures
        config::policy_safe(policy@) == safe(policy),
{
    request::lemma_identifier(policy.client_id_prefix@);
    lemma_names(policy.wallet_ids@);
    lemma_names(policy.purposes@);
}

proof fn lemma_policies(policies: Seq<ClientPolicy>, n: int)
    requires
        0 <= n <= policies.len(),
    ensures
        (config::policies_check(protocol::policies_view(policies), n) is Ok) == first_are_good(
            policies,
            n,
        ),
    decreases n,
{
    let view = protocol::policies_view(policies);
    if n > 0 {
        lemma_policies(policies, n - 1);
        lemma_safe(policies[n - 1]);
        assert forall|i: int| 0 <= i < policies.len() implies (#[trigger] view[i])
            == policies[i]@ by {}
        assert(first_with_prefix(policies, n - 1) == !config::prefix_taken(
            view,
            n - 1,
            view[n - 1].client_id_prefix,
        )) by {
            if first_with_prefix(policies, n - 1) {
                assert forall|i: int| 0 <= i < n - 1 implies (#[trigger] view[i]).client_id_prefix
                    != view[n - 1].client_id_prefix by {
                    assert(policies[i].client_id_prefix@ != policies[n - 1].client_id_prefix@);
                }
            } else {
                let i = choose|i: int|
                    0 <= i < n - 1 && (#[trigger] policies[i]).client_id_prefix@
                        == policies[n - 1].client_id_prefix@;
                assert(view[i].client_id_prefix == view[n - 1].client_id_prefix);
            }
        }
        if first_are_good(policies, n) {
            assert(safe(policies[n - 1]));
        }
    }
}

proof fn lemma_first_bad_policy(policies: Seq<ClientPolicy>, n: int)
    requires
        0 <= n < policies.len(),
        first_are_good(policies, n),
    ensures
        !safe(policies[n]) ==> config::policies_check(
            protocol::policies_view(policies),
            policies.len() as int,
        ) == Err::<(), error::ErrorView>(
            error::ErrorView::Config(
                "each client policy requires a safe prefix and non-empty, safe wallet_ids and purposes"@,
            ),
        ),
        safe(policies[n]) && !first_with_prefix(policies, n) ==> config::policies_check(
            protocol::policies_view(policies),
            policies.len() as int,
        ) == Err::<(), error::ErrorView>(
            error::ErrorView::Config(
                "security.client_policies must use unique client_id_prefix values"@,
            ),
        ),
{
    let view = protocol::policies_view(policies);
    lemma_policies(policies, n);
    lemma_policies(policies, n + 1);
    lemma_safe(policies[n]);
    assert(view[n] == policies[n]@);
    if !safe(policies[n]) || !first_with_prefix(policies, n) {
        assert(!first_are_good(policies, n + 1));
        config::lemma_first_policy_error(view, n + 1, policies.len() as int);
    }
}

proof fn lemma_all_good(policies: Seq<ClientPolicy>)
    ensures
        first_are_good(policies, policies.len() as int) == ((forall|i: int|
            0 <= i < policies.len() ==> safe(#[trigger] policies[i])) && (forall|i: int, j: int|
            0 <= i < j < policies.len() ==> (#[trigger] policies[i]).client_id_prefix@ != (
            #[trigger] policies[j]).client_id_prefix@)),
{
    if first_are_good(policies, policies.len() as int) {
        assert forall|i: int, j: int| 0 <= i < j < policies.len() implies (
        #[trigger] policies[i]).client_id_prefix@ != (
        #[trigger] policies[j]).client_id_prefix@ by {
            assert(first_with_prefix(policies, j));
        }
    }
}

/// Who may sign what can be served exactly where there are one to 1024 policies, each with an
/// identifier as its prefix that no other has and with one to 256 wallets and purposes, all of them
/// identifiers, every limit is in its bounds, and answers are kept at least as long as a request can
/// be accepted.
pub proof fn law_security_validate(security: &SecurityConfig, r: Result<(), Error>)
    requires
        call_ensures(SecurityConfig::validate, (security,), r),
    ensures
        r is Ok == good_security(*security),
        r matches Err(error) ==> error is Config,
{
    lemma_good_security(*security);
    lemma_security_errors(security@);
}

proof fn lemma_good_security(security: SecurityConfig)
    ensures
        (config::security_check(security@) is Ok) == good_security(security),
{
    let policies = security.client_policies@;
    assert(security@.client_policies.len() == policies.len());
    lemma_policies(policies, policies.len() as int);
    lemma_all_good(policies);
}

proof fn lemma_policy_errors(policies: Seq<protocol::PolicyView>, n: int)
    ensures
        config::policies_check(policies, n) matches Err(error) ==> error is Config,
    decreases n,
{
    if n > 0 {
        lemma_policy_errors(policies, n - 1);
    }
}

proof fn lemma_security_errors(security: config::SecurityView)
    ensures
        config::security_check(security) matches Err(error) ==> error is Config,
{
    lemma_policy_errors(security.client_policies, security.client_policies.len() as int);
}

/// What is told of who may sign what is the first thing that is wrong: the number of policies, then
/// each policy in its turn, then the limits.
pub proof fn law_security_refusals(security: &SecurityConfig, n: int, r: Result<(), Error>)
    requires
        call_ensures(SecurityConfig::validate, (security,), r),
    ensures
        security.client_policies@.len() == 0 ==> refuses(
            r,
            "security.client_policies must not be empty"@,
        ),
        security.client_policies@.len() > 1024 ==> refuses(
            r,
            "security.client_policies must not exceed 1024 entries"@,
        ),
        1 <= security.client_policies@.len() <= 1024 && 0 <= n < security.client_policies@.len()
            && first_are_good(security.client_policies@, n) && !safe(
            security.client_policies@[n],
        ) ==> refuses(
            r,
            "each client policy requires a safe prefix and non-empty, safe wallet_ids and purposes"@,
        ),
        1 <= security.client_policies@.len() <= 1024 && 0 <= n < security.client_policies@.len()
            && first_are_good(security.client_policies@, n) && safe(security.client_policies@[n])
            && !first_with_prefix(security.client_policies@, n) ==> refuses(
            r,
            "security.client_policies must use unique client_id_prefix values"@,
        ),
        1 <= security.client_policies@.len() <= 1024 && first_are_good(
            security.client_policies@,
            security.client_policies@.len() as int,
        ) ==> {
            &&& !(256 <= security.max_request_bytes <= 1048576) ==> refuses(
                r,
                "security.max_request_bytes must be between 256 and 1048576"@,
            )
            &&& 256 <= security.max_request_bytes <= 1048576 && !in_bounds(*security) ==> refuses(
                r,
                "request/dedup limits exceed the supported safety bounds"@,
            )
            &&& 256 <= security.max_request_bytes <= 1048576 && in_bounds(*security)
                && security.dedup_ttl_seconds < security.max_request_ttl_seconds
                + security.clock_skew_seconds ==> refuses(
                r,
                "security.dedup_ttl_seconds must cover the accepted request lifetime"@,
            )
        },
{
    let policies = security.client_policies@;
    assert(security@.client_policies.len() == policies.len());
    lemma_policies(policies, policies.len() as int);
    if 0 <= n < policies.len() && first_are_good(policies, n) {
        lemma_first_bad_policy(policies, n);
    }
}

/// The store's fields are accepted exactly where neither is blank, and the first blank one is told.
pub proof fn law_validate_store(config: &Config, r: Result<(), Error>)
    requires
        call_ensures(Config::validate_store, (config,), r),
    ensures
        r is Ok == (!text_laws::all_white(config.store.directory@) && !text_laws::all_white(
            config.store.master_key_file@,
        )),
        text_laws::all_white(config.store.directory@) ==> refuses(
            r,
            "store.directory must not be empty"@,
        ),
        !text_laws::all_white(config.store.directory@) && text_laws::all_white(
            config.store.master_key_file@,
        ) ==> refuses(r, "store.master_key_file must not be empty"@),
{
    lemma_blank(config.store.directory@);
    lemma_blank(config.store.master_key_file@);
}

/// The MQTT transport is accepted exactly where it is off, or its required fields are there and the
/// delivery is one of three.
pub proof fn law_mqtt_validate(mqtt: &MqttConfig, r: Result<(), Error>)
    requires
        call_ensures(MqttConfig::validate, (mqtt,), r),
    ensures
        r is Ok == (!mqtt.enabled || good_broker(*mqtt) && mqtt.qos <= 2),
        mqtt.enabled && !good_broker(*mqtt) ==> refuses(
            r,
            "enabled MQTT transport has an invalid required field"@,
        ),
        mqtt.enabled && good_broker(*mqtt) && mqtt.qos > 2 ==> refuses(
            r,
            "transports.mqtt.qos must be 0, 1, or 2"@,
        ),
{
    lemma_mqtt(*mqtt);
}

proof fn lemma_mqtt(mqtt: MqttConfig)
    ensures
        good_broker(mqtt) == !(config::is_blank(mqtt.host@) || mqtt.port == 0
            || !protocol::is_identifier(mqtt.client_id@) || !protocol::is_identifier(
            mqtt.consumer_group@,
        ) || !config::topic_safe(mqtt.request_topic_prefix@) || !config::topic_safe(
            mqtt.response_topic_prefix@,
        )),
{
    lemma_blank(mqtt.host@);
    request::lemma_identifier(mqtt.client_id@);
    request::lemma_identifier(mqtt.consumer_group@);
    lemma_leads_topics(mqtt.request_topic_prefix@);
    lemma_leads_topics(mqtt.response_topic_prefix@);
}

/// Whether settings have everything that serving takes.
pub open spec fn good_config(config: Config) -> bool {
    &&& !text_laws::all_white(config.store.directory@)
    &&& !text_laws::all_white(config.store.master_key_file@)
    &&& config.transports.local.enabled || config.transports.mqtt.enabled
    &&& good_security(config.security)
    &&& config.transports.local.enabled ==> !text_laws::all_white(
        config.transports.local.socket_path@,
    )
    &&& config.transports.mqtt.enabled ==> good_broker(config.transports.mqtt)
        && config.transports.mqtt.qos <= 2
}

/// Settings can be served exactly where the store's paths are not blank, a transport is enabled and
/// has its required fields, and who may sign what can be served. Both functions that validate them
/// agree.
pub proof fn law_validate_for_serve(
    config: &Config,
    r: Result<(), Error>,
    whole: Result<(), Error>,
)
    requires
        call_ensures(Config::validate_for_serve, (config,), r),
        call_ensures(Config::validate, (config,), whole),
    ensures
        r is Ok == good_config(*config),
        whole is Ok == good_config(*config),
        r matches Err(error) ==> error is Config,
        error::result_view(r) == error::result_view(whole),
{
    lemma_blank(config.store.directory@);
    lemma_blank(config.store.master_key_file@);
    lemma_blank(config.transports.local.socket_path@);
    lemma_mqtt(config.transports.mqtt);
    lemma_good_security(config.security);
    lemma_security_errors(config.security@);
}

/// What is told of settings is the first thing that is wrong: the store's paths, then that no
/// transport is enabled, then who may sign what, then the local transport, then MQTT.
pub proof fn law_serve_refusals(
    config: &Config,
    store: Result<(), Error>,
    security: Result<(), Error>,
    mqtt: Result<(), Error>,
    r: Result<(), Error>,
)
    requires
        call_ensures(Config::validate_for_serve, (config,), r),
        call_ensures(Config::validate_store, (config,), store),
        call_ensures(SecurityConfig::validate, (&config.security,), security),
        call_ensures(MqttConfig::validate, (&config.transports.mqtt,), mqtt),
    ensures
        store matches Err(Error::Config(told)) ==> refuses(r, told@),
        store is Ok ==> {
            &&& !config.transports.local.enabled && !config.transports.mqtt.enabled ==> refuses(
                r,
                "at least one transport must be enabled"@,
            )
            &&& config.transports.local.enabled || config.transports.mqtt.enabled ==> {
                &&& security matches Err(Error::Config(told)) ==> refuses(r, told@)
                &&& security is Ok && config.transports.local.enabled && text_laws::all_white(
                    config.transports.local.socket_path@,
                ) ==> refuses(r, "transports.local.socket_path must not be empty"@)
                &&& security is Ok && !(config.transports.local.enabled && text_laws::all_white(
                    config.transports.local.socket_path@,
                )) ==> (mqtt matches Err(Error::Config(told)) ==> refuses(r, told@))
            }
        },
{
    lemma_blank(config.transports.local.socket_path@);
}

/// Settings that were read are taken over as they are where neither path of the store is blank. A
/// failure to read them stands.
pub proof fn law_load(parsed: Result<Config, Error>, r: Result<Config, Error>)
    requires
        call_ensures(Config::load, (parsed,), r),
    ensures
        parsed matches Err(error) ==> r matches Err(told) && told@ == error@,
        parsed matches Ok(config) ==> {
            &&& r is Ok == (!text_laws::all_white(config.store.directory@)
                && !text_laws::all_white(config.store.master_key_file@))
            &&& r matches Ok(taken) ==> {
                &&& taken.store.directory@ == config.store.directory@
                &&& taken.store.master_key_file@ == config.store.master_key_file@
                &&& taken.security@ == config.security@
                &&& taken.transports.local@ == config.transports.local@
                &&& taken.transports.mqtt@ == config.transports.mqtt@
            }
            &&& text_laws::all_white(config.store.directory@) ==> (r matches Err(
                Error::Config(message),
            ) && message@ == "store.directory must not be empty"@)
            &&& !text_laws::all_white(config.store.directory@) && text_laws::all_white(
                config.store.master_key_file@,
            ) ==> (r matches Err(Error::Config(message)) && message@
                == "store.master_key_file must not be empty"@)
        },
{
    if let Ok(config) = parsed {
        lemma_blank(config.store.directory@);
        lemma_blank(config.store.master_key_file@);
        if let Ok(taken) = r {
            assert(taken@ == config@);
            assert(taken@.store == config@.store);
        }
    }
}

/// The enabled transports are those whose switch is on.
pub proof fn law_enabled(transports: &TransportsConfig, r: Option<EnabledTransports>)
    requires
        call_ensures(TransportsConfig::enabled, (transports,), r),
    ensures
        transports.local.enabled == (r == Some(EnabledTransports::Local) || r == Some(
            EnabledTransports::Both,
        )),
        transports.mqtt.enabled == (r == Some(EnabledTransports::Mqtt) || r == Some(
            EnabledTransports::Both,
        )),
{
}

/// What is set unless set otherwise: no client may sign, and no transport is enabled.
pub proof fn law_defaults(
    security: SecurityConfig,
    transports: TransportsConfig,
    local: LocalConfig,
    mqtt: MqttConfig,
)
    requires
        call_ensures(SecurityConfig::default, (), security),
        call_ensures(TransportsConfig::default, (), transports),
        call_ensures(LocalConfig::default, (), local),
        call_ensures(MqttConfig::default, (), mqtt),
    ensures
        local@ == transports.local@,
        mqtt@ == transports.mqtt@,
        security.client_policies@.len() == 0,
        security.max_request_bytes == 16384,
        security.max_request_ttl_seconds == 30,
        security.clock_skew_seconds == 5,
        security.dedup_ttl_seconds == 300,
        security.max_dedup_entries == 10000,
        !transports.local.enabled,
        transports.local.socket_path@ == "/run/wallet/wallet.sock"@,
        !transports.mqtt.enabled,
        transports.mqtt.host@ == "127.0.0.1"@,
        transports.mqtt.port == 1883,
        transports.mqtt.client_id@ == "wallet"@,
        transports.mqtt.consumer_group@ == "wallet-pool"@,
        transports.mqtt.request_topic_prefix@ == "wallet/v1/sign/requests"@,
        transports.mqtt.response_topic_prefix@ == "wallet/v1/sign/responses"@,
        transports.mqtt.qos == 1,
        !transports.mqtt.tls,
        transports.mqtt.username@.len() == 0,
        transports.mqtt.password_file@.len() == 0,
{
    reveal_strlit("");
    assert(security@.client_policies.len() == security.client_policies@.len());
    assert(transports.mqtt@ == config::default_mqtt());
    assert(transports.local@ == config::default_local());
}

/// A copy of the settings has every field of them.
pub proof fn law_config_copies(
    store: &StoreConfig,
    store_copy: StoreConfig,
    security: &SecurityConfig,
    security_copy: SecurityConfig,
    local: &LocalConfig,
    local_copy: LocalConfig,
    mqtt: &MqttConfig,
    mqtt_copy: MqttConfig,
    whole: &Config,
    whole_copy: Config,
)
    requires
        call_ensures(Config::clone, (whole,), whole_copy),
        call_ensures(StoreConfig::clone, (store,), store_copy),
        call_ensures(SecurityConfig::clone, (security,), security_copy),
        call_ensures(LocalConfig::clone, (local,), local_copy),
        call_ensures(MqttConfig::clone, (mqtt,), mqtt_copy),
    ensures
        store_copy.directory@ == store.directory@,
        store_copy.master_key_file@ == store.master_key_file@,
        security_copy.client_policies@.len() == security.client_policies@.len(),
        forall|i: int|
            0 <= i < security.client_policies@.len() ==> {
                let copy = #[trigger] security_copy.client_policies@[i];
                let policy = security.client_policies@[i];
                &&& copy.client_id_prefix@ == policy.client_id_prefix@
                &&& text::texts(copy.wallet_ids@) == text::texts(policy.wallet_ids@)
                &&& text::texts(copy.purposes@) == text::texts(policy.purposes@)
            },
        security_copy.max_request_bytes == security.max_request_bytes,
        security_copy.max_request_ttl_seconds == security.max_request_ttl_seconds,
        security_copy.clock_skew_seconds == security.clock_skew_seconds,
        security_copy.dedup_ttl_seconds == security.dedup_ttl_seconds,
        security_copy.max_dedup_entries == security.max_dedup_entries,
        local_copy.enabled == local.enabled,
        local_copy.socket_path@ == local.socket_path@,
        mqtt_copy.enabled == mqtt.enabled,
        mqtt_copy.host@ == mqtt.host@,
        mqtt_copy.port == mqtt.port,
        mqtt_copy.client_id@ == mqtt.client_id@,
        mqtt_copy.consumer_group@ == mqtt.consumer_group@,
        mqtt_copy.request_topic_prefix@ == mqtt.request_topic_prefix@,
        mqtt_copy.response_topic_prefix@ == mqtt.response_topic_prefix@,
        mqtt_copy.qos == mqtt.qos,
        mqtt_copy.tls == mqtt.tls,
        mqtt_copy.username@ == mqtt.username@,
        mqtt_copy.password_file@ == mqtt.password_file@,
        whole_copy.store@ == whole.store@,
        whole_copy.security@ == whole.security@,
        whole_copy.transports.local@ == whole.transports.local@,
        whole_copy.transports.mqtt@ == whole.transports.mqtt@,
{
    assert(whole_copy@ == whole@);
    assert(store_copy@ == store@);
    assert(local_copy@ == local@);
    assert(mqtt_copy@ == mqtt@);
    assert(security_copy@ == security@);
    let copies = security_copy@.client_policies;
    let policies = security@.client_policies;
    assert(copies.len() == security_copy.client_policies@.len());
    assert(policies.len() == security.client_policies@.len());
    assert forall|i: int| 0 <= i < security.client_policies@.len() implies (
    #[trigger] security_copy.client_policies@[i])@ == security.client_policies@[i]@ by {
        assert(copies[i] == policies[i]);
    }
}

} // verus!
