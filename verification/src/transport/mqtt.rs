//! The transport over MQTT: requests under one topic, responses under another.

use vstd::prelude::*;
use vstd::string::*;

use crate::config::{MqttConfig, MqttView};
use crate::error;
use crate::error::{Error, ErrorView};
use crate::protocol;
use crate::protocol::{check_identifier, RequestView, SignRequest};
use crate::text;
use crate::text::{contains_char, join3, same_text, strip_prefix, trim_end_of};

verus! {

/// The most bytes of a password file.
pub const MAX_PASSWORD_FILE_BYTES: usize = 16_384;

/// The time between signs of life to the broker.
pub const KEEP_ALIVE_SECONDS: u64 = 30;

/// The time after which a broken connection is tried again.
pub const RETRY_SECONDS: u64 = 1;

/// How surely a message is delivered.
#[derive(Clone, Copy, Debug, PartialEq, Eq, Structural)]
pub enum QoS {
    AtMostOnce,
    AtLeastOnce,
    ExactlyOnce,
}

/// The delivery that a setting stands for: at least once, unless it says otherwise.
pub fn qos(value: u8) -> (r: QoS)
    ensures
        r == match value {
            0 => QoS::AtMostOnce,
            2 => QoS::ExactlyOnce,
            _ => QoS::AtLeastOnce,
        },
{
    match value {
        0 => QoS::AtMostOnce,
        2 => QoS::ExactlyOnce,
        _ => QoS::AtLeastOnce,
    }
}

/// A topic prefix without the slashes at its end.
pub open spec fn bare_prefix(prefix: Seq<char>) -> Seq<char> {
    text::trimmed_end_of(prefix, "/"@)
}

/// A topic prefix without the slashes at its end.
pub fn topic_prefix<'a>(prefix: &'a str) -> (r: &'a str)
    ensures
        r@ == bare_prefix(prefix@),
{
    trim_end_of(prefix, "/")
}

/// What is subscribed to: every topic one level below the request prefix, shared with the other
/// members of the consumer group.
pub open spec fn subscription_topic(mqtt: MqttView) -> Seq<char> {
    "$share/"@ + mqtt.consumer_group + "/"@ + bare_prefix(mqtt.request_topic_prefix) + "/+"@
}

/// What is subscribed to.
pub fn subscription(config: &MqttConfig) -> (r: String)
    ensures
        r@ == subscription_topic(config@),
{
    let mut r = join3("$share/", config.consumer_group.as_str(), "/");
    r.append(topic_prefix(config.request_topic_prefix.as_str()));
    r.append("/+");
    r
}

/// The topic under which a client gets its responses.
pub open spec fn client_response_topic(mqtt: MqttView, client_id: Seq<char>) -> Seq<char> {
    bare_prefix(mqtt.response_topic_prefix) + "/"@ + client_id
}

/// The topic under which a client gets its responses.
pub fn response_topic(config: &MqttConfig, client_id: &str) -> (r: String)
    ensures
        r@ == client_response_topic(config@, client_id@),
{
    join3(topic_prefix(config.response_topic_prefix.as_str()), "/", client_id)
}

/// The client that a topic below a prefix belongs to: the one level that follows the prefix.
pub open spec fn topic_client(prefix: Seq<char>, topic: Seq<char>) -> Option<Seq<char>> {
    match text::without_prefix(topic, prefix) {
        None => None,
        Some(rest) => match text::without_prefix(rest, "/"@) {
            None => None,
            Some(client_id) => if client_id.len() == 0 || client_id.contains('/') {
                None
            } else {
                Some(client_id)
            },
        },
    }
}

/// The client that a topic below a prefix belongs to.
pub fn request_topic_client<'a>(prefix: &str, topic: &'a str) -> (r: Option<&'a str>)
    ensures
        text::option_view(r) == topic_client(prefix@, topic@),
{
    let rest = match strip_prefix(topic, prefix) {
        Some(rest) => rest,
        None => return None,
    };
    let client_id = match strip_prefix(rest, "/") {
        Some(client_id) => client_id,
        None => return None,
    };
    if client_id.unicode_len() == 0 || contains_char(client_id, '/') {
        return None;
    }
    Some(client_id)
}

/// The topic of a client below a prefix.
pub open spec fn client_topic(prefix: Seq<char>, client_id: Seq<char>) -> Seq<char> {
    prefix + "/"@ + client_id
}

/// A topic belongs to a client exactly where it is the prefix, a slash and the client's ID, and
/// that ID is one level.
pub proof fn lemma_topic_client(prefix: Seq<char>, topic: Seq<char>, client_id: Seq<char>)
    ensures
        (topic_client(prefix, topic) == Some(client_id)) == (topic == client_topic(
            prefix,
            client_id,
        ) && client_id.len() > 0 && !client_id.contains('/')),
{
    reveal_strlit("/");
    if topic_client(prefix, topic) == Some(client_id) {
        let rest = topic.skip(prefix.len() as int);
        assert(topic =~= prefix + rest);
        assert(rest =~= "/"@ + rest.skip(1));
        assert(topic =~= client_topic(prefix, client_id));
    }
    if topic == client_topic(prefix, client_id) {
        assert(topic =~= prefix + ("/"@ + client_id));
        text::lemma_without_prefix_concat(prefix, "/"@ + client_id);
        text::lemma_without_prefix_concat("/"@, client_id);
    }
}

/// Every client whose ID is an identifier has a request topic of its own, which leads back to it.
pub proof fn lemma_identifiers_have_topics(prefix: Seq<char>, client_id: Seq<char>)
    requires
        protocol::is_identifier(client_id),
    ensures
        topic_client(prefix, client_topic(prefix, client_id)) == Some(client_id),
{
    assert(!client_id.contains('/')) by {
        if client_id.contains('/') {
            let i = choose|i: int| 0 <= i < client_id.len() && client_id[i] == '/';
            assert(protocol::identifier_char(client_id[i]));
        }
    }
    lemma_topic_client(prefix, client_topic(prefix, client_id), client_id);
}

/// Why a published message is discarded.
#[derive(Clone, Copy, Debug, PartialEq, Eq, Structural)]
pub enum Discarded {
    /// It is longer than requests may be.
    Oversized,
    /// It is no request.
    Malformed,
    /// The client ID is no identifier.
    UnsafeClient,
    /// The topic belongs to another client.
    TopicMismatch,
}

/// Which request a published message makes, or why it makes none.
pub open spec fn published_request(
    max_request_bytes: usize,
    payload: Seq<u8>,
    parsed: Option<RequestView>,
    prefix: Seq<char>,
    topic: Seq<char>,
) -> Result<RequestView, Discarded> {
    if payload.len() > max_request_bytes {
        Err(Discarded::Oversized)
    } else {
        match parsed {
            None => Err(Discarded::Malformed),
            Some(request) => if !protocol::is_identifier(request.client_id) {
                Err(Discarded::UnsafeClient)
            } else if topic_client(prefix, topic) != Some(request.client_id) {
                Err(Discarded::TopicMismatch)
            } else {
                Ok(request)
            },
        }
    }
}

/// The meaning of what admitting a message gave.
pub open spec fn admission_view(r: Result<SignRequest, Discarded>) -> Result<
    RequestView,
    Discarded,
> {
    match r {
        Ok(request) => Ok(request@),
        Err(reason) => Err(reason),
    }
}

/// Takes the request from a published message, from what parsing it gave. A client can ask only
/// under its own topic.
pub fn handle_publish(
    max_request_bytes: usize,
    payload: &[u8],
    parsed: Option<SignRequest>,
    prefix: &str,
    topic: &str,
) -> (r: Result<SignRequest, Discarded>)
    ensures
        admission_view(r) == published_request(
            max_request_bytes,
            payload@,
            text::option_view(parsed),
            prefix@,
            topic@,
        ),
{
    if payload.len() > max_request_bytes {
        return Err(Discarded::Oversized);
    }
    let request = match parsed {
        Some(request) => request,
        None => return Err(Discarded::Malformed),
    };
    if !check_identifier(request.client_id.as_str()) {
        return Err(Discarded::UnsafeClient);
    }
    let own_topic = match request_topic_client(prefix, topic) {
        Some(client_id) => same_text(client_id, request.client_id.as_str()),
        None => false,
    };
    if !own_topic {
        return Err(Discarded::TopicMismatch);
    }
    Ok(request)
}

/// Whatever is admitted came under the topic of the client that it names, so that a response under
/// that client's topic reaches the sender alone.
pub proof fn lemma_admitted_request_came_from_its_client(
    max_request_bytes: usize,
    payload: Seq<u8>,
    parsed: Option<RequestView>,
    prefix: Seq<char>,
    topic: Seq<char>,
)
    requires
        published_request(max_request_bytes, payload, parsed, prefix, topic) is Ok,
    ensures
        parsed matches Some(request) && {
            &&& published_request(max_request_bytes, payload, parsed, prefix, topic) == Ok::<
                RequestView,
                Discarded,
            >(request)
            &&& topic == client_topic(prefix, request.client_id)
            &&& protocol::is_identifier(request.client_id)
        },
        payload.len() <= max_request_bytes,
{
    lemma_topic_client(prefix, topic, parsed->Some_0.client_id);
}

/// Who the broker is told to be: a name and a password, or nobody.
pub open spec fn broker_credentials(
    mqtt: MqttView,
    password: Result<Seq<char>, ErrorView>,
) -> Result<Option<(Seq<char>, Seq<char>)>, ErrorView> {
    if mqtt.username.len() == 0 {
        Ok(None)
    } else if mqtt.password_file.len() == 0 {
        Ok(Some((mqtt.username, Seq::empty())))
    } else {
        match password {
            Err(error) => Err(error),
            Ok(contents) => Ok(
                Some((mqtt.username, text::trimmed_end_of(contents, "\r\n"@))),
            ),
        }
    }
}

/// Whether connecting takes the contents of the password file.
pub fn reads_password(config: &MqttConfig) -> (r: bool)
    ensures
        r == (config@.username.len() > 0 && config@.password_file.len() > 0),
{
    config.username.as_str().unicode_len() > 0 && config.password_file.as_str().unicode_len() > 0
}

/// The name and the password for the broker, from what reading the password file gave. The line
/// ends behind the password are not part of it.
pub fn credentials(config: &MqttConfig, password: Result<&str, Error>) -> (r: Result<
    Option<(String, String)>,
    Error,
>)
    ensures
        match broker_credentials(config@, error::result_view(password)) {
            Err(error) => r matches Err(told) && told@ == error,
            Ok(None) => r matches Ok(None),
            Ok(Some((username, word))) => r matches Ok(Some((name, told))) && name@ == username
                && told@ == word,
        },
{
    if config.username.as_str().unicode_len() == 0 {
        return Ok(None);
    }
    if config.password_file.as_str().unicode_len() == 0 {
        let word = "".to_owned();
        proof {
            reveal_strlit("");
            assert(word@ =~= Seq::empty());
        }
        return Ok(Some((config.username.clone(), word)));
    }
    match password {
        Err(error) => Err(error),
        Ok(contents) => Ok(
            Some((config.username.clone(), trim_end_of(contents, "\r\n").to_owned())),
        ),
    }
}

/// What happened on the connection to the broker.
#[derive(Clone, Copy, Debug, PartialEq, Eq, Structural)]
pub enum BrokerEvent {
    /// The broker has taken up the connection.
    Connected,
    /// A message was published under the subscription.
    Published,
    /// Anything else went through.
    Other,
    /// The connection broke.
    Interrupted,
}

/// What is to be done about it.
#[derive(Clone, Copy, Debug, PartialEq, Eq, Structural)]
pub enum BrokerStep {
    /// Subscribe to the requests. Sessions are not kept, so each connection starts without.
    Subscribe,
    /// Handle the message.
    Handle,
    /// Go on.
    Continue,
    /// Wait, and go on.
    Retry,
}

/// What is to be done about what happened on the connection.
pub fn next_step(event: BrokerEvent) -> (r: BrokerStep)
    ensures
        r == match event {
            BrokerEvent::Connected => BrokerStep::Subscribe,
            BrokerEvent::Published => BrokerStep::Handle,
            BrokerEvent::Other => BrokerStep::Continue,
            BrokerEvent::Interrupted => BrokerStep::Retry,
        },
{
    match event {
        BrokerEvent::Connected => BrokerStep::Subscribe,
        BrokerEvent::Published => BrokerStep::Handle,
        BrokerEvent::Other => BrokerStep::Continue,
        BrokerEvent::Interrupted => BrokerStep::Retry,
    }
}

} // verus!
