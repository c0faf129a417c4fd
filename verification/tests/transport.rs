use agent_wallet::config::MqttConfig;
use agent_wallet::metadata::Metadata;
use agent_wallet::protocol::{SignRequest, EIP712_SECP256K1, PROTOCOL_VERSION};
use agent_wallet::secret::{FileFacts, FileKind, Lookup};
use agent_wallet::transport::local::{
    carries_request, prepare_socket, read_timed_out, response_line, LineReader, SocketStep,
};
use agent_wallet::transport::mqtt::{
    credentials, handle_publish, next_step, qos, reads_password, request_topic_client, response_topic, subscription,
    topic_prefix, BrokerEvent, BrokerStep, Discarded, QoS,
};
use agent_wallet::Error;

#[test]
fn maps_configured_qos() {
    assert_eq!(qos(0), QoS::AtMostOnce);
    assert_eq!(qos(1), QoS::AtLeastOnce);
    assert_eq!(qos(2), QoS::ExactlyOnce);
    assert_eq!(qos(9), QoS::AtLeastOnce);
}

#[test]
fn extracts_only_direct_client_topic() {
    assert_eq!(
        request_topic_client("wallet/v1/sign/requests", "wallet/v1/sign/requests/flowgent-1"),
        Some("flowgent-1")
    );
    assert_eq!(
        request_topic_client("wallet/v1/sign/requests", "wallet/v1/sign/requests/flowgent-1/nested"),
        None
    );
}

#[test]
fn other_topics_belong_to_no_client() {
    for topic in ["a/b", "a/b/", "a/bc", "a", "", "x/a/b/c"] {
        assert_eq!(request_topic_client("a/b", topic), None, "{topic}");
    }
    assert_eq!(request_topic_client("", "/c"), Some("c"));
}

fn config() -> MqttConfig {
    MqttConfig {
        request_topic_prefix: "wallet/requests//".to_owned(),
        response_topic_prefix: "wallet/responses/".to_owned(),
        ..MqttConfig::default()
    }
}

#[test]
fn topics_are_built_from_settings() {
    assert_eq!(subscription(&config()), "$share/wallet-pool/wallet/requests/+");
    assert_eq!(response_topic(&config(), "client-1"), "wallet/responses/client-1");
    assert_eq!(topic_prefix("wallet/requests//"), "wallet/requests");
    assert_eq!(topic_prefix("//"), "");
}

fn request(client_id: &str) -> SignRequest {
    SignRequest {
        version: PROTOCOL_VERSION.to_owned(),
        request_id: 1,
        client_id: client_id.to_owned(),
        wallet_id: "payer".to_owned(),
        purpose: "x402.payment".to_owned(),
        scheme: EIP712_SECP256K1.to_owned(),
        digest_b64: String::new(),
        issued_at: 0,
        expires_at: 30,
        metadata: Metadata::new(),
    }
}

#[test]
fn clients_ask_under_their_own_topic() {
    let publish = |payload: &[u8], parsed, topic| handle_publish(4, payload, parsed, "requests", topic);
    assert_eq!(
        publish(b"12345", None, "requests/a").err(),
        Some(Discarded::Oversized)
    );
    assert_eq!(publish(b"1234", None, "requests/a").err(), Some(Discarded::Malformed));
    assert_eq!(
        publish(b"1234", Some(request("a/b")), "requests/a").err(),
        Some(Discarded::UnsafeClient)
    );
    assert_eq!(
        publish(b"1234", Some(request("a")), "requests/b").err(),
        Some(Discarded::TopicMismatch)
    );
    assert_eq!(
        publish(b"1234", Some(request("a")), "a").err(),
        Some(Discarded::TopicMismatch)
    );
    assert_eq!(
        publish(b"1234", Some(request("a")), "requests/a").unwrap().client_id,
        "a"
    );
}

#[test]
fn passwords_end_before_the_line_end() {
    let mut config = config();
    assert!(!reads_password(&config));
    assert!(matches!(credentials(&config, Ok("ignored")), Ok(None)));
    config.username = "walletd".to_owned();
    assert!(!reads_password(&config));
    assert!(
        matches!(credentials(&config, Ok("ignored")), Ok(Some((name, word))) if name == "walletd" && word.is_empty())
    );
    config.password_file = "/password".to_owned();
    assert!(reads_password(&config));
    assert!(
        matches!(credentials(&config, Ok(" open\r\nsesame \r\n\n")), Ok(Some((name, word))) if name == "walletd" && word == " open\r\nsesame ")
    );
    assert!(matches!(
        credentials(&config, Err(Error::Config("m".to_owned()))),
        Err(Error::Config(_))
    ));
}

#[test]
fn broker_events_have_steps() {
    assert_eq!(next_step(BrokerEvent::Connected), BrokerStep::Subscribe);
    assert_eq!(next_step(BrokerEvent::Published), BrokerStep::Handle);
    assert_eq!(next_step(BrokerEvent::Other), BrokerStep::Continue);
    assert_eq!(next_step(BrokerEvent::Interrupted), BrokerStep::Retry);
}

fn read(pieces: &[&[u8]], limit: usize) -> Result<Vec<u8>, Error> {
    let mut reader = LineReader::new(limit);
    for piece in pieces {
        let progress = reader.feed(piece)?;
        if progress.complete {
            return Ok(reader.into_line());
        }
        assert_eq!(progress.consumed, piece.len());
    }
    assert!(reader.feed(b"")?.complete);
    Ok(reader.into_line())
}

#[test]
fn lines_do_not_depend_on_pieces() {
    let stream = b"{\"a\":1}\nrest\n";
    for first in 1..stream.len() {
        for second in first + 1..stream.len() {
            let pieces = [&stream[..first], &stream[first..second], &stream[second..]];
            assert_eq!(read(&pieces, 8).unwrap(), b"{\"a\":1}");
            assert!(
                matches!(read(&pieces, 7), Err(Error::InvalidRequest(message)) if message == "request exceeds configured byte limit")
            );
        }
    }
}

#[test]
fn streams_may_end_without_a_line_end() {
    assert_eq!(read(&[b"abc", b"d"], 4).unwrap(), b"abcd");
    assert!(read(&[b"abc", b"de"], 4).is_err());
    assert_eq!(read(&[], 4).unwrap(), b"");
    assert_eq!(read(&[b"\n"], 1).unwrap(), b"");
    assert!(read(&[b"\n"], 0).is_err());
    let mut reader = LineReader::new(10);
    let progress = reader.feed(b"ab\ncd").unwrap();
    assert_eq!(progress.consumed, 3);
    assert!(progress.complete);
}

#[test]
fn answers_are_lines() {
    assert!(!carries_request(b""));
    assert!(carries_request(b" "));
    assert_eq!(response_line(b"{}".to_vec()), b"{}\n");
    assert!(matches!(read_timed_out(), Error::InvalidRequest(message) if message == "request read timed out"));
}

#[test]
fn only_sockets_are_replaced() {
    let found = |kind| {
        Lookup::Present(FileFacts {
            kind,
            mode: 0o600,
            length: 0,
        })
    };
    assert_eq!(
        prepare_socket("/run/s", &found(FileKind::Socket)).unwrap(),
        SocketStep::Replace
    );
    assert_eq!(prepare_socket("/run/s", &Lookup::Missing).unwrap(), SocketStep::Bind);
    assert!(
        matches!(prepare_socket("/run/s", &found(FileKind::Regular)), Err(Error::Config(message)) if message == "local socket path already exists and is not a socket: /run/s")
    );
    assert!(matches!(
        prepare_socket("/run/s", &Lookup::Failed("denied".to_owned())),
        Err(Error::ReadFile { .. })
    ));
}
