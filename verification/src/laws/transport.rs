//! Laws on the transports: whose messages are taken, and where answers go.

use vstd::prelude::*;
use vstd::string::*;

use crate::config::MqttConfig;
use crate::error::Error;
use crate::laws::request;
use crate::laws::text as text_laws;
use crate::protocol::SignRequest;
use crate::secret::Lookup;
use crate::text;
use crate::transport::local;
use crate::transport::local::{
    carries_request, prepare_socket, read_timed_out, response_line, LineReader, Progress,
    SocketStep,
};
use crate::transport::mqtt;
use crate::transport::mqtt::{
    credentials, handle_publish, next_step, qos, reads_password, request_topic_client,
    response_topic, subscription, topic_prefix, BrokerEvent, BrokerStep, Discarded, QoS,
};

verus! {

/// Whether a text holds nothing but slashes.
pub open spec fn slashes(s: Seq<char>) -> bool {
    forall|i: int| 0 <= i < s.len() ==> #[trigger] s[i] == '/'
}

/// Whether a topic is a prefix without the slashes at its end.
pub open spec fn bare_of(bare: Seq<char>, end: Seq<char>, prefix: Seq<char>) -> bool {
    &&& prefix == bare + end
    &&& slashes(end)
    &&& bare.len() > 0 ==> bare.last() != '/'
}

/// Whether a broker hands a topic to the subscribers of a filter: they are the same but that each
/// plus sign of the filter stands for a text without a slash.
pub open spec fn takes(filter: Seq<char>, topic: Seq<char>) -> bool
    decreases filter.len(),
{
    if filter.len() == 0 {
        topic.len() == 0
    } else if filter[0] == '+' {
        exists|n: int|
            0 <= n <= topic.len() && !topic.take(n).contains('/') && takes(
                filter.skip(1),
                #[trigger] topic.skip(n),
            )
    } else {
        topic.len() > 0 && topic[0] == filter[0] && takes(filter.skip(1), topic.skip(1))
    }
}

pub(crate) proof fn lemma_bare(bare: Seq<char>, end: Seq<char>, prefix: Seq<char>)
    requires
        bare_of(bare, end, prefix),
    ensures
        mqtt::bare_prefix(prefix) == bare,
{
    reveal_strlit("/");
    assert forall|i: int| 0 <= i < end.len() implies "/"@.contains(#[trigger] end[i]) by {
        assert("/"@[0] == end[i]);
    }
    if bare.len() > 0 {
        assert(!"/"@.contains(bare.last()));
    }
    text_laws::lemma_end_trimmed_core(bare, end, "/"@);
}

/// Every prefix is a topic that does not end with a slash, and slashes.
pub proof fn lemma_bare_exists(prefix: Seq<char>) -> (parts: (Seq<char>, Seq<char>))
    ensures
        bare_of(parts.0, parts.1, prefix),
{
    reveal_strlit("/");
    let end = text_laws::lemma_end_trimmed(prefix, "/"@);
    let bare = text::trimmed_end_of(prefix, "/"@);
    assert forall|i: int| 0 <= i < end.len() implies #[trigger] end[i] == '/' by {
        assert("/"@.contains(end[i]));
    }
    if bare.len() > 0 {
        assert("/"@[0] == '/');
        assert("/"@.contains('/'));
    }
    (bare, end)
}

/// A topic prefix loses the slashes at its end, all of them, and nothing else.
pub proof fn law_topic_prefix(prefix: &str, r: &str)
    requires
        call_ensures(topic_prefix, (prefix,), r),
    ensures
        exists|end: Seq<char>| #[trigger] bare_of(r@, end, prefix@),
{
    let (bare, end) = lemma_bare_exists(prefix@);
    lemma_bare(bare, end, prefix@);
    assert(bare_of(r@, end, prefix@));
}

proof fn lemma_takes_plain(plain: Seq<char>, filter: Seq<char>, topic: Seq<char>)
    requires
        forall|i: int| 0 <= i < plain.len() ==> #[trigger] plain[i] != '+',
    ensures
        takes(plain + filter, topic) == (plain.is_prefix_of(topic) && takes(
            filter,
            topic.skip(plain.len() as int),
        )),
    decreases plain.len(),
{
    let whole = plain + filter;
    if plain.len() == 0 {
        assert(whole =~= filter);
        assert(topic.skip(0) =~= topic);
    } else {
        let shorter = plain.skip(1);
        assert(whole.skip(1) =~= shorter + filter);
        assert(whole[0] == plain[0]);
        assert forall|i: int| 0 <= i < shorter.len() implies #[trigger] shorter[i] != '+' by {
            assert(shorter[i] == plain[i + 1]);
        }
        if topic.len() > 0 {
            lemma_takes_plain(shorter, filter, topic.skip(1));
            if plain.len() <= topic.len() {
                assert(topic.skip(1).skip(shorter.len() as int) =~= topic.skip(plain.len() as int));
            }
            if plain.is_prefix_of(topic) {
                assert(topic[0] == plain[0]);
                assert forall|i: int| 0 <= i < shorter.len() implies shorter[i] == topic.skip(
                    1,
                )[i] by {
                    assert(plain[i + 1] == topic[i + 1]);
                }
                assert(shorter =~= topic.skip(1).subrange(0, shorter.len() as int));
            }
            if topic[0] == plain[0] && shorter.is_prefix_of(topic.skip(1)) {
                assert forall|i: int| 0 <= i < plain.len() implies plain[i] == topic[i] by {
                    if i > 0 {
                        assert(shorter[i - 1] == topic.skip(1)[i - 1]);
                    }
                }
                assert(plain =~= topic.subrange(0, plain.len() as int));
            }
        }
    }
}

proof fn lemma_takes_level(topic: Seq<char>)
    ensures
        takes(seq!['+'], topic) == !topic.contains('/'),
{
    reveal_with_fuel(takes, 2);
    let filter = seq!['+'];
    assert(filter.skip(1) =~= Seq::empty());
    let n = topic.len() as int;
    assert(topic.take(n) =~= topic);
    if !topic.contains('/') {
        assert(takes(filter.skip(1), topic.skip(n)));
        assert(filter[0] == '+');
        assert(takes(filter, topic));
    }
    if takes(filter, topic) {
        let m = choose|m: int|
            0 <= m <= topic.len() && !topic.take(m).contains('/') && takes(
                filter.skip(1),
                #[trigger] topic.skip(m),
            );
        assert(m == n);
    }
}

/// What is subscribed to is `$share/`, the consumer group, a slash and a filter. The filter takes
/// exactly the topics one level below the request prefix, so the request topic of every client.
pub proof fn law_subscription(
    config: &MqttConfig,
    bare: Seq<char>,
    end: Seq<char>,
    topic: Seq<char>,
    client_id: Seq<char>,
    r: String,
)
    requires
        call_ensures(subscription, (config,), r),
        bare_of(bare, end, config.request_topic_prefix@),
    ensures
        exists|filter: Seq<char>|
            {
                &&& r@ == #[trigger] ("$share/"@ + config.consumer_group@ + "/"@ + filter)
                &&& filter == bare + seq!['/', '+']
                &&& !bare.contains('+') ==> {
                    &&& takes(filter, topic) == (exists|level: Seq<char>|
                        topic == #[trigger] (bare + seq!['/'] + level) && !level.contains('/'))
                    &&& request::identifier(client_id) ==> takes(
                        filter,
                        bare + seq!['/'] + client_id,
                    )
                }
            },
{
    reveal_strlit("/");
    reveal_strlit("/+");
    lemma_bare(bare, end, config.request_topic_prefix@);
    let filter = bare + seq!['/', '+'];
    assert("/+"@ =~= seq!['/', '+']);
    assert(r@ =~= "$share/"@ + config.consumer_group@ + "/"@ + filter);
    if !bare.contains('+') {
        let plain = bare + seq!['/'];
        assert(filter =~= plain + seq!['+']);
        assert forall|i: int| 0 <= i < plain.len() implies #[trigger] plain[i] != '+' by {
            if i < bare.len() {
                assert(bare.contains(bare[i]));
            }
        }
        lemma_takes_plain(plain, seq!['+'], topic);
        lemma_takes_level(topic.skip(plain.len() as int));
        if takes(filter, topic) {
            let level = topic.skip(plain.len() as int);
            assert(topic =~= bare + seq!['/'] + level);
        }
        if exists|level: Seq<char>|
            topic == #[trigger] (bare + seq!['/'] + level) && !level.contains('/') {
            let level = choose|level: Seq<char>|
                topic == #[trigger] (bare + seq!['/'] + level) && !level.contains('/');
            assert(topic.skip(plain.len() as int) =~= level);
            assert(plain =~= topic.subrange(0, plain.len() as int));
        }
        if request::identifier(client_id) {
            let own = bare + seq!['/'] + client_id;
            lemma_takes_plain(plain, seq!['+'], own);
            assert(own.skip(plain.len() as int) =~= client_id);
            lemma_takes_level(client_id);
            lemma_one_level(client_id);
            assert(plain =~= own.subrange(0, plain.len() as int));
        }
    }
}

proof fn lemma_one_level(client_id: Seq<char>)
    requires
        request::identifier(client_id),
    ensures
        !client_id.contains('/'),
{
    if client_id.contains('/') {
        let i = choose|i: int| 0 <= i < client_id.len() && client_id[i] == '/';
        assert(client_id[i] == '/');
    }
}

proof fn lemma_first_level(
    start: Seq<char>,
    a: Seq<char>,
    b: Seq<char>,
    x: Seq<char>,
    y: Seq<char>,
)
    requires
        !a.contains('/'),
        !b.contains('/'),
        start + a + seq!['/'] + x == start + b + seq!['/'] + y,
    ensures
        a == b,
        x == y,
{
    let s = start + a + seq!['/'] + x;
    let t = start + b + seq!['/'] + y;
    let n = start.len() as int;
    if a.len() < b.len() {
        assert(s[n + a.len()] == '/');
        assert(t[n + a.len()] == b[a.len() as int]);
        assert(b.contains(b[a.len() as int]));
    }
    if b.len() < a.len() {
        assert(t[n + b.len()] == '/');
        assert(s[n + b.len()] == a[b.len() as int]);
        assert(a.contains(a[b.len() as int]));
    }
    assert forall|i: int| 0 <= i < a.len() implies a[i] == b[i] by {
        assert(s[n + i] == a[i]);
        assert(t[n + i] == b[i]);
    }
    assert(a =~= b);
    assert(s.len() == n + a.len() + 1 + x.len());
    assert(t.len() == n + b.len() + 1 + y.len());
    assert forall|i: int| 0 <= i < x.len() implies x[i] == y[i] by {
        assert(s[n + a.len() + 1 + i] == x[i]);
        assert(t[n + a.len() + 1 + i] == y[i]);
    }
    assert(x =~= y);
}

/// Different consumer groups subscribe to different things, and so do prefixes that differ in more
/// than the slashes at their ends.
pub proof fn law_subscriptions_differ(
    a: &MqttConfig,
    b: &MqttConfig,
    a_bare: Seq<char>,
    b_bare: Seq<char>,
    a_end: Seq<char>,
    b_end: Seq<char>,
    ra: String,
    rb: String,
)
    requires
        call_ensures(subscription, (a,), ra),
        call_ensures(subscription, (b,), rb),
        bare_of(a_bare, a_end, a.request_topic_prefix@),
        bare_of(b_bare, b_end, b.request_topic_prefix@),
        request::identifier(a.consumer_group@),
        request::identifier(b.consumer_group@),
    ensures
        a.consumer_group@ != b.consumer_group@ ==> ra@ != rb@,
        a_bare != b_bare ==> ra@ != rb@,
{
    reveal_strlit("/");
    reveal_strlit("/+");
    lemma_bare(a_bare, a_end, a.request_topic_prefix@);
    lemma_bare(b_bare, b_end, b.request_topic_prefix@);
    lemma_one_level(a.consumer_group@);
    lemma_one_level(b.consumer_group@);
    assert("/"@ =~= seq!['/']);
    if ra@ == rb@ {
        let x = a_bare + "/+"@;
        let y = b_bare + "/+"@;
        assert(ra@ =~= "$share/"@ + a.consumer_group@ + seq!['/'] + x);
        assert(rb@ =~= "$share/"@ + b.consumer_group@ + seq!['/'] + y);
        lemma_first_level("$share/"@, a.consumer_group@, b.consumer_group@, x, y);
        assert(x.take(x.len() - 2) =~= a_bare);
        assert(y.take(y.len() - 2) =~= b_bare);
    }
}

/// A client's answers go to the response prefix, a slash and the client's ID.
pub proof fn law_response_topic(
    config: &MqttConfig,
    client_id: &str,
    bare: Seq<char>,
    end: Seq<char>,
    r: String,
)
    requires
        call_ensures(response_topic, (config, client_id), r),
        bare_of(bare, end, config.response_topic_prefix@),
    ensures
        r@ == bare + seq!['/'] + client_id@,
{
    reveal_strlit("/");
    lemma_bare(bare, end, config.response_topic_prefix@);
    assert("/"@ =~= seq!['/']);
}

/// A topic is a client's exactly where it is the prefix, a slash and the client's ID, which has
/// characters and no slash among them.
pub proof fn law_request_topic_client(
    prefix: &str,
    topic: &str,
    client_id: Seq<char>,
    r: Option<&str>,
)
    requires
        call_ensures(request_topic_client, (prefix, topic), r),
    ensures
        (r is Some && r->0@ == client_id) == (topic@ == prefix@ + seq!['/'] + client_id
            && client_id.len() > 0 && !client_id.contains('/')),
{
    reveal_strlit("/");
    assert("/"@ =~= seq!['/']);
    mqtt::lemma_topic_client(prefix@, topic@, client_id);
    assert(text::option_view(r) == mqtt::topic_client(prefix@, topic@));
    match r {
        Some(found) => {
            assert(text::option_view(r) == Some(found@));
        },
        None => {
            assert(text::option_view(r) is None);
        },
    }
}

/// A published message is taken exactly where it is no longer than the limit and is a request whose
/// client is an identifier and has the topic. It is taken as it is. Whatever else is told by the
/// first thing that is wrong.
pub proof fn law_handle_publish(
    max_request_bytes: usize,
    payload: &[u8],
    parsed: Option<SignRequest>,
    prefix: &str,
    topic: &str,
    r: Result<SignRequest, Discarded>,
)
    requires
        call_ensures(handle_publish, (max_request_bytes, payload, parsed, prefix, topic), r),
    ensures
        payload@.len() > max_request_bytes ==> r == Err::<SignRequest, Discarded>(Discarded::Oversized),
        payload@.len() <= max_request_bytes && parsed is None ==> r == Err::<SignRequest, Discarded>(Discarded::Malformed),
        payload@.len() <= max_request_bytes ==> (parsed matches Some(request) ==> {
            let own = topic@ == prefix@ + seq!['/'] + request.client_id@;
            &&& !request::identifier(request.client_id@) ==> r == Err::<SignRequest, Discarded>(Discarded::UnsafeClient)
            &&& request::identifier(request.client_id@) && !own ==> r == Err::<SignRequest, Discarded>(Discarded::TopicMismatch)
            &&& request::identifier(request.client_id@) && own ==> (r matches Ok(taken)
                && request::same_request(taken, request))
        }),
{
    reveal_strlit("/");
    assert("/"@ =~= seq!['/']);
    if let Some(request) = parsed {
        request::lemma_identifier(request.client_id@);
        mqtt::lemma_topic_client(prefix@, topic@, request.client_id@);
        if request::identifier(request.client_id@) {
            lemma_one_level(request.client_id@);
        }
        assert(text::option_view(parsed) == Some(request@));
        if let Ok(taken) = r {
            assert(taken@ == request@);
        }
    }
}

/// A broker is told the name that is set and the password file's contents without the line ends
/// behind them. Without a name it is told nothing, and without a file the password is empty.
pub proof fn law_credentials(
    config: &MqttConfig,
    password: Result<&str, Error>,
    word: Seq<char>,
    ends: Seq<char>,
    reads: bool,
    r: Result<Option<(String, String)>, Error>,
)
    requires
        call_ensures(credentials, (config, password), r),
        call_ensures(reads_password, (config,), reads),
        word.len() > 0 ==> word.last() != '\r' && word.last() != '\n',
        forall|i: int| 0 <= i < ends.len() ==> (#[trigger] ends[i] == '\r' || ends[i] == '\n'),
    ensures
        reads == (config.username@.len() > 0 && config.password_file@.len() > 0),
        config.username@.len() == 0 ==> r matches Ok(None),
        config.username@.len() > 0 && config.password_file@.len() == 0 ==> (r matches Ok(
            Some(told),
        ) && told.0@ == config.username@ && told.1@.len() == 0),
        config.username@.len() > 0 && config.password_file@.len() > 0 ==> {
            &&& password matches Err(error) ==> (r matches Err(told) && told@ == error@)
            &&& password matches Ok(contents) ==> (contents@ == word + ends ==> (r matches Ok(
                Some(told),
            ) && told.0@ == config.username@ && told.1@ == word))
        },
{
    reveal_strlit("\r\n");
    let set = "\r\n"@;
    if let Ok(contents) = password {
        if contents@ == word + ends {
            assert forall|i: int| 0 <= i < ends.len() implies set.contains(#[trigger] ends[i]) by {
                if ends[i] == '\r' {
                    assert(set[0] == ends[i]);
                } else {
                    assert(set[1] == ends[i]);
                }
            }
            if word.len() > 0 {
                assert(!set.contains(word.last()));
            }
            text_laws::lemma_end_trimmed_core(word, ends, set);
        }
    }
}

/// Delivery is at most once for 0, exactly once for 2, and at least once otherwise. A connection is
/// subscribed when it is there, a message is handled, and a broken connection is tried again.
pub proof fn law_broker(value: u8, r: QoS, event: BrokerEvent, step: BrokerStep)
    requires
        call_ensures(qos, (value,), r),
        call_ensures(next_step, (event,), step),
    ensures
        (value == 0) == (r is AtMostOnce),
        (value == 2) == (r is ExactlyOnce),
        (event is Connected) == (step is Subscribe),
        (event is Published) == (step is Handle),
        (event is Interrupted) == (step is Retry),
        (event is Other) == (step is Continue),
{
}

/// Whether bytes have no newline among them.
pub open spec fn no_newline(bytes: Seq<u8>) -> bool {
    forall|i: int| 0 <= i < bytes.len() ==> #[trigger] bytes[i] != 10
}

/// Where a line ends among the available bytes, and it fits, the line is read and complete, and the
/// bytes behind it are left. Where it does not fit it is refused, and nothing changes.
pub proof fn law_line_end(
    reader: &mut LineReader,
    available: &[u8],
    head: Seq<u8>,
    tail: Seq<u8>,
    r: Result<Progress, Error>,
)
    requires
        call_ensures(LineReader::feed, (reader, available), r),
        no_newline(head),
        available@ == head + seq![10u8] + tail,
    ensures
        final(reader)@.limit == old(reader)@.limit,
        old(reader)@.line.len() + head.len() + 1 <= old(reader)@.limit ==> {
            &&& final(reader)@.line == old(reader)@.line + head
            &&& r is Ok && r->Ok_0.complete && r->Ok_0.consumed == head.len() + 1
        },
        old(reader)@.line.len() + head.len() + 1 > old(reader)@.limit ==> {
            &&& final(reader)@.line == old(reader)@.line
            &&& r matches Err(Error::InvalidRequest(message)) && message@
                == "request exceeds configured byte limit"@
        },
{
    let at = head.len() as int;
    assert(available@[at] == 10);
    assert forall|i: int| 0 <= i < at implies available@[i] != 10 by {
        assert(available@[i] == head[i]);
    }
    local::lemma_line_length_at(available@, at);
    assert(local::without_newline(available@.take(at + 1)) =~= head);
}

/// Where no line ends among the available bytes, they are all read and the line goes on, as far as
/// it fits. Where the stream has ended the line is complete.
pub proof fn law_line_part(
    reader: &mut LineReader,
    available: &[u8],
    r: Result<Progress, Error>,
)
    requires
        call_ensures(LineReader::feed, (reader, available), r),
        no_newline(available@),
    ensures
        final(reader)@.limit == old(reader)@.limit,
        available@.len() == 0 ==> {
            &&& final(reader)@.line == old(reader)@.line
            &&& r is Ok && r->Ok_0.complete && r->Ok_0.consumed == 0
        },
        available@.len() > 0 && old(reader)@.line.len() + available@.len() <= old(reader)@.limit
            ==> {
            &&& final(reader)@.line == old(reader)@.line + available@
            &&& r is Ok && !r->Ok_0.complete && r->Ok_0.consumed == available@.len()
        },
        available@.len() > 0 && old(reader)@.line.len() + available@.len() > old(reader)@.limit
            ==> {
            &&& final(reader)@.line == old(reader)@.line
            &&& r matches Err(Error::InvalidRequest(message)) && message@
                == "request exceeds configured byte limit"@
        },
{
    local::lemma_no_line_ends(available@);
    assert(available@.take(available@.len() as int) =~= available@);
}

/// A reader starts with nothing and its limit, and gives the line as far as it is read.
pub proof fn law_line_reader(limit: usize, reader: LineReader, done: LineReader, line: Vec<u8>)
    requires
        call_ensures(LineReader::new, (limit,), reader),
        call_ensures(LineReader::into_line, (done,), line),
    ensures
        reader@.line.len() == 0,
        reader@.limit == limit,
        line@ == done@.line,
        line@.len() <= done@.limit,
{
}

/// One line goes in and comes out: a new reader that is fed bytes with a newline among them gives
/// the bytes before the first.
pub proof fn law_first_line(
    limit: usize,
    reader: &mut LineReader,
    available: &[u8],
    head: Seq<u8>,
    tail: Seq<u8>,
    r: Result<Progress, Error>,
)
    requires
        call_ensures(LineReader::new, (limit,), *old(reader)),
        call_ensures(LineReader::feed, (reader, available), r),
        no_newline(head),
        available@ == head + seq![10u8] + tail,
    ensures
        (r is Ok) == (head.len() < limit),
        r is Ok ==> forall|line: Vec<u8>|
            call_ensures(LineReader::into_line, (*final(reader),), line) ==> line@ == head,
{
    law_line_end(reader, available, head, tail, r);
    assert(Seq::<u8>::empty() + head =~= head);
}

/// An empty line is not answered, an answer ends with its only added newline, and a request that
/// takes too long is told so.
pub proof fn law_lines(
    line: &[u8],
    carries: bool,
    encoded: Vec<u8>,
    sent: Vec<u8>,
    late: Error,
)
    requires
        call_ensures(carries_request, (line,), carries),
        call_ensures(response_line, (encoded,), sent),
        call_ensures(read_timed_out, (), late),
    ensures
        carries == (line@.len() > 0),
        sent@ == encoded@ + seq![10u8],
        late matches Error::InvalidRequest(message) && message@ == "request read timed out"@,
{
    assert(sent@ =~= encoded@ + seq![10u8]);
}

/// The socket's path is used where nothing is there or a socket is, which is replaced. Anything else
/// is left alone.
pub proof fn law_prepare_socket(path: &str, found: &Lookup, r: Result<SocketStep, Error>)
    requires
        call_ensures(prepare_socket, (path, found), r),
    ensures
        found is Missing ==> r == Ok::<SocketStep, Error>(SocketStep::Bind),
        found matches Lookup::Present(facts) ==> {
            &&& facts.kind is Socket ==> r == Ok::<SocketStep, Error>(SocketStep::Replace)
            &&& !(facts.kind is Socket) ==> (r matches Err(Error::Config(message)) && message@
                == "local socket path already exists and is not a socket: "@ + path@)
        },
        found matches Lookup::Failed(reason) ==> (r matches Err(
            Error::ReadFile { path: told, source },
        ) && told@ == path@ && source@ == reason@),
{
}

} // verus!
