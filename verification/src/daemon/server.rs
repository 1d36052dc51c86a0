//! The daemon's side of the wire: which lines are requests, how each is
//! answered, and which events a subscriber gets.
//!
//! `subscribe` is connection-scoped and switches the connection into push
//! mode, filtered by topic. Malformed input never kills the daemon — the
//! offending connection gets an error envelope instead.

use vstd::prelude::*;

use crate::domain::events::DomainEvent;
use crate::domain::events::{topic_of, DomainEventView};
use crate::hypr::error::HyprError;
use crate::json::Json;
use crate::json::JsonView;
use crate::numbers::render;
use crate::numbers::decimal;
use crate::outside::parse_json;
use crate::outside::json_document;
use crate::pieces::trim;
use crate::pieces::trimmed;
use crate::proto::{ErrorBody, ErrorCode, Reply, Request, RequestEnvelope, PROTOCOL_VERSION};
use crate::proto::{ErrorBodyView, ReplyView, RequestView};
use crate::text::{is_empty, same};

verus! {

/// An answer on the wire.
#[derive(Debug)]
pub struct ResponseEnvelope {
    /// Protocol major.
    pub v: u32,
    /// The id of the request.
    pub id: u64,
    /// What came of it.
    pub outcome: Result<Reply, ErrorBody>,
}

/// What a [`ResponseEnvelope`] holds.
#[verifier::ext_equal]
pub struct ResponseEnvelopeView {
    /// See [`ResponseEnvelope::v`].
    pub v: u32,
    /// See [`ResponseEnvelope::id`].
    pub id: u64,
    /// See [`ResponseEnvelope::outcome`].
    pub outcome: Result<ReplyView, ErrorBodyView>,
}

impl View for ResponseEnvelope {
    type V = ResponseEnvelopeView;

    open spec fn view(&self) -> ResponseEnvelopeView {
        ResponseEnvelopeView {
            v: self.v,
            id: self.id,
            outcome: match self.outcome {
                Ok(reply) => Ok(reply@),
                Err(error) => Err(error@),
            },
        }
    }
}

/// An answer that reports a failure.
pub open spec fn failed(id: u64, code: ErrorCode, message: Seq<char>) -> ResponseEnvelopeView {
    ResponseEnvelopeView {
        v: PROTOCOL_VERSION,
        id,
        outcome: Err(ErrorBodyView { code, message, candidates: None }),
    }
}

/// An answer that reports success.
pub open spec fn succeeded(id: u64, reply: ReplyView) -> ResponseEnvelopeView {
    ResponseEnvelopeView { v: PROTOCOL_VERSION, id, outcome: Ok(reply) }
}

impl ResponseEnvelope {
    /// Report success.
    pub fn success(id: u64, reply: Reply) -> (r: Self)
        ensures
            r@ == succeeded(id, reply@),
    {
        ResponseEnvelope { v: PROTOCOL_VERSION, id, outcome: Ok(reply) }
    }

    /// Report a failure.
    pub fn failure(id: u64, code: ErrorCode, message: String) -> (r: Self)
        ensures
            r@ == failed(id, code, message@),
    {
        ResponseEnvelope {
            v: PROTOCOL_VERSION,
            id,
            outcome: Err(ErrorBody::new(code, message)),
        }
    }
}

// ---- lines --------------------------------------------------------------------------------

/// Whether a line holds nothing and is passed over.
pub fn is_blank(line: &str) -> (r: bool)
    ensures
        r == (trimmed(line@).len() == 0),
{
    is_empty(trim(line).as_str())
}

/// The id that the answer to a line bears, whatever else the line holds.
pub open spec fn loose_id(document: Option<JsonView>) -> u64 {
    match document {
        Some(document) => match document.member("id"@) {
            Some(id) => match id.as_number() {
                Some(id) => id,
                None => 0,
            },
            None => 0,
        },
        None => 0,
    }
}

/// Whether a line names a method, whatever else it holds.
pub open spec fn names_method(document: Option<JsonView>) -> bool {
    match document {
        Some(document) => document.member("method"@) is Some,
        None => false,
    }
}

/// The refusal of a line that is no request: it bears the line's id as far as
/// there is one.
pub open spec fn malformed(document: Option<JsonView>) -> ResponseEnvelopeView {
    if names_method(document) {
        failed(loose_id(document), ErrorCode::UnknownMethod, "unknown or malformed method"@)
    } else {
        failed(loose_id(document), ErrorCode::BadRequest, "not a valid request envelope"@)
    }
}

/// Refuse a document that is no request.
pub fn refuse_document(document: &Option<Json>) -> (r: ResponseEnvelope)
    ensures
        r@ == malformed(document.deep_view()),
{
    let mut id: u64 = 0;
    let mut has_method = false;
    if let Some(document) = document {
        if let Some(value) = document.get("id") {
            if let Some(n) = value.as_u64() {
                id = n;
            }
        }
        has_method = document.get("method").is_some();
    }
    if has_method {
        ResponseEnvelope::failure(
            id,
            ErrorCode::UnknownMethod,
            "unknown or malformed method".to_owned(),
        )
    } else {
        ResponseEnvelope::failure(
            id,
            ErrorCode::BadRequest,
            "not a valid request envelope".to_owned(),
        )
    }
}

/// Refuse a line that is no request.
pub fn refuse_line(line: &[u8]) -> (r: ResponseEnvelope)
    ensures
        r@ == malformed(json_document(line@)),
{
    refuse_document(&parse_json(line))
}

// ---- requests -----------------------------------------------------------------------------

/// What becomes of a request that was read.
#[derive(Debug)]
pub enum Admission {
    /// It is answered at once.
    Answer(ResponseEnvelope),
    /// The connection subscribes to the topics; no topics means all.
    Subscribe {
        /// The topics, each once.
        topics: Vec<String>,
        /// The acknowledgement.
        response: ResponseEnvelope,
    },
    /// It goes to the state actor.
    Forward {
        /// The id to answer under.
        id: u64,
        /// The request.
        request: Request,
    },
}

/// The texts of a list, each where it first occurs.
pub open spec fn once_each(list: Seq<Seq<char>>) -> Seq<Seq<char>>
    decreases list.len(),
{
    if list.len() == 0 {
        seq![]
    } else {
        let before = once_each(list.drop_last());
        if before.contains(list.last()) {
            before
        } else {
            before.push(list.last())
        }
    }
}

fn listed(list: &Vec<String>, s: &str) -> (r: bool)
    ensures
        r == list.deep_view().contains(s@),
{
    let ghost views = list.deep_view();
    let mut i: usize = 0;
    while i < list.len()
        invariant
            i <= list.len(),
            views == list.deep_view(),
            forall|k: int| 0 <= k < i ==> #[trigger] views[k] != s@,
        decreases list.len() - i,
    {
        assert(views[i as int] == list@[i as int]@);
        if same(list[i].as_str(), s) {
            return true;
        }
        i = i + 1;
    }
    false
}

fn deduplicated(list: &Vec<String>) -> (r: Vec<String>)
    ensures
        r.deep_view() == once_each(list.deep_view()),
{
    let ghost views = list.deep_view();
    let mut out: Vec<String> = Vec::new();
    let mut i: usize = 0;
    assert(views.take(0) =~= seq![]);
    assert(out.deep_view() =~= seq![]);
    while i < list.len()
        invariant
            i <= list.len(),
            views == list.deep_view(),
            out.deep_view() == once_each(views.take(i as int)),
        decreases list.len() - i,
    {
        let ghost before = out.deep_view();
        assert(views.take(i + 1).drop_last() =~= views.take(i as int));
        assert(views[i as int] == list@[i as int]@);
        if !listed(&out, list[i].as_str()) {
            out.push(list[i].clone());
            assert(out.deep_view() =~= before.push(views[i as int]));
        }
        i = i + 1;
    }
    assert(views.take(i as int) =~= views);
    out
}

/// The topics that a subscription asks for, each once.
pub open spec fn subscribed_topics(topics: Option<Seq<Seq<char>>>) -> Seq<Seq<char>> {
    match topics {
        Some(topics) => once_each(topics),
        None => seq![],
    }
}

/// The message about a foreign protocol major.
pub open spec fn version_message(v: u32) -> Seq<char> {
    "protocol version "@ + decimal(v as nat) + " not supported (daemon speaks "@ + decimal(
        PROTOCOL_VERSION as nat,
    ) + ")"@
}

/// Decide what becomes of a request: a foreign protocol major is refused,
/// `subscribe` changes the connection, everything else goes to the actor.
pub fn sort_out(envelope: RequestEnvelope) -> (r: Admission)
    ensures
        if envelope.v != PROTOCOL_VERSION {
            r matches Admission::Answer(response) && response@ == failed(
                envelope.id,
                ErrorCode::UnsupportedVersion,
                version_message(envelope.v),
            )
        } else {
            match envelope.request@ {
                RequestView::Subscribe { topics } => r matches Admission::Subscribe {
                    topics: wanted,
                    response,
                } && wanted.deep_view() == subscribed_topics(topics) && response@ == succeeded(
                    envelope.id,
                    ReplyView::Subscribed(subscribed_topics(topics)),
                ),
                request => r matches Admission::Forward { id, request: forwarded } && id
                    == envelope.id && forwarded@ == request,
            }
        },
{
    if envelope.v != PROTOCOL_VERSION {
        let mut message = "protocol version ".to_owned();
        message.append(render(envelope.v as u64).as_str());
        message.append(" not supported (daemon speaks ");
        message.append(render(PROTOCOL_VERSION as u64).as_str());
        message.append(")");
        return Admission::Answer(
            ResponseEnvelope::failure(envelope.id, ErrorCode::UnsupportedVersion, message),
        );
    }
    match envelope.request {
        Request::Subscribe { topics } => {
            let wanted = match &topics {
                Some(topics) => deduplicated(topics),
                None => Vec::new(),
            };
            assert(wanted.deep_view() =~= subscribed_topics(topics.deep_view()));
            let echoed = wanted.clone();
            assert(echoed.deep_view() =~= wanted.deep_view());
            Admission::Subscribe {
                topics: wanted,
                response: ResponseEnvelope::success(envelope.id, Reply::Subscribed(echoed)),
            }
        },
        request => Admission::Forward { id: envelope.id, request },
    }
}

/// What came back from the state actor.
#[derive(Debug)]
pub enum ActorAnswer {
    /// It takes no more commands.
    ShuttingDown,
    /// It let the request go without an answer.
    Dropped,
    /// Its answer.
    Answered(Result<Reply, ErrorBody>),
}

/// The answer to a forwarded request.
pub fn respond(id: u64, answer: ActorAnswer) -> (r: ResponseEnvelope)
    ensures
        r@ == (match answer {
            ActorAnswer::ShuttingDown => failed(
                id,
                ErrorCode::Internal,
                "daemon is shutting down"@,
            ),
            ActorAnswer::Dropped => failed(
                id,
                ErrorCode::Internal,
                "actor dropped the request"@,
            ),
            ActorAnswer::Answered(Ok(reply)) => succeeded(id, reply@),
            ActorAnswer::Answered(Err(error)) => ResponseEnvelopeView {
                v: PROTOCOL_VERSION,
                id,
                outcome: Err(error@),
            },
        }),
{
    match answer {
        ActorAnswer::ShuttingDown => ResponseEnvelope::failure(
            id,
            ErrorCode::Internal,
            "daemon is shutting down".to_owned(),
        ),
        ActorAnswer::Dropped => ResponseEnvelope::failure(
            id,
            ErrorCode::Internal,
            "actor dropped the request".to_owned(),
        ),
        ActorAnswer::Answered(outcome) => ResponseEnvelope { v: PROTOCOL_VERSION, id, outcome },
    }
}

/// The answer to a request whose dispatches have been sent: what was promised,
/// or Hyprland's refusal.
pub fn conclude(result: Reply, dispatched: Result<(), HyprError>) -> (r: Result<Reply, ErrorBody>)
    ensures
        match (dispatched, r) {
            (Ok(()), Ok(reply)) => reply == result,
            (Err(error), Err(body)) => body@ == (ErrorBodyView {
                code: ErrorCode::Hyprland,
                message: error@.message(),
                candidates: None,
            }),
            _ => false,
        },
{
    match dispatched {
        Ok(()) => Ok(result),
        Err(error) => Err(ErrorBody::new(ErrorCode::Hyprland, error.message())),
    }
}

// ---- subscribers --------------------------------------------------------------------------

/// Whether a subscriber to topics gets an event: all events without topics,
/// else those of its topics.
pub open spec fn is_wanted(topics: Seq<Seq<char>>, event: DomainEventView) -> bool {
    topics.len() == 0 || topics.contains(topic_of(event))
}

/// Whether a subscriber gets an event.
pub fn wants(topics: &Vec<String>, event: &DomainEvent) -> (r: bool)
    ensures
        r == is_wanted(topics.deep_view(), event@),
{
    topics.len() == 0 || listed(topics, event.topic())
}

// ---- laws ---------------------------------------------------------------------------------

proof fn lemma_once_each(list: Seq<Seq<char>>)
    ensures
        forall|s: Seq<char>| #[trigger] once_each(list).contains(s) <==> list.contains(s),
        once_each(list).no_duplicates(),
    decreases list.len(),
{
    if list.len() > 0 {
        let front = list.drop_last();
        lemma_once_each(front);
        let before = once_each(front);
        let all = once_each(list);
        assert forall|s: Seq<char>| #[trigger] all.contains(s) <==> list.contains(s) by {
            if all.contains(s) {
                let k = choose|k: int| 0 <= k < all.len() && all[k] == s;
                if k < before.len() {
                    assert(before[k] == s);
                    assert(before.contains(s));
                    let m = choose|m: int| 0 <= m < front.len() && front[m] == s;
                    assert(list[m] == s);
                } else {
                    assert(list[list.len() - 1] == s);
                }
            }
            if list.contains(s) {
                let m = choose|m: int| 0 <= m < list.len() && list[m] == s;
                if m < front.len() {
                    assert(front[m] == s);
                    assert(before.contains(s));
                }
                if before.contains(s) {
                    let k = choose|k: int| 0 <= k < before.len() && before[k] == s;
                    assert(all[k] == s);
                } else {
                    assert(all[before.len() as int] == s);
                }
            }
        }
    }
}

/// A subscriber gets exactly the events of the topics it asked for, however
/// often it named them.
pub proof fn law_subscribers_get_their_topics(
    topics: Seq<Seq<char>>,
    event: DomainEventView,
)
    requires
        topics.len() > 0,
    ensures
        is_wanted(subscribed_topics(Some(topics)), event) <==> topics.contains(topic_of(event)),
        subscribed_topics(Some(topics)).no_duplicates(),
{
    lemma_once_each(topics);
    assert(topics.contains(topics[0]));
    assert(once_each(topics).contains(topics[0]));
}

/// A line that is no request is refused under the id that it bears, or 0 where
/// it bears none: as an unknown method if it names one, as no request otherwise.
pub proof fn law_refused_lines_are_answered(document: Option<JsonView>)
    ensures
        ({
            let answer = malformed(document);
            let method = document is Some && document->0.member("method"@) is Some;
            &&& answer.outcome is Err
            &&& method ==> answer.outcome->Err_0.code == ErrorCode::UnknownMethod
            &&& !method ==> answer.outcome->Err_0.code == ErrorCode::BadRequest
            &&& document is Some && document->0.member("id"@) is Some && document->0.member(
                "id"@,
            )->0.as_number() is Some ==> Some(answer.id) == document->0.member(
                "id"@,
            )->0.as_number()
            &&& document is None || document->0.member("id"@) is None ==> answer.id == 0
            &&& answer.v == PROTOCOL_VERSION
        }),
{
}

/// An answer bears the id that it was made for and the protocol's version, and
/// holds what it was made of.
pub proof fn law_answers_bear_their_id(
    id: u64,
    reply: ReplyView,
    code: ErrorCode,
    message: Seq<char>,
)
    ensures
        succeeded(id, reply).id == id,
        succeeded(id, reply).v == PROTOCOL_VERSION,
        succeeded(id, reply).outcome == Ok::<ReplyView, ErrorBodyView>(reply),
        failed(id, code, message).id == id,
        failed(id, code, message).v == PROTOCOL_VERSION,
        failed(id, code, message).outcome is Err,
        failed(id, code, message).outcome->Err_0.code == code,
        failed(id, code, message).outcome->Err_0.message == message,
        failed(id, code, message).outcome->Err_0.candidates is None,
{
}

/// A subscriber that names no topics gets every event; a subscription keeps
/// every topic that was named, and no other.
pub proof fn law_no_topics_means_all(
    event: DomainEventView,
    topics: Seq<Seq<char>>,
    topic: Seq<char>,
)
    ensures
        is_wanted(subscribed_topics(None), event),
        is_wanted(subscribed_topics(Some(seq![])), event),
        subscribed_topics(Some(topics)).contains(topic) <==> topics.contains(topic),
{
    lemma_once_each(topics);
}

} // verus!
