//! The server's part in one exchange: from the bytes of a request datagram
//! to the bytes of the response, by way of the lookups that the caller makes
//! upstream.
//!
//! The caller owns the socket and the resolver. For each datagram it calls
//! `handle_request`; while the step it gets back asks for a lookup, it makes
//! the lookup and calls `resume_request` with the reply; it sends what a
//! `Step::Send` holds and sends nothing on a `Step::Drop`.

use vstd::prelude::*;
use crate::codec::{decode, encode, DecodeError, EncodeError, MAX_UDP_PAYLOAD};
use crate::config::{ConfigError, DnsServerConfig};
use crate::message::{MessageView, QuestionView};
use crate::processor::{
    process_query, resume, resumed, started, Pending, PendingView, Progress, ProgressView,
};
use crate::upstream::{lemma_resolution_well_formed, ReplyView, UpstreamReply};
use crate::wire::{
    delivered, encodable, lemma_delivered, lemma_labels_wire_len, lemma_parsed_message,
    message_wire, parse_message, question_wire, questions_wire,
};

verus! {

/// Why a datagram gets no response.
#[derive(Clone, Copy, Debug, PartialEq, Eq)]
pub enum DropReason {
    /// The datagram is no message.
    Decode(DecodeError),
    /// The response could not be written.
    Encode(EncodeError),
}

/// What the caller has to do next for a datagram.
#[derive(Debug)]
pub enum Step {
    /// Make the lookup that the pending request names, and resume with the
    /// reply.
    Lookup(Pending),
    /// Send these bytes back to the client.
    Send(Vec<u8>),
    /// Send nothing.
    Drop(DropReason),
}

/// What a `Step` means.
pub enum StepView {
    Lookup(PendingView),
    Send(Seq<u8>),
    Drop(DropReason),
}

impl View for Step {
    type V = StepView;

    open spec fn view(&self) -> StepView {
        match self {
            Step::Lookup(pending) => StepView::Lookup(pending@),
            Step::Send(bytes) => StepView::Send(bytes@),
            Step::Drop(reason) => StepView::Drop(*reason),
        }
    }
}

/// The step that follows from where the processor stands: a lookup that it
/// asks for is passed on; a response is written into a datagram of at most
/// 512 bytes, or dropped where it cannot be written.
pub open spec fn concluded(progress: ProgressView) -> StepView {
    match progress {
        ProgressView::Lookup(pending) => StepView::Lookup(pending),
        ProgressView::Done(response) => if encodable(response, MAX_UDP_PAYLOAD as int) {
            StepView::Send(message_wire(delivered(response, MAX_UDP_PAYLOAD as int)))
        } else if response.well_formed() {
            StepView::Drop(DropReason::Encode(EncodeError::TooLarge))
        } else {
            StepView::Drop(DropReason::Encode(EncodeError::Unrepresentable))
        },
    }
}

/// The step that a datagram leads to: dropped where it is no message, and
/// otherwise what the first step of the processor on the message leads to.
pub open spec fn received(datagram: Seq<u8>) -> StepView {
    match parse_message(datagram) {
        Some(request) => concluded(started(request)),
        None => StepView::Drop(DropReason::Decode(DecodeError::Malformed)),
    }
}

/// A DNS forwarding server, as far as it decides: its settings, and the
/// steps it takes for a datagram.
#[derive(Debug)]
pub struct DnsServer {
    config: DnsServerConfig,
}

impl DnsServer {
    /// The settings that the server was made with.
    pub closed spec fn settings(self) -> DnsServerConfig {
        self.config
    }

    /// A server always has an upstream server to ask.
    #[verifier::type_invariant]
    spec fn has_upstream(self) -> bool {
        self.config.upstream_servers@.len() > 0
    }

    /// Makes a server that runs on `config`, which must name at least one
    /// upstream server.
    pub fn new(config: DnsServerConfig) -> (outcome: Result<DnsServer, ConfigError>)
        ensures
            match outcome {
                Ok(server) => server.settings() == config && config.upstream_servers@.len() > 0,
                Err(error) => error == ConfigError::NoUpstreamServers
                    && config.upstream_servers@.len() == 0,
            },
    {
        if config.upstream_servers.len() == 0 {
            return Err(ConfigError::NoUpstreamServers);
        }
        Ok(DnsServer { config })
    }

    /// The settings that the server runs on.
    pub fn config(&self) -> (config: &DnsServerConfig)
        ensures
            *config == self.settings(),
            config.upstream_servers@.len() > 0,
    {
        proof {
            use_type_invariant(self);
        }
        &self.config
    }

    /// Passes a lookup on and writes a response into a datagram.
    fn conclude(progress: Progress) -> (step: Step)
        ensures
            step@ == concluded(progress@),
    {
        match progress {
            Progress::Lookup(pending) => Step::Lookup(pending),
            Progress::Done(response) => match encode(&response) {
                Ok(bytes) => Step::Send(bytes),
                Err(error) => Step::Drop(DropReason::Encode(error)),
            },
        }
    }

    /// Takes up a datagram from a client.
    pub fn handle_request(&self, datagram: &[u8]) -> (step: Step)
        ensures
            step@ == received(datagram@),
    {
        match decode(datagram) {
            Ok(request) => Self::conclude(process_query(request)),
            Err(error) => Step::Drop(DropReason::Decode(error)),
        }
    }

    /// Goes on with a request on the reply to the lookup it waited for.
    pub fn resume_request(&self, pending: Pending, reply: UpstreamReply) -> (step: Step)
        ensures
            step@ == concluded(resumed(self.settings().filter_ipv6, pending@, reply@)),
    {
        Self::conclude(resume(self.config.filter_ipv6, pending, reply))
    }
}

/// One well-formed question takes at most 259 bytes.
proof fn lemma_single_question_fits(question: QuestionView)
    requires
        question.well_formed(),
    ensures
        questions_wire(seq![question]).len() <= 259,
{
    let one = seq![question];
    assert(one.drop_first() =~= Seq::<QuestionView>::empty());
    assert(questions_wire(one.drop_first()) =~= Seq::<u8>::empty());
    assert(questions_wire(one) =~= question_wire(question));
    lemma_labels_wire_len(question.name);
}

/// A well-formed request is either answered at once with a response that
/// can be sent, or waits well formed for a lookup.
pub proof fn lemma_started_can_be_sent(request: MessageView)
    requires
        request.well_formed(),
    ensures
        match started(request) {
            ProgressView::Lookup(pending) => pending.well_formed(),
            ProgressView::Done(response) => encodable(response, MAX_UDP_PAYLOAD as int),
        },
{
    if request.questions.len() == 0 {
        assert(questions_wire(Seq::<QuestionView>::empty()).len() == 0);
    } else {
        lemma_single_question_fits(request.questions[0]);
        if let ProgressView::Done(response) = started(request) {
            assert(response.questions[0] == request.questions[0]);
            assert(response.well_formed());
        }
    }
}

/// A request that waits well formed, resumed on a well-formed reply, is
/// either answered with a response that can be sent, or waits well formed
/// for its second lookup.
pub proof fn lemma_resumed_can_be_sent(filter_ipv6: bool, pending: PendingView, reply: ReplyView)
    requires
        pending.well_formed(),
        reply.well_formed(),
    ensures
        match resumed(filter_ipv6, pending, reply) {
            ProgressView::Lookup(next) => next.well_formed(),
            ProgressView::Done(response) => encodable(response, MAX_UDP_PAYLOAD as int),
        },
{
    lemma_single_question_fits(pending.question);
    lemma_resolution_well_formed(pending.question.name, pending.question.record_type, reply);
    if let ProgressView::Done(response) = resumed(filter_ipv6, pending, reply) {
        assert(response.questions[0] == pending.question);
        assert(response.well_formed());
    }
}

/// A datagram is dropped only where it is no message: every message gets a
/// response or a lookup, and a request that waits for a lookup is well
/// formed.
pub proof fn lemma_received_message_is_served(datagram: Seq<u8>)
    ensures
        match received(datagram) {
            StepView::Lookup(pending) => pending.well_formed(),
            StepView::Send(bytes) => bytes.len() <= MAX_UDP_PAYLOAD,
            StepView::Drop(reason) => parse_message(datagram) is None && reason
                == DropReason::Decode(DecodeError::Malformed),
        },
{
    lemma_parsed_message(datagram);
    if let Some(request) = parse_message(datagram) {
        lemma_started_can_be_sent(request);
        if let ProgressView::Done(response) = started(request) {
            lemma_delivered(response, MAX_UDP_PAYLOAD as int);
        }
    }
}

/// A request that waits well formed always gets a response, or its second
/// lookup, on a well-formed reply: nothing is dropped.
pub proof fn lemma_resumed_request_is_served(
    filter_ipv6: bool,
    pending: PendingView,
    reply: ReplyView,
)
    requires
        pending.well_formed(),
        reply.well_formed(),
    ensures
        match concluded(resumed(filter_ipv6, pending, reply)) {
            StepView::Lookup(next) => next.well_formed(),
            StepView::Send(bytes) => bytes.len() <= MAX_UDP_PAYLOAD,
            StepView::Drop(_) => false,
        },
{
    lemma_resumed_can_be_sent(filter_ipv6, pending, reply);
    if let ProgressView::Done(response) = resumed(filter_ipv6, pending, reply) {
        lemma_delivered(response, MAX_UDP_PAYLOAD as int);
    }
}

} // verus!
