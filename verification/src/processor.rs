//! The query processor: from a request to its response, by way of the
//! lookups that the caller makes upstream.
//!
//! One request takes at most two lookups. `process_query` either answers at
//! once or asks for the first; `resume` takes the reply to a lookup and
//! either answers or asks for the second, the one that the dual-stack
//! filter decides on.
//!
//! A lookup is made under the text that `trust-dns` writes the name as.
//! `process_query` asks it for that text and leaves the rest to `begin`,
//! which takes the text as an argument.

use vstd::prelude::*;
use crate::filter::{filter_records, filtered, needs_secondary, needs_secondary_lookup};
use crate::message::{
    questions_of, records_of, DnsMessage, MessageView, OpCode, Question, QuestionView, RecordType,
    RecordView, ResourceRecord, ResponseCode,
};
use crate::name::DomainName;
use crate::upstream::{
    lookup_for, lookup_kind, name_as_text, name_text, resolution, resolve_query, text_of,
    LookupKind, ReplyView, UpstreamReply,
};

verus! {

/// The lookup that a request waits for.
#[derive(Debug)]
enum Stage {
    /// The lookup that answers the question.
    Primary,
    /// The lookup of the name's IPv4 addresses, made for the filter; the
    /// answers to the question are kept meanwhile.
    Secondary(Vec<ResourceRecord>),
}

/// The lookup that a request waits for, as a `PendingView` holds it.
pub enum StageView {
    /// The lookup that answers the question.
    Primary,
    /// The lookup of the name's IPv4 addresses, with the answers to the
    /// question that are kept meanwhile.
    Secondary(Seq<RecordView>),
}

impl View for Stage {
    type V = StageView;

    closed spec fn view(&self) -> StageView {
        match self {
            Stage::Primary => StageView::Primary,
            Stage::Secondary(answers) => StageView::Secondary(records_of(answers@)),
        }
    }
}

/// A request that waits for a lookup: what its response will echo, and the
/// stage it has come to.
#[derive(Debug)]
pub struct Pending {
    transaction_id: u16,
    recursion_desired: bool,
    question: Question,
    name_text: String,
    stage: Stage,
}

/// What a `Pending` means.
pub struct PendingView {
    pub transaction_id: u16,
    pub recursion_desired: bool,
    /// The first question of the request, the only one that is answered.
    pub question: QuestionView,
    /// The name of the question as the text under which it is looked up.
    pub name_text: Seq<char>,
    pub stage: StageView,
}

impl PendingView {
    /// The question is well formed, and so are the answers that are kept,
    /// which a response can carry.
    pub open spec fn well_formed(self) -> bool {
        &&& self.question.well_formed()
        &&& self.stage matches StageView::Secondary(answers) ==> answers.len() <= 65535
            && forall|i: int| 0 <= i < answers.len() ==> (#[trigger] answers[i]).well_formed()
    }

    /// The lookup that the request waits for.
    pub open spec fn lookup(self) -> LookupKind {
        match self.stage {
            StageView::Primary => lookup_kind(self.question.record_type),
            StageView::Secondary(_) => LookupKind::Ipv4,
        }
    }
}

impl View for Pending {
    type V = PendingView;

    closed spec fn view(&self) -> PendingView {
        PendingView {
            transaction_id: self.transaction_id,
            recursion_desired: self.recursion_desired,
            question: self.question@,
            name_text: self.name_text@,
            stage: self.stage@,
        }
    }
}

impl Pending {
    /// The name to look up, by its labels.
    pub fn name(&self) -> (name: &DomainName)
        ensures
            name@ == self@.question.name,
    {
        &self.question.name
    }

    /// The name to look up, as the text that the resolver takes.
    pub fn name_text(&self) -> (text: &str)
        ensures
            text@ == self@.name_text,
    {
        self.name_text.as_str()
    }

    /// The kind of lookup to make for that name.
    pub fn lookup(&self) -> (kind: LookupKind)
        ensures
            kind == self@.lookup(),
    {
        match &self.stage {
            Stage::Primary => lookup_for(self.question.record_type),
            Stage::Secondary(_) => LookupKind::Ipv4,
        }
    }
}

/// Where a request stands after a step of the processor.
#[derive(Debug)]
pub enum Progress {
    /// A lookup is wanted; its reply goes to `resume`.
    Lookup(Pending),
    /// The response is ready.
    Done(DnsMessage),
}

/// What a `Progress` means.
pub enum ProgressView {
    Lookup(PendingView),
    Done(MessageView),
}

impl View for Progress {
    type V = ProgressView;

    open spec fn view(&self) -> ProgressView {
        match self {
            Progress::Lookup(pending) => ProgressView::Lookup(pending@),
            Progress::Done(response) => ProgressView::Done(response@),
        }
    }
}

/// A response of this server: a standard query response that echoes the
/// transaction and its wish for recursion, and offers recursion.
pub open spec fn response(
    transaction_id: u16,
    recursion_desired: bool,
    response_code: ResponseCode,
    questions: Seq<QuestionView>,
    answers: Seq<RecordView>,
) -> MessageView {
    MessageView {
        transaction_id,
        is_response: true,
        opcode: OpCode::Query,
        truncated: false,
        recursion_desired,
        recursion_available: true,
        response_code,
        questions,
        answers,
    }
}

/// The response to a request without a question.
pub open spec fn form_error_response(request: MessageView) -> MessageView {
    response(
        request.transaction_id,
        request.recursion_desired,
        ResponseCode::FormErr,
        Seq::empty(),
        Seq::empty(),
    )
}

/// The response to a request whose question could not be resolved.
pub open spec fn serv_fail_response(pending: PendingView) -> MessageView {
    response(
        pending.transaction_id,
        pending.recursion_desired,
        ResponseCode::ServFail,
        seq![pending.question],
        Seq::empty(),
    )
}

/// The response to a request whose first question has a name that cannot
/// be asked upstream: a server failure, as for any question that could not
/// be resolved.
pub open spec fn unaskable_response(request: MessageView) -> MessageView {
    response(
        request.transaction_id,
        request.recursion_desired,
        ResponseCode::ServFail,
        seq![request.questions[0]],
        Seq::empty(),
    )
}

/// The response that carries `answers` to the question.
pub open spec fn answer_response(pending: PendingView, answers: Seq<RecordView>) -> MessageView {
    response(
        pending.transaction_id,
        pending.recursion_desired,
        ResponseCode::NoError,
        seq![pending.question],
        answers,
    )
}

/// The request as it waits for its first lookup, which is made under
/// `name_text`.
pub open spec fn first_pending(request: MessageView, name_text: Seq<char>) -> PendingView {
    PendingView {
        transaction_id: request.transaction_id,
        recursion_desired: request.recursion_desired,
        question: request.questions[0],
        name_text,
        stage: StageView::Primary,
    }
}

/// The first step, given the text of the first question's name: a request
/// without a question is answered with a format error; one whose name has
/// no text is answered with a server failure; any other waits for the
/// lookup of its first question.
pub open spec fn begun(request: MessageView, name_text: Option<Seq<char>>) -> ProgressView {
    if request.questions.len() == 0 {
        ProgressView::Done(form_error_response(request))
    } else {
        match name_text {
            Some(text) => ProgressView::Lookup(first_pending(request, text)),
            None => ProgressView::Done(unaskable_response(request)),
        }
    }
}

/// The first step, with the text that `trust-dns` writes the name of the
/// first question as.
pub open spec fn started(request: MessageView) -> ProgressView {
    begun(request, name_text(request.questions[0].name))
}

/// A later step, on the reply to the lookup that `pending` waited for.
///
/// After the first lookup: a failure is answered with a server failure;
/// answers that the filter has to judge wait for the second lookup; other
/// answers are sent as they are. After the second lookup the answers go out
/// as the filter leaves them, a failure of that lookup counting as a name
/// without an IPv4 address.
pub open spec fn resumed(filter_ipv6: bool, pending: PendingView, reply: ReplyView) -> ProgressView {
    match pending.stage {
        StageView::Primary => match resolution(
            pending.question.name,
            pending.question.record_type,
            reply,
        ) {
            Err(_) => ProgressView::Done(serv_fail_response(pending)),
            Ok(answers) => if needs_secondary(filter_ipv6, answers) {
                ProgressView::Lookup(
                    PendingView { stage: StageView::Secondary(answers), ..pending },
                )
            } else {
                ProgressView::Done(answer_response(pending, answers))
            },
        },
        StageView::Secondary(answers) => ProgressView::Done(
            answer_response(
                pending,
                filtered(
                    filter_ipv6,
                    answers,
                    resolution(pending.question.name, RecordType::A, reply),
                ),
            ),
        ),
    }
}

/// The response to `request`, given what the upstream resolvers reply to the
/// lookup for its question (`primary`) and to the lookup of the name's IPv4
/// addresses (`secondary`). A reply that is never asked for has no part in
/// it. A name that cannot be asked upstream counts as one that could not be
/// resolved.
pub open spec fn response_to(
    filter_ipv6: bool,
    request: MessageView,
    primary: ReplyView,
    secondary: ReplyView,
) -> MessageView {
    if request.questions.len() == 0 {
        form_error_response(request)
    } else {
        let question = request.questions[0];
        match name_text(question.name) {
            None => unaskable_response(request),
            Some(text) => {
                let pending = first_pending(request, text);
                match resolution(question.name, question.record_type, primary) {
                    Err(_) => serv_fail_response(pending),
                    Ok(answers) => answer_response(
                        pending,
                        filtered(
                            filter_ipv6,
                            answers,
                            resolution(question.name, RecordType::A, secondary),
                        ),
                    ),
                }
            },
        }
    }
}

/// The response that the steps of the processor arrive at when the lookups
/// they ask for are replied to with `primary`, then `secondary`.
pub open spec fn run(
    filter_ipv6: bool,
    request: MessageView,
    primary: ReplyView,
    secondary: ReplyView,
) -> Option<MessageView> {
    match started(request) {
        ProgressView::Done(response) => Some(response),
        ProgressView::Lookup(first) => match resumed(filter_ipv6, first, primary) {
            ProgressView::Done(response) => Some(response),
            ProgressView::Lookup(second) => match resumed(filter_ipv6, second, secondary) {
                ProgressView::Done(response) => Some(response),
                ProgressView::Lookup(_) => None,
            },
        },
    }
}

/// Builds a response of this server.
fn build_response(
    transaction_id: u16,
    recursion_desired: bool,
    response_code: ResponseCode,
    questions: Vec<Question>,
    answers: Vec<ResourceRecord>,
) -> (message: DnsMessage)
    ensures
        message@ == response(
            transaction_id,
            recursion_desired,
            response_code,
            questions_of(questions@),
            records_of(answers@),
        ),
{
    DnsMessage {
        transaction_id,
        is_response: true,
        opcode: OpCode::Query,
        truncated: false,
        recursion_desired,
        recursion_available: true,
        response_code,
        questions,
        answers,
    }
}

/// The question section of a response: the one question that is answered.
fn single_question(question: Question) -> (questions: Vec<Question>)
    ensures
        questions_of(questions@) == seq![question@],
{
    let mut questions: Vec<Question> = Vec::new();
    questions.push(question);
    assert(questions_of(questions@) =~= seq![question@]);
    questions
}

/// An empty answer section.
fn no_records() -> (records: Vec<ResourceRecord>)
    ensures
        records_of(records@) == Seq::<RecordView>::empty(),
{
    let records: Vec<ResourceRecord> = Vec::new();
    assert(records_of(records@) =~= Seq::<RecordView>::empty());
    records
}

/// Takes up a request, given the text under which the name of its first
/// question is looked up, or none where the name has no such text: answers
/// it at once where it holds no question or the name has no text, and
/// otherwise asks for the lookup of its first question.
pub fn begin(request: DnsMessage, name_text: Option<String>) -> (progress: Progress)
    ensures
        progress@ == begun(request@, text_of(name_text)),
{
    let mut questions = request.questions;
    if questions.len() == 0 {
        let questions: Vec<Question> = Vec::new();
        assert(questions_of(questions@) =~= Seq::<QuestionView>::empty());
        return Progress::Done(
            build_response(
                request.transaction_id,
                request.recursion_desired,
                ResponseCode::FormErr,
                questions,
                no_records(),
            ),
        );
    }
    let question = questions.swap_remove(0);
    match name_text {
        Some(name_text) => Progress::Lookup(
            Pending {
                transaction_id: request.transaction_id,
                recursion_desired: request.recursion_desired,
                question,
                name_text,
                stage: Stage::Primary,
            },
        ),
        None => Progress::Done(
            build_response(
                request.transaction_id,
                request.recursion_desired,
                ResponseCode::ServFail,
                single_question(question),
                no_records(),
            ),
        ),
    }
}

/// Takes up a request: asks `trust-dns` for the text of the first question's
/// name, and begins with it.
pub fn process_query(request: DnsMessage) -> (progress: Progress)
    ensures
        progress@ == started(request@),
{
    if request.questions.len() == 0 {
        begin(request, None)
    } else {
        let name_text = name_as_text(&request.questions[0].name);
        begin(request, name_text)
    }
}

/// Goes on with a request on the reply to the lookup it waited for.
pub fn resume(filter_ipv6: bool, pending: Pending, reply: UpstreamReply) -> (progress: Progress)
    ensures
        progress@ == resumed(filter_ipv6, pending@, reply@),
{
    let Pending { transaction_id, recursion_desired, question, name_text, stage } = pending;
    match stage {
        Stage::Primary => {
            match resolve_query(&question.name, question.record_type, reply) {
                Err(_) => Progress::Done(
                    build_response(
                        transaction_id,
                        recursion_desired,
                        ResponseCode::ServFail,
                        single_question(question),
                        no_records(),
                    ),
                ),
                Ok(answers) => {
                    if needs_secondary_lookup(filter_ipv6, &answers) {
                        Progress::Lookup(
                            Pending {
                                transaction_id,
                                recursion_desired,
                                question,
                                name_text,
                                stage: Stage::Secondary(answers),
                            },
                        )
                    } else {
                        Progress::Done(
                            build_response(
                                transaction_id,
                                recursion_desired,
                                ResponseCode::NoError,
                                single_question(question),
                                answers,
                            ),
                        )
                    }
                },
            }
        },
        Stage::Secondary(answers) => {
            let secondary = resolve_query(&question.name, RecordType::A, reply);
            let kept = filter_records(filter_ipv6, answers, &secondary);
            Progress::Done(
                build_response(
                    transaction_id,
                    recursion_desired,
                    ResponseCode::NoError,
                    single_question(question),
                    kept,
                ),
            )
        },
    }
}

/// The steps arrive at a response after two lookups at most, and it is the
/// one that `response_to` describes.
pub proof fn lemma_run_gives_response(
    filter_ipv6: bool,
    request: MessageView,
    primary: ReplyView,
    secondary: ReplyView,
)
    ensures
        run(filter_ipv6, request, primary, secondary) == Some(
            response_to(filter_ipv6, request, primary, secondary),
        ),
{
}

/// A request without a question gets a format error and no answers.
pub proof fn lemma_empty_question_section(
    filter_ipv6: bool,
    request: MessageView,
    primary: ReplyView,
    secondary: ReplyView,
)
    requires
        request.questions.len() == 0,
    ensures
        response_to(filter_ipv6, request, primary, secondary).response_code
            == ResponseCode::FormErr,
        response_to(filter_ipv6, request, primary, secondary).answers.len() == 0,
{
}

/// A request whose question is not resolved, be it that no upstream
/// resolves it or that its name cannot be asked upstream, gets a server
/// failure and no answers.
pub proof fn lemma_failed_resolution(
    filter_ipv6: bool,
    request: MessageView,
    primary: ReplyView,
    secondary: ReplyView,
)
    requires
        request.questions.len() > 0,
        name_text(request.questions[0].name) is None || resolution(
            request.questions[0].name,
            request.questions[0].record_type,
            primary,
        ) is Err,
    ensures
        response_to(filter_ipv6, request, primary, secondary).response_code
            == ResponseCode::ServFail,
        response_to(filter_ipv6, request, primary, secondary).answers.len() == 0,
{
}

/// Every response carries the transaction id of its request, is a response
/// to a standard query, and echoes the first question where there is one.
pub proof fn lemma_response_echoes_request(
    filter_ipv6: bool,
    request: MessageView,
    primary: ReplyView,
    secondary: ReplyView,
)
    ensures
        response_to(filter_ipv6, request, primary, secondary).transaction_id
            == request.transaction_id,
        response_to(filter_ipv6, request, primary, secondary).recursion_desired
            == request.recursion_desired,
        response_to(filter_ipv6, request, primary, secondary).is_response,
        response_to(filter_ipv6, request, primary, secondary).opcode == OpCode::Query,
        response_to(filter_ipv6, request, primary, secondary).recursion_available,
        request.questions.len() > 0 ==> response_to(
            filter_ipv6,
            request,
            primary,
            secondary,
        ).questions == seq![request.questions[0]],
{
}

} // verus!
