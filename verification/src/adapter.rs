//! The debug adapter: which messages each request is answered with.

use dap::requests::{
    DisconnectArguments, LaunchRequestArguments, NextArguments, ScopesArguments,
    SetBreakpointsArguments, SetExceptionBreakpointsArguments, StackTraceArguments,
    StepBackArguments, VariablesArguments,
};
use vstd::prelude::*;

use crate::protocol::{
    event_messages, message_models, BodyModel, Capabilities, Command, Event, Message, MessageModel,
    Request, Response, ResponseBody, ScopesResponse, SetBreakpointsResponse,
    SetExceptionBreakpointsResponse, StackTraceResponse, ThreadsResponse, VariablesResponse,
};

verus! {

/// A call of a service.
pub enum Call {
    Launch(LaunchRequestArguments),
    Threads,
    Disconnect(DisconnectArguments),
    Scopes(ScopesArguments),
    StackTrace(StackTraceArguments),
    Variables(VariablesArguments),
    Next(NextArguments),
    StepBack(StepBackArguments),
    SetBreakpoints(SetBreakpointsArguments),
    SetExceptionBreakpoints(SetExceptionBreakpointsArguments),
}

/// Whether an answer is of the kind that a call gets: that of the call itself, or none at all for a
/// launch, a step and a disconnection.
pub open spec fn answer_fits(call: Call, answer: Option<BodyModel>) -> bool {
    match call {
        Call::Launch(_) | Call::Disconnect(_) | Call::Next(_) | Call::StepBack(_) => answer is None,
        Call::Threads => answer is Some && answer->Some_0 is Threads,
        Call::Scopes(_) => answer is Some && answer->Some_0 is Scopes,
        Call::StackTrace(_) => answer is Some && answer->Some_0 is StackTrace,
        Call::Variables(_) => answer is Some && answer->Some_0 is Variables,
        Call::SetBreakpoints(_) => answer is Some && answer->Some_0 is SetBreakpoints,
        Call::SetExceptionBreakpoints(_) => answer is Some
            && answer->Some_0 is SetExceptionBreakpoints,
    }
}

/// What a service does for the requests of a client.
pub trait Service: Sized {
    /// What a service remembers from one call to the next.
    type State;

    /// What the service remembers.
    spec fn state(&self) -> Self::State;

    /// What a service may remember.
    spec fn valid(state: Self::State) -> bool;

    /// What the service remembers after a call, and what it answers, where it answers at all.
    spec fn answered(state: Self::State, call: Call) -> (Self::State, Option<BodyModel>);

    /// The events that the service has sent and nobody has taken yet, oldest first.
    spec fn pending(state: Self::State) -> Seq<Event>;

    /// What the service remembers once its events have been taken.
    spec fn drained(state: Self::State) -> Self::State;

    /// A call leaves something that a service may remember, and gets an answer of its kind.
    proof fn lemma_answered(state: Self::State, call: Call)
        requires
            Self::valid(state),
        ensures
            Self::valid(Self::answered(state, call).0),
            answer_fits(call, Self::answered(state, call).1),
    ;

    /// Once the events have been taken, none is left.
    proof fn lemma_drained(state: Self::State)
        requires
            Self::valid(state),
        ensures
            Self::valid(Self::drained(state)),
            Self::pending(Self::drained(state)).len() == 0,
    ;

    fn launch(&mut self, body: LaunchRequestArguments)
        requires
            Self::valid(old(self).state()),
        ensures
            Self::valid(final(self).state()),
            (final(self).state(), None::<BodyModel>) == Self::answered(
                old(self).state(),
                Call::Launch(body),
            ),
    ;

    fn threads(&mut self) -> (r: ThreadsResponse)
        requires
            Self::valid(old(self).state()),
        ensures
            Self::valid(final(self).state()),
            (final(self).state(), Some(ResponseBody::Threads(r)@)) == Self::answered(
                old(self).state(),
                Call::Threads,
            ),
    ;

    fn disconnect(&mut self, body: DisconnectArguments)
        requires
            Self::valid(old(self).state()),
        ensures
            Self::valid(final(self).state()),
            (final(self).state(), None::<BodyModel>) == Self::answered(
                old(self).state(),
                Call::Disconnect(body),
            ),
    ;

    fn scopes(&mut self, body: ScopesArguments) -> (r: ScopesResponse)
        requires
            Self::valid(old(self).state()),
        ensures
            Self::valid(final(self).state()),
            (final(self).state(), Some(ResponseBody::Scopes(r)@)) == Self::answered(
                old(self).state(),
                Call::Scopes(body),
            ),
    ;

    fn stack_trace(&mut self, body: StackTraceArguments) -> (r: StackTraceResponse)
        requires
            Self::valid(old(self).state()),
        ensures
            Self::valid(final(self).state()),
            (final(self).state(), Some(ResponseBody::StackTrace(r)@)) == Self::answered(
                old(self).state(),
                Call::StackTrace(body),
            ),
    ;

    fn variables(&mut self, body: VariablesArguments) -> (r: VariablesResponse)
        requires
            Self::valid(old(self).state()),
        ensures
            Self::valid(final(self).state()),
            (final(self).state(), Some(ResponseBody::Variables(r)@)) == Self::answered(
                old(self).state(),
                Call::Variables(body),
            ),
    ;

    fn next(&mut self, body: NextArguments)
        requires
            Self::valid(old(self).state()),
        ensures
            Self::valid(final(self).state()),
            (final(self).state(), None::<BodyModel>) == Self::answered(
                old(self).state(),
                Call::Next(body),
            ),
    ;

    fn step_back(&mut self, body: StepBackArguments)
        requires
            Self::valid(old(self).state()),
        ensures
            Self::valid(final(self).state()),
            (final(self).state(), None::<BodyModel>) == Self::answered(
                old(self).state(),
                Call::StepBack(body),
            ),
    ;

    fn set_breakpoints(&mut self, breakpoints: SetBreakpointsArguments) -> (r:
        SetBreakpointsResponse)
        requires
            Self::valid(old(self).state()),
        ensures
            Self::valid(final(self).state()),
            (final(self).state(), Some(ResponseBody::SetBreakpoints(r)@)) == Self::answered(
                old(self).state(),
                Call::SetBreakpoints(breakpoints),
            ),
    ;

    fn set_exception_breakpoints(&mut self, breakpoints: SetExceptionBreakpointsArguments) -> (r:
        SetExceptionBreakpointsResponse)
        requires
            Self::valid(old(self).state()),
        ensures
            Self::valid(final(self).state()),
            (final(self).state(), Some(ResponseBody::SetExceptionBreakpoints(r)@))
                == Self::answered(old(self).state(), Call::SetExceptionBreakpoints(breakpoints)),
    ;

    /// Takes the events that the service has sent; none is left.
    fn take_events(&mut self) -> (r: Vec<Event>)
        requires
            Self::valid(old(self).state()),
        ensures
            Self::valid(final(self).state()),
            r@ == Self::pending(old(self).state()),
            final(self).state() == Self::drained(old(self).state()),
            Self::pending(final(self).state()).len() == 0,
    ;
}

/// The client as a service sees it: it sends events to it.
#[derive(Debug)]
pub struct Client {
    sent: Vec<Event>,
}

impl Client {
    /// The events that have been sent and not been taken, oldest first.
    pub closed spec fn sent(self) -> Seq<Event> {
        self.sent@
    }

    pub fn new() -> (r: Client)
        ensures
            r.sent() == Seq::<Event>::empty(),
    {
        Client { sent: Vec::new() }
    }

    /// Sends an event behind those that were sent before.
    pub fn send_event(&mut self, event: Event)
        ensures
            final(self).sent() == old(self).sent().push(event),
    {
        self.sent.push(event);
    }

    /// Takes what was sent.
    pub fn take_events(&mut self) -> (r: Vec<Event>)
        ensures
            r@ == old(self).sent(),
            final(self).sent() == Seq::<Event>::empty(),
    {
        let mut events: Vec<Event> = Vec::new();
        std::mem::swap(&mut events, &mut self.sent);
        events
    }
}

/// How far a session has come.
#[derive(Clone, Copy, Debug, PartialEq, Eq, Structural)]
pub enum Phase {
    /// The first request is awaited, which must be `initialize`.
    Starting,
    Running,
    Finished,
}

/// What was received when a request was awaited.
#[derive(Debug)]
pub enum Polled {
    Request(Request),
    /// The client sends no more requests.
    Closed,
    /// The request could not be read.
    Failed,
}

/// Serves the requests of one session.
pub struct Server<T: Service> {
    service: T,
    phase: Phase,
}

/// A session: what the service remembers, and how far the session has come.
pub struct Session<S> {
    pub state: S,
    pub phase: Phase,
}

/// What the service is asked to do for a command.
pub open spec fn call_of(command: Command) -> Option<Call> {
    match command {
        Command::Launch(body) => Some(Call::Launch(body)),
        Command::SetBreakpoints(body) => Some(Call::SetBreakpoints(body)),
        Command::SetExceptionBreakpoints(body) => Some(Call::SetExceptionBreakpoints(body)),
        Command::Disconnect(body) => Some(Call::Disconnect(body)),
        Command::Threads => Some(Call::Threads),
        Command::StepBack(body) => Some(Call::StepBack(body)),
        Command::Next(body) => Some(Call::Next(body)),
        Command::Scopes(body) => Some(Call::Scopes(body)),
        Command::Variables(body) => Some(Call::Variables(body)),
        Command::StackTrace(body) => Some(Call::StackTrace(body)),
        Command::Initialize | Command::Untracked => None,
    }
}

/// The responses to a request for which the service gave `answer`: a launch is confirmed, a step
/// and a disconnection are not, and a request that is not handled is not answered.
pub open spec fn responses(request: Request, answer: Option<BodyModel>) -> Seq<MessageModel> {
    match (request.command, answer) {
        (Command::Launch(_), _) => seq![MessageModel::Response(request.seq, BodyModel::Launch)],
        (_, Some(body)) => seq![MessageModel::Response(request.seq, body)],
        (_, None) => Seq::empty(),
    }
}

/// The answer to the first request, which tells that steps back are supported.
pub open spec fn greeting(seq: i64) -> Seq<MessageModel> {
    seq![
        MessageModel::Response(
            seq,
            BodyModel::Initialize(Capabilities { supports_step_back: Some(true) }),
        ),
        MessageModel::Event(Event::Initialized),
    ]
}

/// The session after what was received, and the messages that are sent. While the session goes on,
/// the events that the service has sent follow the response.
pub open spec fn served<T: Service>(session: Session<T::State>, polled: Polled) -> (
    Session<T::State>,
    Seq<MessageModel>,
) {
    match (session.phase, polled) {
        (Phase::Starting, Polled::Request(request)) if request.command is Initialize => (
            Session { state: T::drained(session.state), phase: Phase::Running },
            greeting(request.seq) + event_messages(T::pending(session.state)),
        ),
        (Phase::Running, Polled::Request(request)) => match call_of(request.command) {
            None => (
                Session { state: T::drained(session.state), phase: Phase::Running },
                event_messages(T::pending(session.state)),
            ),
            Some(call) => {
                let (state, answer) = T::answered(session.state, call);
                if request.command is Disconnect {
                    (Session { state, phase: Phase::Finished }, Seq::empty())
                } else {
                    (
                        Session { state: T::drained(state), phase: Phase::Running },
                        responses(request, answer) + event_messages(T::pending(state)),
                    )
                }
            },
        },
        _ => (Session { state: session.state, phase: Phase::Finished }, Seq::empty()),
    }
}

/// Whether the messages are right in kind for a request of a running session: those that ask for
/// something get one response, with what they ask for, and a launch is confirmed; a step, a
/// disconnection and a request that is not handled get none. All other messages are events.
pub open spec fn answers_in_kind(request: Request, messages: Seq<MessageModel>) -> bool {
    let body = response_to(request, messages);
    &&& match request.command {
        Command::Launch(_) => body is Some && body->Some_0 is Launch,
        Command::SetBreakpoints(_) => body is Some && body->Some_0 is SetBreakpoints,
        Command::SetExceptionBreakpoints(_) => body is Some
            && body->Some_0 is SetExceptionBreakpoints,
        Command::Threads => body is Some && body->Some_0 is Threads,
        Command::Scopes(_) => body is Some && body->Some_0 is Scopes,
        Command::Variables(_) => body is Some && body->Some_0 is Variables,
        Command::StackTrace(_) => body is Some && body->Some_0 is StackTrace,
        Command::Disconnect(_)
        | Command::StepBack(_)
        | Command::Next(_)
        | Command::Initialize
        | Command::Untracked => body is None,
    }
    &&& forall|i: int|
        (if body is Some { 1int } else { 0int }) <= i < messages.len() ==> (#[trigger] messages[i]) is Event
}

/// What the first message answers to the request, where it is a response to it.
pub open spec fn response_to(request: Request, messages: Seq<MessageModel>) -> Option<BodyModel> {
    if messages.len() > 0 && messages[0] is Response && messages[0]->Response_0 == request.seq {
        Some(messages[0]->Response_1)
    } else {
        None
    }
}

spec fn body_messages(seq: i64, body: Option<ResponseBody>) -> Seq<MessageModel> {
    match body {
        Some(b) => seq![MessageModel::Response(seq, b@)],
        None => Seq::empty(),
    }
}

fn add_events(messages: &mut Vec<Message>, events: Vec<Event>)
    ensures
        message_models(final(messages)@) == message_models(old(messages)@) + event_messages(
            events@,
        ),
{
    let ghost start = message_models(messages@);
    let mut i: usize = 0;
    assert(message_models(messages@) =~= start + event_messages(events@.subrange(0, 0)));
    while i < events.len()
        invariant
            i <= events@.len(),
            message_models(messages@) == start + event_messages(events@.subrange(0, i as int)),
        decreases events@.len() - i,
    {
        let ghost before = message_models(messages@);
        let ghost sent = event_messages(events@.subrange(0, i as int));
        let event: Event = events[i];
        messages.push(Message::Event(event));
        assert(message_models(messages@) =~= before.push(MessageModel::Event(event)));
        i = i + 1;
        assert(event_messages(events@.subrange(0, i as int)) =~= sent.push(
            MessageModel::Event(event),
        ));
        assert(before.push(MessageModel::Event(event)) =~= start + sent.push(
            MessageModel::Event(event),
        ));
    }
    assert(events@.subrange(0, i as int) =~= events@);
}

impl<T: Service> Server<T> {
    /// The session that is served.
    pub closed spec fn session(self) -> Session<T::State> {
        Session { state: self.service.state(), phase: self.phase }
    }

    /// A server for a session that starts.
    pub fn new(service: T) -> (r: Server<T>)
        requires
            T::valid(service.state()),
        ensures
            r.session() == (Session::<T::State> { state: service.state(), phase: Phase::Starting }),
    {
        Server { service, phase: Phase::Starting }
    }

    /// Whether the session is over.
    pub fn finished(&self) -> (r: bool)
        ensures
            r == (self.session().phase is Finished),
    {
        match self.phase {
            Phase::Finished => true,
            _ => false,
        }
    }

    /// Serves what was received, and returns the messages to send, in order. A request of a running
    /// session is answered in its kind, and while the session goes on no event is left to send.
    pub fn serve(&mut self, polled: Polled) -> (r: Vec<Message>)
        requires
            T::valid(old(self).session().state),
        ensures
            T::valid(final(self).session().state),
            (final(self).session(), message_models(r@)) == served::<T>(
                old(self).session(),
                polled,
            ),
            old(self).session().phase is Running && polled is Request ==> answers_in_kind(
                polled->Request_0,
                message_models(r@),
            ),
            final(self).session().phase is Running ==> T::pending(
                final(self).session().state,
            ).len() == 0,
    {
        let mut messages: Vec<Message> = Vec::new();
        assert(message_models(messages@) =~= Seq::<MessageModel>::empty());
        let request: Request = match polled {
            Polled::Request(request) => request,
            _ => {
                self.phase = Phase::Finished;
                return messages;
            },
        };
        let ghost asked = request;
        let seq: i64 = request.seq;
        match self.phase {
            Phase::Starting => {
                match request.command {
                    Command::Initialize => {
                        messages.push(
                            Message::Response(
                                Response {
                                    request_seq: seq,
                                    body: ResponseBody::Initialize(
                                        Capabilities { supports_step_back: Some(true) },
                                    ),
                                },
                            ),
                        );
                        messages.push(Message::Event(Event::Initialized));
                        assert(message_models(messages@) =~= greeting(seq));
                        self.phase = Phase::Running;
                    },
                    _ => {
                        self.phase = Phase::Finished;
                        return messages;
                    },
                }
            },
            Phase::Running => {
                let ghost before = self.service.state();
                let body: Option<ResponseBody> = match request.command {
                    Command::Launch(body) => {
                        self.service.launch(body);
                        Some(ResponseBody::Launch)
                    },
                    Command::SetBreakpoints(body) => Some(
                        ResponseBody::SetBreakpoints(self.service.set_breakpoints(body)),
                    ),
                    Command::SetExceptionBreakpoints(body) => Some(
                        ResponseBody::SetExceptionBreakpoints(
                            self.service.set_exception_breakpoints(body),
                        ),
                    ),
                    Command::Disconnect(body) => {
                        self.service.disconnect(body);
                        self.phase = Phase::Finished;
                        return messages;
                    },
                    Command::Threads => Some(ResponseBody::Threads(self.service.threads())),
                    Command::StepBack(body) => {
                        self.service.step_back(body);
                        None
                    },
                    Command::Next(body) => {
                        self.service.next(body);
                        None
                    },
                    Command::Scopes(body) => Some(ResponseBody::Scopes(self.service.scopes(body))),
                    Command::Variables(body) => Some(
                        ResponseBody::Variables(self.service.variables(body)),
                    ),
                    Command::StackTrace(body) => Some(
                        ResponseBody::StackTrace(self.service.stack_trace(body)),
                    ),
                    Command::Initialize | Command::Untracked => None,
                };
                let ghost said = body_messages(seq, body);
                if let Some(body) = body {
                    messages.push(Message::Response(Response { request_seq: seq, body }));
                }
                assert(message_models(messages@) =~= said);
                proof {
                    match call_of(asked.command) {
                        Some(call) => {
                            let (state, answer) = T::answered(before, call);
                            assert(said == responses(asked, answer));
                            assert(state == self.service.state());
                        },
                        None => {
                            assert(said =~= Seq::<MessageModel>::empty());
                        },
                    }
                }
            },
            Phase::Finished => {
                return messages;
            },
        }
        let ghost said = message_models(messages@);
        let events = self.service.take_events();
        add_events(&mut messages, events);
        assert(Seq::<MessageModel>::empty() + event_messages(events@) =~= event_messages(events@));
        messages
    }
}

/// Every response answers the request that was received, and there is at most one.
pub proof fn law_responses_answer_the_request<T: Service>(
    session: Session<T::State>,
    request: Request,
    i: int,
)
    requires
        0 <= i < served::<T>(session, Polled::Request(request)).1.len(),
        served::<T>(session, Polled::Request(request)).1[i] is Response,
    ensures
        i == 0,
        served::<T>(session, Polled::Request(request)).1[i]->Response_0 == request.seq,
{
}

/// A request of a running session is answered in its kind.
pub proof fn law_answers_fit_the_request<T: Service>(session: Session<T::State>, request: Request)
    requires
        T::valid(session.state),
        session.phase is Running,
    ensures
        answers_in_kind(request, served::<T>(session, Polled::Request(request)).1),
{
    if let Some(call) = call_of(request.command) {
        T::lemma_answered(session.state, call);
    }
}

/// The session after the first `n` of what was received, and all messages that were sent.
pub open spec fn served_all<T: Service>(session: Session<T::State>, polls: Seq<Polled>, n: nat) -> (
    Session<T::State>,
    Seq<MessageModel>,
)
    decreases n,
{
    if n == 0 || n > polls.len() {
        (session, Seq::empty())
    } else {
        let (before, sent) = served_all::<T>(session, polls, (n - 1) as nat);
        let (after, messages) = served::<T>(before, polls[n - 1]);
        (after, sent + messages)
    }
}

/// The events that the service has sent while the message `n` was handled.
pub open spec fn raised<T: Service>(session: Session<T::State>, polls: Seq<Polled>, n: nat) -> Seq<
    Event,
> {
    let before = served_all::<T>(session, polls, n).0;
    match polls[n as int] {
        Polled::Request(request) => match call_of(request.command) {
            Some(call) => T::pending(T::answered(before.state, call).0),
            None => Seq::empty(),
        },
        _ => Seq::empty(),
    }
}

/// What the client is told while the message `n` is handled begins with at most one response and
/// goes on with the events that the service has sent meanwhile, each once and in their order: when
/// a message arrives in a running session, nothing of an earlier one is left to send, and when it
/// has been handled, nothing of its own is.
pub proof fn law_events_are_sent_once<T: Service>(
    session: Session<T::State>,
    polls: Seq<Polled>,
    n: nat,
)
    requires
        T::valid(session.state),
        session.phase is Starting,
        n < polls.len(),
        served_all::<T>(session, polls, n).0.phase is Running,
        served_all::<T>(session, polls, n + 1).0.phase is Running,
    ensures
        T::pending(served_all::<T>(session, polls, n).0.state).len() == 0,
        T::pending(served_all::<T>(session, polls, n + 1).0.state).len() == 0,
        ({
            let sent = served_all::<T>(session, polls, n).1;
            let request = polls[n as int]->Request_0;
            let answer = match call_of(request.command) {
                Some(call) => responses(
                    request,
                    T::answered(served_all::<T>(session, polls, n).0.state, call).1,
                ),
                None => Seq::empty(),
            };
            &&& polls[n as int] is Request
            &&& answer.len() <= 1
            &&& served_all::<T>(session, polls, n + 1).1 == sent + (answer + event_messages(
                raised::<T>(session, polls, n),
            ))
        }),
{
    lemma_sessions_stay_valid::<T>(session, polls, n);
    lemma_sessions_stay_valid::<T>(session, polls, n + 1);
    let before = served_all::<T>(session, polls, n).0;
    let empty = T::pending(before.state);
    assert(empty =~= Seq::<Event>::empty());
    assert(event_messages(empty) =~= Seq::<MessageModel>::empty());
    let none = Seq::<MessageModel>::empty();
    assert(none + event_messages(raised::<T>(session, polls, n)) =~= event_messages(
        raised::<T>(session, polls, n),
    ));
}

/// The events that a service has sent before its session began follow the greeting, each once.
pub proof fn law_early_events_follow_the_greeting<T: Service>(
    session: Session<T::State>,
    request: Request,
)
    requires
        T::valid(session.state),
        session.phase is Starting,
        request.command is Initialize,
    ensures
        ({
            let (after, messages) = served::<T>(session, Polled::Request(request));
            &&& messages == greeting(request.seq) + event_messages(T::pending(session.state))
            &&& T::pending(after.state).len() == 0
        }),
{
    T::lemma_drained(session.state);
}

proof fn lemma_sessions_stay_valid<T: Service>(
    session: Session<T::State>,
    polls: Seq<Polled>,
    n: nat,
)
    requires
        T::valid(session.state),
        session.phase is Starting,
        n <= polls.len(),
    ensures
        T::valid(served_all::<T>(session, polls, n).0.state),
        served_all::<T>(session, polls, n).0.phase is Running ==> T::pending(
            served_all::<T>(session, polls, n).0.state,
        ).len() == 0,
    decreases n,
{
    if n > 0 {
        lemma_sessions_stay_valid::<T>(session, polls, (n - 1) as nat);
        let before = served_all::<T>(session, polls, (n - 1) as nat).0;
        T::lemma_drained(before.state);
        if let Polled::Request(request) = polls[n - 1] {
            if let Some(call) = call_of(request.command) {
                T::lemma_answered(before.state, call);
                T::lemma_drained(T::answered(before.state, call).0);
            }
        }
    }
}

/// A session that is over stays over, and sends nothing more.
pub proof fn law_finished_sessions_are_silent<T: Service>(
    session: Session<T::State>,
    polled: Polled,
)
    requires
        session.phase is Finished,
    ensures
        served::<T>(session, polled) == (session, Seq::<MessageModel>::empty()),
{
}

/// A session begins with an `initialize` request; with any other it is over at once.
pub proof fn law_sessions_begin_with_initialize<T: Service>(
    session: Session<T::State>,
    polled: Polled,
)
    requires
        session.phase is Starting,
    ensures
        served::<T>(session, polled).0.phase is Running <==> polled is Request
            && polled->Request_0.command is Initialize,
        served::<T>(session, polled).0.phase !is Running ==> served::<T>(session, polled).1.len()
            == 0,
{
}

} // verus!
