//! The debugger: a service that walks through a recorded trace.

use dap::requests::{
    DisconnectArguments, LaunchRequestArguments, NextArguments, ScopesArguments,
    SetBreakpointsArguments, SetExceptionBreakpointsArguments, StackTraceArguments,
    StepBackArguments, VariablesArguments,
};
use dap::types::Breakpoint;
use vstd::prelude::*;
use vstd::string::StringExecFns;

use crate::adapter::{Call, Client, Service};
use crate::debug_info::{SourceLocation, VariableModel};
use crate::protocol::{
    protocol_frames, scope_models, thread_models, BodyModel, Event, PresentationHint,
    ProtocolFrame, ProtocolFrameModel, ProtocolVariable, Scope, ScopeModel, ScopesResponse,
    SetBreakpointsResponse, SetExceptionBreakpointsResponse, Source, StackFramePresentationHint,
    StackTraceResponse, StoppedEventBody, StoppedEventReason, Thread, ThreadModel,
    ThreadsResponse, VariablesResponse,
};
use crate::text::{decimal, decimal_text};
use crate::trace::{
    definitions, frame_models, frames_at, next_stop, previous_stop, stack_of, DebugTrace, FrameModel,
    StepModel,
};
use crate::trace_laws::{law_stops, lemma_sound_trace, scopes_known, traces_point_back};

verus! {

/// Steps through a trace on behalf of a client.
pub struct Debugger {
    debug_trace: DebugTrace,
    client: Client,
}

/// A trace with the current step, and the events sent to the client.
pub struct Walk {
    pub steps: Seq<StepModel>,
    pub at: nat,
    pub variables: Map<u64, VariableModel>,
    pub sent: Seq<Event>,
}

/// Columns can be counted from one instead of from zero.
pub open spec fn columns_fit(location: SourceLocation) -> bool {
    &&& location.column < usize::MAX
    &&& match location.end_column {
        Some(column) => column < usize::MAX,
        None => true,
    }
}

/// Whether the columns of every step can be counted from one.
pub fn can_be_shown(trace: &DebugTrace) -> (r: bool)
    ensures
        r == (forall|i: int|
            0 <= i < trace.model().len() ==> columns_fit((#[trigger] trace.model()[i]).location)),
{
    let mut i: usize = 0;
    while i < trace.steps.len()
        invariant
            i <= trace.steps@.len(),
            forall|k: int| 0 <= k < i ==> columns_fit((#[trigger] trace.model()[k]).location),
        decreases trace.steps@.len() - i,
    {
        let location = trace.steps[i].location;
        assert(trace.model()[i as int].location == location);
        let end_fits: bool = match location.end_column {
            Some(column) => column < usize::MAX,
            None => true,
        };
        if location.column == usize::MAX || !end_fits {
            return false;
        }
        i = i + 1;
    }
    true
}

/// The current step exists, and so do the steps and the variables that any step names.
pub open spec fn walk_valid(walk: Walk) -> bool {
    &&& walk.at < walk.steps.len()
    &&& traces_point_back(walk.steps)
    &&& scopes_known(walk.steps, walk.variables)
    &&& forall|i: int| 0 <= i < walk.steps.len() ==> columns_fit((#[trigger] walk.steps[i]).location)
}

/// Tells that the only thread has stopped.
pub open spec fn stopped(reason: StoppedEventReason) -> Event {
    Event::Stopped(
        StoppedEventBody { reason, thread_id: Some(1), all_threads_stopped: Some(true) },
    )
}

/// The scopes of the first `n` variables named: each variable is a scope of its own.
pub open spec fn scopes_of(variables: Map<u64, VariableModel>, ids: Seq<usize>, n: nat) -> Seq<
    ScopeModel,
>
    decreases n,
{
    if n == 0 || n > ids.len() {
        Seq::empty()
    } else {
        let var = variables[ids[n - 1] as u64];
        scopes_of(variables, ids, (n - 1) as nat).push(
            ScopeModel { name: var.name, variables_reference: var.id as i64 },
        )
    }
}

/// The frame with number `i`, with columns counted from one.
pub open spec fn shown_frame(frame: FrameModel, i: nat) -> ProtocolFrameModel {
    let name = "Frame "@ + decimal(i);
    ProtocolFrameModel {
        id: i as i64,
        name,
        line: frame.location.line as i64,
        column: (frame.location.column + 1) as i64,
        end_line: match frame.location.end_line {
            Some(line) => Some(line as i64),
            None => None,
        },
        end_column: match frame.location.end_column {
            Some(column) => Some((column + 1) as i64),
            None => None,
        },
        source_name: name,
        source_path: frame.path,
        source_hint: PresentationHint::Normal,
        presentation_hint: StackFramePresentationHint::Normal,
    }
}

pub open spec fn shown_frames(frames: Seq<FrameModel>) -> Seq<ProtocolFrameModel> {
    Seq::new(frames.len(), |i: int| shown_frame(frames[i], i as nat))
}

/// What the debugger does for a call: it steps through the trace, stopping right away, and shows the
/// stack and the variables of the current step. There are no breakpoints, and variables have no
/// members.
pub open spec fn walked(walk: Walk, call: Call) -> (Walk, Option<BodyModel>) {
    match call {
        Call::Launch(_) | Call::Disconnect(_) => (walk, None),
        Call::Threads => (
            Walk { sent: walk.sent.push(stopped(StoppedEventReason::Breakpoint)), ..walk },
            Some(BodyModel::Threads(seq![ThreadModel { id: 1, name: "Main Thread"@ }])),
        ),
        Call::StepBack(_) => (
            Walk {
                at: previous_stop(walk.steps, walk.at).0,
                sent: walk.sent.push(stopped(StoppedEventReason::Step)),
                ..walk
            },
            None,
        ),
        Call::Next(_) => (
            Walk {
                at: next_stop(walk.steps, walk.at).0,
                sent: walk.sent.push(stopped(StoppedEventReason::Step)),
                ..walk
            },
            None,
        ),
        Call::Scopes(_) => {
            let ids = walk.steps[walk.at as int].variables_in_scope;
            (walk, Some(BodyModel::Scopes(scopes_of(walk.variables, ids, ids.len()))))
        },
        Call::StackTrace(_) => {
            let frames = stack_of(walk.steps, walk.at);
            (
                walk,
                Some(BodyModel::StackTrace(shown_frames(frames), Some(frames.len() as i64))),
            )
        },
        Call::Variables(_) => (walk, Some(BodyModel::Variables(Seq::empty()))),
        Call::SetBreakpoints(_) => (walk, Some(BodyModel::SetBreakpoints(Seq::empty()))),
        Call::SetExceptionBreakpoints(_) => (
            walk,
            Some(BodyModel::SetExceptionBreakpoints(None)),
        ),
    }
}

impl Debugger {
    pub closed spec fn walk(self) -> Walk {
        Walk {
            steps: self.debug_trace.model(),
            at: self.debug_trace.indx as nat,
            variables: definitions(self.debug_trace.variables@),
            sent: self.client.sent(),
        }
    }

    /// A debugger at the current step of the trace.
    pub fn new(client: Client, debug_trace: DebugTrace) -> (r: Debugger)
        ensures
            r.state() == (Walk {
                steps: debug_trace.model(),
                at: debug_trace.indx as nat,
                variables: definitions(debug_trace.variables@),
                sent: client.sent(),
            }),
    {
        Debugger { debug_trace, client }
    }

    fn stop(&mut self, reason: StoppedEventReason)
        ensures
            final(self).walk() == (Walk {
                sent: old(self).walk().sent.push(stopped(reason)),
                ..old(self).walk()
            }),
    {
        self.client.send_event(
            Event::Stopped(
                StoppedEventBody { reason, thread_id: Some(1), all_threads_stopped: Some(true) },
            ),
        );
    }
}

impl Service for Debugger {
    type State = Walk;

    open spec fn state(&self) -> Walk {
        self.walk()
    }

    open spec fn valid(state: Walk) -> bool {
        walk_valid(state)
    }

    open spec fn answered(state: Walk, call: Call) -> (Walk, Option<BodyModel>) {
        walked(state, call)
    }

    open spec fn pending(state: Walk) -> Seq<Event> {
        state.sent
    }

    open spec fn drained(state: Walk) -> Walk {
        Walk { sent: Seq::empty(), ..state }
    }

    proof fn lemma_answered(state: Walk, call: Call) {
        lemma_stops_inside(state);
    }

    proof fn lemma_drained(state: Walk) {
    }

    fn launch(&mut self, _body: LaunchRequestArguments) {
    }

    fn threads(&mut self) -> (r: ThreadsResponse) {
        let mut threads: Vec<Thread> = Vec::new();
        threads.push(Thread { id: 1, name: "Main Thread".to_string() });
        assert(thread_models(threads@) =~= seq![ThreadModel { id: 1, name: "Main Thread"@ }]);
        self.stop(StoppedEventReason::Breakpoint);
        ThreadsResponse { threads }
    }

    fn disconnect(&mut self, _body: DisconnectArguments) {
    }

    fn scopes(&mut self, _body: ScopesArguments) -> (r: ScopesResponse) {
        proof {
            lemma_sound_trace(self.debug_trace);
        }
        let variables_in_scope = self.debug_trace.scope();
        let ghost ids = self.walk().steps[self.walk().at as int].variables_in_scope;
        let ghost known = self.walk().variables;
        let ghost here = self.debug_trace;
        assert(ids == here.steps@[here.indx as int].variables_in_scope@);
        let mut scopes: Vec<Scope> = Vec::new();
        assert(scope_models(scopes@) =~= Seq::<ScopeModel>::empty());
        let mut i: usize = 0;
        while i < variables_in_scope.len()
            invariant
                i <= variables_in_scope@.len(),
                variables_in_scope@.len() == ids.len(),
                *self == *old(self),
                forall|k: int|
                    0 <= k < ids.len() ==> (#[trigger] variables_in_scope@[k])@ == known[ids[k] as u64],
                scope_models(scopes@) == scopes_of(known, ids, i as nat),
            decreases variables_in_scope@.len() - i,
        {
            let ghost before = scope_models(scopes@);
            let var = &variables_in_scope[i];
            let scope = Scope { name: var.name.clone(), variables_reference: var.id as i64 };
            scopes.push(scope);
            assert(scope_models(scopes@) =~= before.push(scope@));
            i = i + 1;
        }
        ScopesResponse { scopes }
    }

    fn stack_trace(&mut self, _body: StackTraceArguments) -> (r: StackTraceResponse) {
        proof {
            lemma_sound_trace(self.debug_trace);
        }
        let concrete_trace = self.debug_trace.trace();
        let frames = &concrete_trace.stack_frames;
        let ghost models = frame_models(frames@);
        proof {
            lemma_frames_fit(self.walk());
        }
        let len_frames: usize = frames.len();
        let mut traces: Vec<ProtocolFrame> = Vec::new();
        let mut i: usize = 0;
        while i < frames.len()
            invariant
                i <= frames@.len(),
                *self == *old(self),
                models == frame_models(frames@),
                forall|k: int| 0 <= k < models.len() ==> columns_fit((#[trigger] models[k]).location),
                traces@.len() == i,
                forall|k: int|
                    0 <= k < i ==> (#[trigger] traces@[k])@ == shown_frame(models[k], k as nat),
            decreases frames@.len() - i,
        {
            let frame = &frames[i];
            assert(models[i as int] == frame@);
            let location = frame.location;
            let mut name = "Frame ".to_string();
            let number = decimal_text(i as u128);
            name.append(number.as_str());
            let shown = ProtocolFrame {
                id: i as i64,
                name: name.clone(),
                line: location.line as i64,
                column: (location.column + 1) as i64,
                end_line: match location.end_line {
                    Some(line) => Some(line as i64),
                    None => None,
                },
                end_column: match location.end_column {
                    Some(column) => Some((column + 1) as i64),
                    None => None,
                },
                source: Source {
                    name,
                    path: frame.path.clone(),
                    presentation_hint: PresentationHint::Normal,
                },
                presentation_hint: StackFramePresentationHint::Normal,
            };
            assert(shown@ == shown_frame(models[i as int], i as nat));
            traces.push(shown);
            i = i + 1;
        }
        assert(protocol_frames(traces@) =~= shown_frames(models));
        StackTraceResponse { stack_frames: traces, total_frames: Some(len_frames as i64) }
    }

    fn variables(&mut self, _body: VariablesArguments) -> (r: VariablesResponse) {
        let variables: Vec<ProtocolVariable> = Vec::new();
        assert(variables@ =~= Seq::<ProtocolVariable>::empty());
        VariablesResponse { variables }
    }

    fn next(&mut self, _body: NextArguments) {
        let ghost before = self.walk();
        proof {
            lemma_stops_inside(before);
        }
        self.debug_trace.next();
        // just stop right away
        self.stop(StoppedEventReason::Step);
    }

    fn step_back(&mut self, _body: StepBackArguments) {
        let ghost before = self.walk();
        proof {
            lemma_stops_inside(before);
        }
        self.debug_trace.prev();
        self.stop(StoppedEventReason::Step);
    }

    fn set_breakpoints(&mut self, _breakpoints: SetBreakpointsArguments) -> (r:
        SetBreakpointsResponse) {
        let breakpoints: Vec<Breakpoint> = Vec::new();
        assert(breakpoints@ =~= Seq::<Breakpoint>::empty());
        SetBreakpointsResponse { breakpoints }
    }

    fn set_exception_breakpoints(&mut self, _breakpoints: SetExceptionBreakpointsArguments) -> (r:
        SetExceptionBreakpointsResponse) {
        SetExceptionBreakpointsResponse { breakpoints: None }
    }

    fn take_events(&mut self) -> (r: Vec<Event>) {
        self.client.take_events()
    }
}

proof fn lemma_stops_inside(walk: Walk)
    requires
        walk_valid(walk),
    ensures
        next_stop(walk.steps, walk.at).0 < walk.steps.len(),
        previous_stop(walk.steps, walk.at).0 < walk.steps.len(),
{
    law_stops(walk.steps, walk.at);
}

proof fn lemma_frames_fit(walk: Walk)
    requires
        walk_valid(walk),
    ensures
        forall|k: int|
            0 <= k < stack_of(walk.steps, walk.at).len() ==> columns_fit(
                (#[trigger] stack_of(walk.steps, walk.at)[k]).location,
            ),
{
    let step = walk.steps[walk.at as int];
    lemma_called_frames_fit(walk, step.call_trace.len());
}

proof fn lemma_called_frames_fit(walk: Walk, n: nat)
    requires
        walk_valid(walk),
        n <= walk.steps[walk.at as int].call_trace.len(),
    ensures
        ({
            let at = walk.steps[walk.at as int].call_trace;
            let frames = frames_at(walk.steps, at, n);
            forall|k: int| 0 <= k < frames.len() ==> columns_fit((#[trigger] frames[k]).location)
        }),
    decreases n,
{
    if n > 0 {
        lemma_called_frames_fit(walk, (n - 1) as nat);
        let at = walk.steps[walk.at as int].call_trace;
        assert(at[n - 1] < walk.at);
        assert(columns_fit(walk.steps[at[n - 1] as int].location));
    }
}

} // verus!
