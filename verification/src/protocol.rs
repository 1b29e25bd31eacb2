//! The messages of the debug adapter protocol that the server handles.

use dap::requests::{
    DisconnectArguments, LaunchRequestArguments, NextArguments, ScopesArguments,
    SetBreakpointsArguments, SetExceptionBreakpointsArguments, StackTraceArguments,
    StepBackArguments, VariablesArguments,
};
use dap::types::Breakpoint;
use vstd::prelude::*;

verus! {

/// The arguments of a `disconnect` request, handed on unread.
#[verifier::external_type_specification]
#[verifier::external_body]
pub struct ExDisconnectArguments(DisconnectArguments);

/// The arguments of a `launch` request, handed on unread.
#[verifier::external_type_specification]
#[verifier::external_body]
pub struct ExLaunchRequestArguments(LaunchRequestArguments);

/// The arguments of a `next` request, handed on unread.
#[verifier::external_type_specification]
#[verifier::external_body]
pub struct ExNextArguments(NextArguments);

/// The arguments of a `scopes` request, handed on unread.
#[verifier::external_type_specification]
#[verifier::external_body]
pub struct ExScopesArguments(ScopesArguments);

/// The arguments of a `setBreakpoints` request, handed on unread.
#[verifier::external_type_specification]
#[verifier::external_body]
pub struct ExSetBreakpointsArguments(SetBreakpointsArguments);

/// The arguments of a `setExceptionBreakpoints` request, handed on unread.
#[verifier::external_type_specification]
#[verifier::external_body]
pub struct ExSetExceptionBreakpointsArguments(SetExceptionBreakpointsArguments);

/// The arguments of a `stackTrace` request, handed on unread.
#[verifier::external_type_specification]
#[verifier::external_body]
pub struct ExStackTraceArguments(StackTraceArguments);

/// The arguments of a `stepBack` request, handed on unread.
#[verifier::external_type_specification]
#[verifier::external_body]
pub struct ExStepBackArguments(StepBackArguments);

/// The arguments of a `variables` request, handed on unread.
#[verifier::external_type_specification]
#[verifier::external_body]
pub struct ExVariablesArguments(VariablesArguments);

/// A breakpoint as the protocol describes it, handed on unread.
#[verifier::external_type_specification]
#[verifier::external_body]
pub struct ExBreakpoint(Breakpoint);

/// What a request asks for.
#[derive(Debug)]
pub enum Command {
    Initialize,
    Launch(LaunchRequestArguments),
    SetBreakpoints(SetBreakpointsArguments),
    SetExceptionBreakpoints(SetExceptionBreakpointsArguments),
    Disconnect(DisconnectArguments),
    Threads,
    StepBack(StepBackArguments),
    Next(NextArguments),
    Scopes(ScopesArguments),
    Variables(VariablesArguments),
    StackTrace(StackTraceArguments),
    /// A request that the server does not handle.
    Untracked,
}

/// A request with its sequence number.
#[derive(Debug)]
pub struct Request {
    pub seq: i64,
    pub command: Command,
}

/// What the server can do.
#[derive(Clone, Copy, Debug, PartialEq, Eq, Structural)]
pub struct Capabilities {
    pub supports_step_back: Option<bool>,
}

#[derive(Debug, PartialEq)]
pub struct Thread {
    pub id: i64,
    pub name: String,
}

/// A named container of variables.
#[derive(Debug, PartialEq)]
pub struct Scope {
    pub name: String,
    pub variables_reference: i64,
}

/// A variable with its value.
#[derive(Debug, PartialEq)]
pub struct ProtocolVariable {
    pub name: String,
    pub value: String,
    pub variables_reference: i64,
}

/// How a source is presented.
#[derive(Clone, Copy, Debug, PartialEq, Eq, Structural)]
pub enum PresentationHint {
    Normal,
    Emphasize,
    Deemphasize,
}

/// How a stack frame is presented.
#[derive(Clone, Copy, Debug, PartialEq, Eq, Structural)]
pub enum StackFramePresentationHint {
    Normal,
    Label,
    Subtle,
}

#[derive(Debug, PartialEq)]
pub struct Source {
    pub name: String,
    pub path: String,
    pub presentation_hint: PresentationHint,
}

#[derive(Debug, PartialEq)]
pub struct ProtocolFrame {
    pub id: i64,
    pub name: String,
    pub line: i64,
    pub column: i64,
    pub end_line: Option<i64>,
    pub end_column: Option<i64>,
    pub source: Source,
    pub presentation_hint: StackFramePresentationHint,
}

#[derive(Debug, PartialEq)]
pub struct ThreadsResponse {
    pub threads: Vec<Thread>,
}

#[derive(Debug, PartialEq)]
pub struct ScopesResponse {
    pub scopes: Vec<Scope>,
}

#[derive(Debug, PartialEq)]
pub struct StackTraceResponse {
    pub stack_frames: Vec<ProtocolFrame>,
    pub total_frames: Option<i64>,
}

#[derive(Debug)]
pub struct VariablesResponse {
    pub variables: Vec<ProtocolVariable>,
}

#[derive(Debug)]
pub struct SetBreakpointsResponse {
    pub breakpoints: Vec<Breakpoint>,
}

#[derive(Debug)]
pub struct SetExceptionBreakpointsResponse {
    pub breakpoints: Option<Vec<Breakpoint>>,
}

#[derive(Debug)]
pub enum ResponseBody {
    Initialize(Capabilities),
    Launch,
    SetBreakpoints(SetBreakpointsResponse),
    SetExceptionBreakpoints(SetExceptionBreakpointsResponse),
    Threads(ThreadsResponse),
    Scopes(ScopesResponse),
    Variables(VariablesResponse),
    StackTrace(StackTraceResponse),
}

/// The answer to a request that succeeded.
#[derive(Debug)]
pub struct Response {
    /// The sequence number of the request.
    pub request_seq: i64,
    pub body: ResponseBody,
}

#[derive(Clone, Copy, Debug, PartialEq, Eq, Structural)]
pub enum StoppedEventReason {
    Step,
    Breakpoint,
}

#[derive(Clone, Copy, Debug, PartialEq, Eq, Structural)]
pub struct StoppedEventBody {
    pub reason: StoppedEventReason,
    pub thread_id: Option<i64>,
    pub all_threads_stopped: Option<bool>,
}

/// Something that the server tells without being asked.
#[derive(Clone, Copy, Debug, PartialEq, Eq, Structural)]
pub enum Event {
    Initialized,
    Stopped(StoppedEventBody),
}

/// A message to the client.
#[derive(Debug)]
pub enum Message {
    Response(Response),
    Event(Event),
}

pub struct ThreadModel {
    pub id: i64,
    pub name: Seq<char>,
}

pub struct ScopeModel {
    pub name: Seq<char>,
    pub variables_reference: i64,
}

pub struct ProtocolFrameModel {
    pub id: i64,
    pub name: Seq<char>,
    pub line: i64,
    pub column: i64,
    pub end_line: Option<i64>,
    pub end_column: Option<i64>,
    pub source_name: Seq<char>,
    pub source_path: Seq<char>,
    pub source_hint: PresentationHint,
    pub presentation_hint: StackFramePresentationHint,
}

/// What a [`ResponseBody`] says.
pub enum BodyModel {
    Initialize(Capabilities),
    Launch,
    SetBreakpoints(Seq<Breakpoint>),
    SetExceptionBreakpoints(Option<Seq<Breakpoint>>),
    Threads(Seq<ThreadModel>),
    Scopes(Seq<ScopeModel>),
    Variables(Seq<ProtocolVariable>),
    StackTrace(Seq<ProtocolFrameModel>, Option<i64>),
}

/// What a [`Message`] says.
pub enum MessageModel {
    /// The sequence number of the request, and the answer to it.
    Response(i64, BodyModel),
    Event(Event),
}

impl View for Thread {
    type V = ThreadModel;

    open spec fn view(&self) -> ThreadModel {
        ThreadModel { id: self.id, name: self.name@ }
    }
}

impl View for Scope {
    type V = ScopeModel;

    open spec fn view(&self) -> ScopeModel {
        ScopeModel { name: self.name@, variables_reference: self.variables_reference }
    }
}

impl View for ProtocolFrame {
    type V = ProtocolFrameModel;

    open spec fn view(&self) -> ProtocolFrameModel {
        ProtocolFrameModel {
            id: self.id,
            name: self.name@,
            line: self.line,
            column: self.column,
            end_line: self.end_line,
            end_column: self.end_column,
            source_name: self.source.name@,
            source_path: self.source.path@,
            source_hint: self.source.presentation_hint,
            presentation_hint: self.presentation_hint,
        }
    }
}

pub open spec fn thread_models(threads: Seq<Thread>) -> Seq<ThreadModel> {
    threads.map_values(|t: Thread| t@)
}

pub open spec fn scope_models(scopes: Seq<Scope>) -> Seq<ScopeModel> {
    scopes.map_values(|s: Scope| s@)
}

pub open spec fn protocol_frames(frames: Seq<ProtocolFrame>) -> Seq<ProtocolFrameModel> {
    frames.map_values(|f: ProtocolFrame| f@)
}

impl View for ResponseBody {
    type V = BodyModel;

    open spec fn view(&self) -> BodyModel {
        match self {
            ResponseBody::Initialize(c) => BodyModel::Initialize(*c),
            ResponseBody::Launch => BodyModel::Launch,
            ResponseBody::SetBreakpoints(r) => BodyModel::SetBreakpoints(r.breakpoints@),
            ResponseBody::SetExceptionBreakpoints(r) => BodyModel::SetExceptionBreakpoints(
                match r.breakpoints {
                    Some(b) => Some(b@),
                    None => None,
                },
            ),
            ResponseBody::Threads(r) => BodyModel::Threads(thread_models(r.threads@)),
            ResponseBody::Scopes(r) => BodyModel::Scopes(scope_models(r.scopes@)),
            ResponseBody::Variables(r) => BodyModel::Variables(r.variables@),
            ResponseBody::StackTrace(r) => BodyModel::StackTrace(
                protocol_frames(r.stack_frames@),
                r.total_frames,
            ),
        }
    }
}

impl View for Message {
    type V = MessageModel;

    open spec fn view(&self) -> MessageModel {
        match self {
            Message::Response(r) => MessageModel::Response(r.request_seq, r.body@),
            Message::Event(e) => MessageModel::Event(*e),
        }
    }
}

pub open spec fn message_models(messages: Seq<Message>) -> Seq<MessageModel> {
    messages.map_values(|m: Message| m@)
}

pub open spec fn event_messages(events: Seq<Event>) -> Seq<MessageModel> {
    events.map_values(|e: Event| MessageModel::Event(e))
}

} // verus!
