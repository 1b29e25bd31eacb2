use dap::requests::{
    DisconnectArguments, LaunchRequestArguments, NextArguments, ScopesArguments,
    SetBreakpointsArguments, SetExceptionBreakpointsArguments, StackTraceArguments,
    StepBackArguments, VariablesArguments,
};
use solstice::adapter::{Client, Polled, Server};
use solstice::debug_info::{SourceLocation, Variable};
use solstice::debugger::{can_be_shown, Debugger};
use solstice::protocol::{
    Command, Event, Message, PresentationHint, Request, ResponseBody, StackFramePresentationHint,
    StoppedEventReason,
};
use solstice::trace::{DebugStep, DebugTrace, StepKind};
use std::collections::HashMap;

fn location(line: usize) -> SourceLocation {
    SourceLocation {
        line,
        column: 4,
        end_line: Some(line),
        end_column: Some(9),
        start_offset: 0,
        length: Some(5),
    }
}

fn step(line: usize, kind: StepKind, call_trace: Vec<usize>, scope: Vec<usize>) -> DebugStep {
    DebugStep {
        location: location(line),
        variables_in_scope: scope,
        path: "/p/C.sol".to_string(),
        call_trace,
        kind,
        memory: vec![],
        stack: vec![],
    }
}

fn server() -> Server<Debugger> {
    let mut variables = HashMap::new();
    variables.insert(
        5,
        Variable {
            name: "x".to_string(),
            id: 5,
            location: location(1),
            state_variable: true,
        },
    );
    let trace = DebugTrace {
        steps: vec![
            step(1, StepKind::FunctionDefinition("f".to_string()), vec![], vec![]),
            step(2, StepKind::FunctionCall, vec![], vec![]),
            step(7, StepKind::FunctionDefinition("g".to_string()), vec![], vec![]),
            step(8, StepKind::Statement, vec![2], vec![5]),
        ],
        variables,
        indx: 0,
    };
    Server::new(Debugger::new(Client::new(), trace))
}

fn ask(server: &mut Server<Debugger>, seq: i64, command: Command) -> Vec<Message> {
    server.serve(Polled::Request(Request { seq, command }))
}

fn started() -> Server<Debugger> {
    let mut s = server();
    ask(&mut s, 1, Command::Initialize);
    s
}

fn response(messages: &Vec<Message>, seq: i64) -> &ResponseBody {
    match &messages[0] {
        Message::Response(r) => {
            assert_eq!(r.request_seq, seq);
            &r.body
        }
        Message::Event(_) => panic!("not a response"),
    }
}

fn stopped(message: &Message, reason: StoppedEventReason) {
    match message {
        Message::Event(Event::Stopped(body)) => {
            assert_eq!(body.reason, reason);
            assert_eq!(body.thread_id, Some(1));
            assert_eq!(body.all_threads_stopped, Some(true));
        }
        _ => panic!("not stopped"),
    }
}

#[test]
fn a_session_begins_with_initialize() {
    let mut s = server();
    let messages = ask(&mut s, 3, Command::Initialize);
    assert_eq!(messages.len(), 2);
    match response(&messages, 3) {
        ResponseBody::Initialize(c) => assert_eq!(c.supports_step_back, Some(true)),
        _ => panic!("another response"),
    }
    assert!(matches!(&messages[1], Message::Event(Event::Initialized)));
    assert!(!s.finished());

    let mut s = server();
    assert!(ask(&mut s, 1, Command::Threads).is_empty());
    assert!(s.finished());
}

#[test]
fn a_session_ends() {
    let mut s = started();
    assert!(ask(&mut s, 2, Command::Disconnect(DisconnectArguments::default())).is_empty());
    assert!(s.finished());
    assert!(ask(&mut s, 3, Command::Threads).is_empty());
    let mut s = started();
    assert!(s.serve(Polled::Closed).is_empty());
    assert!(s.finished());
    let mut s = started();
    assert!(s.serve(Polled::Failed).is_empty());
    assert!(s.finished());
}

#[test]
fn confirms_a_launch() {
    let mut s = started();
    let messages = ask(&mut s, 2, Command::Launch(LaunchRequestArguments::default()));
    assert_eq!(messages.len(), 1);
    assert!(matches!(response(&messages, 2), ResponseBody::Launch));
}

#[test]
fn threads_stop_at_a_breakpoint() {
    let mut s = started();
    let messages = ask(&mut s, 2, Command::Threads);
    assert_eq!(messages.len(), 2);
    match response(&messages, 2) {
        ResponseBody::Threads(r) => {
            assert_eq!(r.threads.len(), 1);
            assert_eq!(r.threads[0].id, 1);
            assert_eq!(r.threads[0].name, "Main Thread");
        }
        _ => panic!("another response"),
    }
    stopped(&messages[1], StoppedEventReason::Breakpoint);
}

#[test]
fn steps_are_not_answered_but_tell_that_they_stopped() {
    let mut s = started();
    let messages = ask(&mut s, 2, Command::Next(NextArguments::default()));
    assert_eq!(messages.len(), 1);
    stopped(&messages[0], StoppedEventReason::Step);
    let messages = ask(&mut s, 3, Command::StepBack(StepBackArguments::default()));
    assert_eq!(messages.len(), 1);
    stopped(&messages[0], StoppedEventReason::Step);
}

#[test]
fn shows_the_stack() {
    let mut s = started();
    ask(&mut s, 2, Command::Next(NextArguments::default()));
    ask(&mut s, 3, Command::Next(NextArguments::default()));
    let messages = ask(&mut s, 4, Command::StackTrace(StackTraceArguments::default()));
    match response(&messages, 4) {
        ResponseBody::StackTrace(r) => {
            assert_eq!(r.total_frames, Some(2));
            assert_eq!(r.stack_frames.len(), 2);
            let outer = &r.stack_frames[0];
            assert_eq!((outer.id, outer.line, outer.column), (0, 7, 5));
            let inner = &r.stack_frames[1];
            assert_eq!((inner.id, inner.line, inner.column), (1, 8, 5));
            assert_eq!((inner.end_line, inner.end_column), (Some(8), Some(10)));
            assert_eq!(inner.name, "Frame 1");
            assert_eq!(inner.source.name, "Frame 1");
            assert_eq!(inner.source.path, "/p/C.sol");
            assert_eq!(inner.source.presentation_hint, PresentationHint::Normal);
            assert_eq!(inner.presentation_hint, StackFramePresentationHint::Normal);
        }
        _ => panic!("another response"),
    }
}

#[test]
fn shows_each_variable_as_a_scope() {
    let mut s = started();
    ask(&mut s, 2, Command::Next(NextArguments::default()));
    ask(&mut s, 3, Command::Next(NextArguments::default()));
    let messages = ask(&mut s, 4, Command::Scopes(ScopesArguments::default()));
    match response(&messages, 4) {
        ResponseBody::Scopes(r) => {
            assert_eq!(r.scopes.len(), 1);
            assert_eq!(r.scopes[0].name, "x");
            assert_eq!(r.scopes[0].variables_reference, 5);
        }
        _ => panic!("another response"),
    }
    let messages = ask(&mut s, 5, Command::Variables(VariablesArguments::default()));
    match response(&messages, 5) {
        ResponseBody::Variables(r) => assert!(r.variables.is_empty()),
        _ => panic!("another response"),
    }
}

#[test]
fn there_are_no_breakpoints() {
    let mut s = started();
    let messages = ask(&mut s, 2, Command::SetBreakpoints(SetBreakpointsArguments::default()));
    match response(&messages, 2) {
        ResponseBody::SetBreakpoints(r) => assert!(r.breakpoints.is_empty()),
        _ => panic!("another response"),
    }
    let messages = ask(
        &mut s,
        3,
        Command::SetExceptionBreakpoints(SetExceptionBreakpointsArguments::default()),
    );
    match response(&messages, 3) {
        ResponseBody::SetExceptionBreakpoints(r) => assert!(r.breakpoints.is_none()),
        _ => panic!("another response"),
    }
}

#[test]
fn other_requests_are_not_answered() {
    let mut s = started();
    assert!(ask(&mut s, 2, Command::Untracked).is_empty());
    assert!(ask(&mut s, 3, Command::Initialize).is_empty());
    assert!(!s.finished());
}

#[test]
fn clients_hand_out_events_in_order() {
    let mut c = Client::new();
    c.send_event(Event::Initialized);
    assert_eq!(c.take_events(), vec![Event::Initialized]);
    assert!(c.take_events().is_empty());
}

#[test]
fn columns_are_counted_from_one() {
    let mut trace = DebugTrace {
        steps: vec![
            step(1, StepKind::Statement, vec![], vec![]),
            step(2, StepKind::Statement, vec![], vec![]),
        ],
        variables: HashMap::new(),
        indx: 0,
    };
    assert!(can_be_shown(&trace));
    trace.steps[1].location.end_column = None;
    assert!(can_be_shown(&trace));
    trace.steps[1].location.end_column = Some(usize::MAX);
    assert!(!can_be_shown(&trace));
    trace.steps[1].location.end_column = Some(usize::MAX - 1);
    assert!(can_be_shown(&trace));
    trace.steps[0].location.column = usize::MAX;
    assert!(!can_be_shown(&trace));
}

#[test]
fn every_event_is_sent_once() {
    let mut s = started();
    let events = |messages: Vec<Message>| {
        messages.iter().filter(|m| matches!(m, Message::Event(_))).count()
    };
    assert_eq!(events(ask(&mut s, 2, Command::Threads)), 1);
    assert_eq!(events(ask(&mut s, 3, Command::Untracked)), 0);
    assert_eq!(events(ask(&mut s, 4, Command::Threads)), 1);
    assert_eq!(events(ask(&mut s, 5, Command::Untracked)), 0);
}
