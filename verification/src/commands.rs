//! The commands that the editor asks for, and what it is told of their outcome.

use vstd::prelude::*;
use vstd::string::StringExecFns;

use crate::json::{json_models, Json, JsonObject, JsonValue};
use crate::primitives::{lossy_text, utf8_text_lossy};
use crate::text::{decimal, decimal_text, join, joined, same_text, texts};

verus! {

/// A message for one of the editor's channels.
#[derive(Debug, PartialEq)]
pub struct LogParams {
    pub channel: String,
    pub message: String,
}

/// What a command asks for.
#[derive(Debug, PartialEq)]
pub enum CommandRequest {
    /// Run the tests of this name in this file.
    Test { test_path: String, function_name: String },
    /// Debug the test of this name in this file.
    Debug { test_path: String, function_name: String },
    /// The command is not one of the server's.
    Unknown,
}

pub enum RequestModel {
    Test(Seq<char>, Seq<char>),
    Debug(Seq<char>, Seq<char>),
    Unknown,
}

impl View for CommandRequest {
    type V = RequestModel;

    open spec fn view(&self) -> RequestModel {
        match *self {
            CommandRequest::Test { test_path, function_name } => RequestModel::Test(
                test_path@,
                function_name@,
            ),
            CommandRequest::Debug { test_path, function_name } => RequestModel::Debug(
                test_path@,
                function_name@,
            ),
            CommandRequest::Unknown => RequestModel::Unknown,
        }
    }
}

/// What a command with its arguments asks for: nothing can be done where the first two arguments
/// are not texts.
pub open spec fn request_of(command: Seq<char>, arguments: Seq<Json>) -> Option<RequestModel> {
    if command == "sol.test.file"@ || command == "sol.debug.file"@ {
        if arguments.len() >= 2 && arguments[0] is String && arguments[1] is String {
            if command == "sol.test.file"@ {
                Some(RequestModel::Test(arguments[0]->String_0, arguments[1]->String_0))
            } else {
                Some(RequestModel::Debug(arguments[0]->String_0, arguments[1]->String_0))
            }
        } else {
            None
        }
    } else {
        Some(RequestModel::Unknown)
    }
}

/// What a command with its arguments asks for.
pub fn command_request(command: &str, arguments: &Vec<JsonValue>) -> (r: Option<CommandRequest>)
    ensures
        match request_of(command@, json_models(arguments@)) {
            Some(request) => r is Some && r->Some_0@ == request,
            None => r is None,
        },
{
    let test: bool = same_text(command, "sol.test.file");
    if !test && !same_text(command, "sol.debug.file") {
        return Some(CommandRequest::Unknown);
    }
    if arguments.len() < 2 {
        return None;
    }
    assert(json_models(arguments@)[0] == arguments@[0]@);
    assert(json_models(arguments@)[1] == arguments@[1]@);
    match (&arguments[0], &arguments[1]) {
        (JsonValue::String(test_path), JsonValue::String(function_name)) => {
            let test_path = test_path.clone();
            let function_name = function_name.clone();
            if test {
                Some(CommandRequest::Test { test_path, function_name })
            } else {
                Some(CommandRequest::Debug { test_path, function_name })
            }
        },
        _ => None,
    }
}

/// How a finished command is judged: by its status. One that failed says so with what it wrote to
/// its error stream.
pub fn command_outcome(success: bool, stdout: Vec<u8>, stderr: &Vec<u8>) -> (r: Result<
    Vec<u8>,
    String,
>)
    ensures
        success ==> r == Ok::<Vec<u8>, String>(stdout),
        !success ==> r is Err && r->Err_0@ == "Forge command failed: "@ + lossy_text(stderr@),
{
    if success {
        Ok(stdout)
    } else {
        Err("Forge command failed: ".to_string().concat(utf8_text_lossy(stderr).as_str()))
    }
}

/// The numerals of the bytes.
pub open spec fn byte_numerals(bytes: Seq<u8>) -> Seq<Seq<char>> {
    bytes.map_values(|b: u8| decimal(b as nat))
}

/// The bytes as a list of numbers.
pub open spec fn byte_list(bytes: Seq<u8>) -> Seq<char> {
    "["@ + joined(byte_numerals(bytes), ", "@) + "]"@
}

fn byte_list_text(bytes: &Vec<u8>) -> (r: String)
    ensures
        r@ == byte_list(bytes@),
{
    let mut parts: Vec<String> = Vec::new();
    let mut i: usize = 0;
    while i < bytes.len()
        invariant
            i <= bytes@.len(),
            parts@.len() == i,
            forall|j: int| 0 <= j < i ==> (#[trigger] parts@[j])@ == decimal(bytes@[j] as nat),
        decreases bytes@.len() - i,
    {
        parts.push(decimal_text(bytes[i] as u128));
        i = i + 1;
    }
    assert(texts(parts@) =~= byte_numerals(bytes@));
    let mut out: String = "[".to_string();
    out.append(join(&parts, ", ").as_str());
    out.append("]");
    out
}

/// What is told of a test run: the command and what it wrote, or why it failed.
pub fn run_test(command: &str, outcome: &Result<Vec<u8>, String>) -> (r: LogParams)
    ensures
        match *outcome {
            Ok(stdout) => r.channel@ == "Forge Test"@ && r.message@ == command@ + " "@ + byte_list(
                stdout@,
            ),
            Err(e) => r.channel@ == "Forge Test Error"@ && r.message@ == command@
                + " Failed to execute test: "@ + e@,
        },
{
    let mut message: String = command.to_string();
    match outcome {
        Ok(stdout) => {
            message.append(" ");
            message.append(byte_list_text(stdout).as_str());
            LogParams { channel: "Forge Test".to_string(), message }
        },
        Err(e) => {
            message.append(" Failed to execute test: ");
            message.append(e.as_str());
            LogParams { channel: "Forge Test Error".to_string(), message }
        },
    }
}

/// What is told of a debugging run: what it wrote, or why it failed.
pub fn debug_test(outcome: &Result<Vec<u8>, String>) -> (r: LogParams)
    ensures
        match *outcome {
            Ok(stdout) => r.channel@ == "Forge Test"@ && r.message@ == lossy_text(stdout@),
            Err(e) => r.channel@ == "Forge Test Error"@ && r.message@
                == " Failed to execute test: "@ + e@,
        },
{
    match outcome {
        Ok(stdout) => LogParams {
            channel: "Forge Test".to_string(),
            message: utf8_text_lossy(stdout),
        },
        Err(e) => LogParams {
            channel: "Forge Test Error".to_string(),
            message: " Failed to execute test: ".to_string().concat(e.as_str()),
        },
    }
}

/// The configuration that starts a debugging session on a test.
pub open spec fn debug_session(test_path: Seq<char>) -> Map<Seq<char>, Json> {
    Map::empty().insert("type"@, Json::String("mock"@)).insert(
        "name"@,
        Json::String("Debug Test"@),
    ).insert("request"@, Json::String("launch"@)).insert("program"@, Json::String(test_path)).insert(
        "stopOnEntry"@,
        Json::Bool(true),
    )
}

/// The configuration that starts a debugging session on a test.
pub fn debug_config(test_path: String) -> (r: JsonValue)
    ensures
        r@ == Json::Object(debug_session(test_path@)),
{
    let mut config = JsonObject::new();
    config.insert("type".to_string(), JsonValue::String("mock".to_string()));
    config.insert("name".to_string(), JsonValue::String("Debug Test".to_string()));
    config.insert("request".to_string(), JsonValue::String("launch".to_string()));
    config.insert("program".to_string(), JsonValue::String(test_path));
    config.insert("stopOnEntry".to_string(), JsonValue::Bool(true));
    JsonValue::Object(config)
}

} // verus!
