use solstice::commands::{
    command_outcome, command_request, debug_config, debug_test, run_test, CommandRequest,
};
use solstice::definitions::{Position, Range};
use solstice::documents::{lines, update_file_contents, ContentChange};
use solstice::forge::Forge;
use solstice::json::JsonValue;
use solstice::text::{
    decimal_text, hex_byte_text, is_before, join, parse_u16, same_text, signed_decimal_text,
    starts_with, trim_end,
};

fn range(start: (u32, u32), end: (u32, u32)) -> Range {
    Range {
        start: Position { line: start.0, character: start.1 },
        end: Position { line: end.0, character: end.1 },
    }
}

fn edit(content: &str, at: Option<Range>, text: &str) -> Option<String> {
    let change = ContentChange { range: at, text: text.to_string() };
    update_file_contents(&content.to_string(), &change)
}

#[test]
fn writes_numbers() {
    assert_eq!(decimal_text(0), "0");
    assert_eq!(decimal_text(1907), "1907");
    assert_eq!(decimal_text(u128::MAX), "340282366920938463463374607431768211455");
    assert_eq!(signed_decimal_text(-5), "-5");
    assert_eq!(
        signed_decimal_text(i128::MIN),
        "-170141183460469231731687303715884105728"
    );
    assert_eq!(hex_byte_text(0x0f), "0f");
    assert_eq!(hex_byte_text(0xa7), "a7");
}

#[test]
fn reads_numbers() {
    assert_eq!(parse_u16("0"), Some(0));
    assert_eq!(parse_u16("+256"), Some(256));
    assert_eq!(parse_u16("00008"), Some(8));
    assert_eq!(parse_u16("65535"), Some(65535));
    assert_eq!(parse_u16("65536"), None);
    assert_eq!(parse_u16("99999999999999999999"), None);
    assert_eq!(parse_u16(""), None);
    assert_eq!(parse_u16("+"), None);
    assert_eq!(parse_u16("-1"), None);
    assert_eq!(parse_u16("8 "), None);
    assert_eq!(parse_u16("1_0"), None);
}

#[test]
fn numbers_that_were_written_are_read() {
    for n in [0u16, 9, 10, 255, 4096, 65535] {
        assert_eq!(parse_u16(&decimal_text(n as u128)), Some(n));
    }
}

#[test]
fn joins_and_compares() {
    let parts = vec!["a".to_string(), "b".to_string(), "".to_string()];
    assert_eq!(join(&parts, ", "), "a, b, ");
    assert_eq!(join(&vec![], ", "), "");
    assert!(same_text("x", "x"));
    assert!(!same_text("x", "xy"));
    assert!(starts_with("test_a", "test_"));
    assert!(!starts_with("test", "test_"));
}

#[test]
fn trims_white_space_at_the_end() {
    assert_eq!(trim_end("a b \n\t\r\u{3000}"), "a b");
    assert_eq!(trim_end(" \n"), "");
    assert_eq!(trim_end(" x"), " x");
    assert_eq!(trim_end("x\u{200b}"), "x\u{200b}");
}

#[test]
fn splits_lines() {
    assert_eq!(lines("a\nb\r\n\nc"), vec!["a", "b", "", "c"]);
    assert_eq!(lines("a\n"), vec!["a"]);
    assert_eq!(lines("a\r"), vec!["a\r"]);
    assert!(lines("").is_empty());
}

#[test]
fn edits_inside_a_line() {
    assert_eq!(
        edit("one\ntwo\nthree\n", Some(range((1, 1), (1, 2))), "W"),
        Some("one\ntWo\nthree\n".to_string())
    );
}

#[test]
fn edits_over_several_lines() {
    assert_eq!(
        edit("one\ntwo\nthree\nfour", Some(range((0, 1), (2, 3))), "X\nY"),
        Some("oX\nYee\nfour\n".to_string())
    );
}

#[test]
fn adds_behind_the_last_line() {
    assert_eq!(
        edit("one\n", Some(range((1, 0), (1, 0))), "two"),
        Some("one\ntwo".to_string())
    );
}

#[test]
fn replaces_everything_without_a_range() {
    assert_eq!(edit("one\n", None, "two"), Some("two".to_string()));
}

#[test]
fn refuses_edits_outside_of_a_line() {
    assert_eq!(edit("one\n", Some(range((0, 4), (0, 4))), "x"), None);
    // the second byte of a character
    assert_eq!(edit("\u{e9}\n", Some(range((0, 1), (0, 1))), "x"), None);
    assert_eq!(edit("ab\n", Some(range((0, 0), (0, 3))), "x"), None);
}

#[test]
fn lines_around_an_edit_stay() {
    let content = "alpha\nbeta\ngamma\ndelta\n";
    let after = edit(content, Some(range((1, 2), (2, 2))), "-").unwrap();
    assert_eq!(after, "alpha\nbe-mma\ndelta\n");
    let before = lines(content);
    let now = lines(&after);
    assert_eq!(now[0], before[0]);
    assert_eq!(now[2], before[3]);
}

#[test]
fn edits_normalize_line_ends() {
    assert_eq!(
        edit("a\r\nb", Some(range((0, 1), (0, 1))), ""),
        Some("a\nb\n".to_string())
    );
}

#[test]
fn edits_past_the_text_remove_nothing() {
    // a range that begins behind the last line and one more leaves the lines
    assert_eq!(
        edit("a\nb", Some(range((5, 0), (5, 0))), "x"),
        Some("a\nb\n".to_string())
    );
}

#[test]
fn command_lines() {
    assert_eq!(
        Forge::test("test_a", "test/A.t.sol").text(),
        "test --match-test test_a --match-path test/A.t.sol"
    );
    assert_eq!(
        Forge::debug("test_a", "A.sol", "/tmp/out.json").into_args(),
        vec![
            "test",
            "--debug",
            "--match-test",
            "test_a",
            "--match-path",
            "A.sol",
            "--dump",
            "/tmp/out.json",
            "--ast",
            "--optimizer-runs",
            "0",
            "--optimize",
            "false"
        ]
    );
}

#[test]
fn understands_commands() {
    let arguments = vec![
        JsonValue::String("p".to_string()),
        JsonValue::String("f".to_string()),
    ];
    assert_eq!(
        command_request("sol.test.file", &arguments),
        Some(CommandRequest::Test {
            test_path: "p".to_string(),
            function_name: "f".to_string()
        })
    );
    assert_eq!(
        command_request("sol.debug.file", &arguments),
        Some(CommandRequest::Debug {
            test_path: "p".to_string(),
            function_name: "f".to_string()
        })
    );
    assert_eq!(command_request("sol.other", &vec![]), Some(CommandRequest::Unknown));
    assert_eq!(command_request("sol.test.file", &vec![]), None);
    assert_eq!(
        command_request(
            "sol.test.file",
            &vec![JsonValue::Null, JsonValue::String("f".to_string())]
        ),
        None
    );
}

#[test]
fn judges_commands_by_their_status() {
    assert_eq!(command_outcome(true, vec![1], &vec![b'x']), Ok(vec![1]));
    assert_eq!(
        command_outcome(false, vec![1], &vec![b'n', b'o', 0xff]),
        Err("Forge command failed: no\u{fffd}".to_string())
    );
}

#[test]
fn tells_of_test_runs() {
    let ok = run_test("test --x", &Ok(vec![72, 105]));
    assert_eq!((ok.channel.as_str(), ok.message.as_str()), ("Forge Test", "test --x [72, 105]"));
    let none = run_test("c", &Ok(vec![]));
    assert_eq!(none.message, "c []");
    let failed = run_test("c", &Err("why".to_string()));
    assert_eq!(
        (failed.channel.as_str(), failed.message.as_str()),
        ("Forge Test Error", "c Failed to execute test: why")
    );
    let debugged = debug_test(&Ok(vec![72, 105]));
    assert_eq!((debugged.channel.as_str(), debugged.message.as_str()), ("Forge Test", "Hi"));
    let broken = debug_test(&Err("why".to_string()));
    assert_eq!(
        (broken.channel.as_str(), broken.message.as_str()),
        ("Forge Test Error", " Failed to execute test: why")
    );
}

#[test]
fn configures_a_debugging_session() {
    match debug_config("A.t.sol".to_string()) {
        JsonValue::Object(o) => {
            assert_eq!(o.get("type"), Some(&JsonValue::String("mock".to_string())));
            assert_eq!(o.get("name"), Some(&JsonValue::String("Debug Test".to_string())));
            assert_eq!(o.get("request"), Some(&JsonValue::String("launch".to_string())));
            assert_eq!(o.get("program"), Some(&JsonValue::String("A.t.sol".to_string())));
            assert_eq!(o.get("stopOnEntry"), Some(&JsonValue::Bool(true)));
        }
        _ => panic!("not an object"),
    }
}

#[test]
fn texts_are_ordered_by_their_characters() {
    assert!(is_before("a", "b"));
    assert!(!is_before("b", "a"));
    assert!(is_before("", "a"));
    assert!(is_before("a", "ab"));
    assert!(!is_before("ab", "a"));
    assert!(!is_before("ab", "ab"));
    assert!(is_before("Z", "a"));
    assert!(is_before("z", "\u{e9}"));
}
