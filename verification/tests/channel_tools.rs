use tilde::deployment::channel_tools::{
    channel_tool_name, merge_chunks, split_tool_name, tool_description, ToolFault,
};
use tilde::json::Json;

const CONNECTION: u128 = 0x0123456789abcdef0123456789abcdef;

fn not_found(r: Result<(String, String), ToolFault>) -> String {
    match r {
        Err(ToolFault::NotFound(m)) => m,
        other => panic!("expected a missing tool, got {other:?}"),
    }
}

fn refused(r: Result<Json, ToolFault>) -> String {
    match r {
        Err(ToolFault::InvalidArgument(m)) => m,
        other => panic!("expected a refused chunk, got {other:?}"),
    }
}

fn message(text: &str) -> Json {
    let mut m = Json::object();
    m.set("text", Json::text(text));
    m
}

fn delta(text: &str) -> Json {
    let mut c = Json::object();
    c.set("textDelta", Json::text(text));
    c
}

fn text_of(j: &Json) -> String {
    j.get("text").and_then(|t| t.as_str()).unwrap().to_string()
}

#[test]
fn tool_name_uses_the_simple_form() {
    assert_eq!(
        channel_tool_name(CONNECTION, "send_message"),
        "channel_0123456789abcdef0123456789abcdef.send_message"
    );
}

#[test]
fn tool_name_splits_back() {
    let name = channel_tool_name(CONNECTION, "send_message");
    let (connection, tool) = split_tool_name(&name).unwrap();
    assert_eq!(connection, "0123456789abcdef0123456789abcdef");
    assert_eq!(tool, "send_message");
}

#[test]
fn split_stops_at_the_first_dot() {
    let (connection, tool) = split_tool_name("channel_abc.send.now").unwrap();
    assert_eq!(connection, "abc");
    assert_eq!(tool, "send.now");
}

#[test]
fn split_refuses_other_names() {
    assert_eq!(not_found(split_tool_name("tool_abc.send")), "Unknown channel tool");
    assert_eq!(not_found(split_tool_name("channel_abc")), "Unknown channel tool");
    assert_eq!(not_found(split_tool_name("")), "Unknown channel tool");
}

#[test]
fn description_names_the_connection_and_account() {
    assert_eq!(
        tool_description("Support", "+15550100", "Sends a message"),
        "Support [+15550100]: Sends a message"
    );
}

#[test]
fn chunks_join_the_text_in_order() {
    let chunks = vec![delta(" wor"), delta("ld")];
    let merged = merge_chunks(message("hello"), &chunks).unwrap();
    assert_eq!(text_of(&merged), "hello world");
}

#[test]
fn no_chunks_leave_the_input() {
    let merged = merge_chunks(message("hello"), &vec![]).unwrap();
    assert_eq!(text_of(&merged), "hello");
}

#[test]
fn chunk_with_two_members_is_refused() {
    let mut chunk = delta("x");
    chunk.set("other", Json::text("y"));
    assert_eq!(refused(merge_chunks(message("a"), &vec![chunk])), "Invalid message chunk");
    assert_eq!(refused(merge_chunks(message("a"), &vec![Json::text("x")])), "Invalid message chunk");
}

#[test]
fn chunk_without_text_delta_is_refused() {
    let mut chunk = Json::object();
    chunk.set("text", Json::text("x"));
    assert_eq!(refused(merge_chunks(message("a"), &vec![chunk])), "Expected textDelta");
    let mut chunk = Json::object();
    chunk.set("textDelta", Json::Bool(true));
    assert_eq!(refused(merge_chunks(message("a"), &vec![chunk])), "Expected textDelta");
}

#[test]
fn input_without_text_is_refused() {
    let mut input = Json::object();
    input.set("body", Json::text("x"));
    assert_eq!(refused(merge_chunks(input, &vec![delta("y")])), "Expected text");
}

#[test]
fn first_refused_chunk_decides() {
    let chunks = vec![delta("ok"), Json::text("bad"), delta("later")];
    assert_eq!(refused(merge_chunks(message("a"), &chunks)), "Invalid message chunk");
}
