use roborockutil::miiopayloads::{
    extract_json, find_last_closing_bracket, status_command_body, StatusCommand, StatusResponse,
    StatusResponseResult,
};

const GET_STATUS_RESPONSE_STR: &str = "{\"result\":[{
                                            \"msg_ver\":2,
                                            \"msg_seq\":5,
                                            \"state\":8,
                                            \"battery\":100,
                                            \"clean_time\":2154,
                                            \"clean_area\":35692500,
                                            \"error_code\":0,
                                            \"map_present\":1,
                                            \"in_cleaning\":0,
                                            \"in_returning\":0,
                                            \"in_fresh_state\":1,
                                            \"lab_status\":1,
                                            \"fan_power\":60,
                                            \"dnd_enabled\":0
                                    }],
                                    \"id\":5
                                    }\u{0}\u{0}\u{0}";

fn field_u32(value: &serde_json::Value, name: &str) -> u32 {
    u32::try_from(value.get(name).unwrap().as_u64().unwrap()).unwrap()
}

fn field_i32(value: &serde_json::Value, name: &str) -> i32 {
    i32::try_from(value.get(name).unwrap().as_i64().unwrap()).unwrap()
}

fn status_response(text: &str) -> Result<StatusResponse, serde_json::Error> {
    let value: serde_json::Value = serde_json::from_str(text)?;
    let mut result = Vec::new();
    for item in value.get("result").unwrap().as_array().unwrap() {
        result.push(StatusResponseResult {
            msg_ver: field_u32(item, "msg_ver"),
            msg_seq: field_u32(item, "msg_seq"),
            state: field_i32(item, "state"),
            battery: field_u32(item, "battery"),
            clean_time: field_u32(item, "clean_time"),
            clean_area: field_u32(item, "clean_area"),
            error_code: field_i32(item, "error_code"),
            map_present: field_i32(item, "map_present"),
            in_cleaning: field_i32(item, "in_cleaning"),
            in_returning: field_i32(item, "in_returning"),
            in_fresh_state: field_i32(item, "in_fresh_state"),
            lab_status: field_i32(item, "lab_status"),
            fan_power: field_i32(item, "fan_power"),
            dnd_enabled: field_i32(item, "dnd_enabled"),
        });
    }
    Ok(StatusResponse { id: field_u32(&value, "id"), result })
}

#[test]
fn test_get_status_command() {
    let status_cmd = StatusCommand::new(1);
    let serialized = String::from_utf8(status_cmd.to_json()).unwrap();
    assert_eq!(serialized, "{\"id\":1,\"method\":\"get_status\",\"params\":{}}");
}

#[test]
fn test_get_status_response() {
    let end = find_last_closing_bracket(GET_STATUS_RESPONSE_STR);
    let status_response: StatusResponse =
        status_response(&GET_STATUS_RESPONSE_STR[..end]).unwrap();
    let status_response_result = StatusResponseResult {
        msg_ver: 2,
        msg_seq: 5,
        state: 8,
        battery: 100,
        clean_time: 2154,
        clean_area: 35692500,
        error_code: 0,
        map_present: 1,
        in_cleaning: 0,
        in_returning: 0,
        in_fresh_state: 1,
        lab_status: 1,
        fan_power: 60,
        dnd_enabled: 0,
    };
    let status_response_compare = StatusResponse { id: 5, result: vec![status_response_result] };
    assert_eq!(status_response.id, status_response_compare.id);
    assert_eq!(status_response.result[0], status_response_compare.result[0]);
}

#[test]
fn new_command_asks_for_the_status() {
    let cmd = StatusCommand::new(77);
    assert_eq!(cmd.id, 77);
    assert_eq!(cmd.method, "get_status");
}

#[test]
fn command_id_is_written_in_decimal() {
    let text = |id: u32| String::from_utf8(StatusCommand::new(id).to_json()).unwrap();
    assert_eq!(text(0), "{\"id\":0,\"method\":\"get_status\",\"params\":{}}");
    assert_eq!(text(9), "{\"id\":9,\"method\":\"get_status\",\"params\":{}}");
    assert_eq!(text(10), "{\"id\":10,\"method\":\"get_status\",\"params\":{}}");
    assert_eq!(text(1020304), "{\"id\":1020304,\"method\":\"get_status\",\"params\":{}}");
    assert_eq!(text(u32::MAX), "{\"id\":4294967295,\"method\":\"get_status\",\"params\":{}}");
}

#[test]
fn method_name_is_quoted_and_escaped() {
    let mut cmd = StatusCommand::new(3);
    cmd.method = "a\"b\\c\n".to_string();
    let text = String::from_utf8(cmd.to_json()).unwrap();
    assert_eq!(text, "{\"id\":3,\"method\":\"a\\\"b\\\\c\\n\",\"params\":{}}");
    let value: serde_json::Value = serde_json::from_str(&text).unwrap();
    assert_eq!(value.get("method").unwrap().as_str().unwrap(), "a\"b\\c\n");
}

#[test]
fn command_body_takes_the_literal_as_given() {
    let body = status_command_body(12, b"\"x\"");
    assert_eq!(body, b"{\"id\":12,\"method\":\"x\",\"params\":{}}".to_vec());
}

#[test]
fn command_json_is_read_back_by_a_parser() {
    let text = String::from_utf8(StatusCommand::new(123456).to_json()).unwrap();
    let value: serde_json::Value = serde_json::from_str(&text).unwrap();
    assert_eq!(value.get("id").unwrap().as_u64(), Some(123456));
    assert_eq!(value.get("method").unwrap().as_str(), Some("get_status"));
    assert_eq!(value.get("params").unwrap().as_object().unwrap().len(), 0);
}

#[test]
fn last_closing_bracket_ends_the_json() {
    let end = find_last_closing_bracket(GET_STATUS_RESPONSE_STR);
    assert_eq!(end, GET_STATUS_RESPONSE_STR.len() - 3);
    assert_eq!(GET_STATUS_RESPONSE_STR.as_bytes()[end - 1], b'}');
    assert_eq!(&GET_STATUS_RESPONSE_STR[end..], "\u{0}\u{0}\u{0}");
}

#[test]
fn trailing_filler_is_stripped() {
    let text = "{\"result\":[{\"battery\":100}],\"id\":5}\u{0}\u{0}\u{0}";
    let json = extract_json(text);
    assert_eq!(json, "{\"result\":[{\"battery\":100}],\"id\":5}");
    let value: serde_json::Value = serde_json::from_str(json).unwrap();
    assert_eq!(value.get("id").unwrap().as_u64(), Some(5));
    assert_eq!(value.get("result").unwrap().as_array().unwrap().len(), 1);
}

#[test]
fn text_without_closing_bracket_gives_nothing() {
    assert_eq!(find_last_closing_bracket("no json here"), 0);
    assert_eq!(find_last_closing_bracket(""), 0);
    assert_eq!(extract_json("no json here"), "");
    assert_eq!(extract_json(""), "");
    let parsed: Result<serde_json::Value, serde_json::Error> =
        serde_json::from_str(extract_json("{\"id\":5"));
    assert!(parsed.is_err());
}

#[test]
fn closing_bracket_positions() {
    assert_eq!(find_last_closing_bracket("}"), 1);
    assert_eq!(find_last_closing_bracket("}}"), 2);
    assert_eq!(find_last_closing_bracket("}a"), 1);
    assert_eq!(find_last_closing_bracket("a}b}c"), 4);
    assert_eq!(extract_json("a}b}c"), "a}b}");
    assert_eq!(extract_json("{}"), "{}");
}

#[test]
fn closing_bracket_among_longer_characters() {
    let text = "{\"n\":\"\u{e9}\u{4e2d}\u{1f600}\"}\u{e9}\u{1f600}";
    let end = find_last_closing_bracket(text);
    assert_eq!(end, text.rfind('}').unwrap() + 1);
    assert!(text.is_char_boundary(end));
    assert_eq!(extract_json(text), "{\"n\":\"\u{e9}\u{4e2d}\u{1f600}\"}");
    assert_eq!(find_last_closing_bracket("\u{e9}\u{4e2d}"), 0);
}
