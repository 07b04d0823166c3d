//! JSON bodies carried inside MiIO frames.

use vstd::prelude::*;
use vstd::string::*;
use vstd::utf8::*;

verus! {

/// The byte that encodes `}`. In UTF-8 it occurs only as that character.
pub const CLOSING_BRACKET: u8 = 0x7d;

/// The method name of the status query.
pub const METHOD_GET_STATUS_VAL: &'static str = "get_status";

/// The empty parameter object `{}`.
#[derive(Debug, Clone, Copy, PartialEq, Eq)]
pub struct EmptyJsonObject {}

/// The status query: `{"id":..,"method":"get_status","params":{}}`.
#[derive(Debug, Clone, PartialEq, Eq)]
pub struct StatusCommand {
    /// Chosen by the caller; the device repeats it in its reply.
    pub id: u32,
    pub method: String,
    pub params: EmptyJsonObject,
}

/// The reply to a status query.
#[derive(Debug, Clone, PartialEq, Eq)]
pub struct StatusResponse {
    /// The id of the query answered.
    pub id: u32,
    pub result: Vec<StatusResponseResult>,
}

/// The telemetry of the vacuum. The fields are independent of each other.
#[derive(Debug, Clone, Copy, PartialEq, Eq)]
pub struct StatusResponseResult {
    pub msg_ver: u32,
    pub msg_seq: u32,
    pub state: i32,
    pub battery: u32,
    pub clean_time: u32,
    pub clean_area: u32,
    pub error_code: i32,
    pub map_present: i32,
    pub in_cleaning: i32,
    pub in_returning: i32,
    pub in_fresh_state: i32,
    pub lab_status: i32,
    pub fan_power: i32,
    pub dnd_enabled: i32,
}

/// The JSON string literal that stands for `text`: quoted, with the
/// characters that JSON does not take as they are escaped.
pub uninterp spec fn json_string(text: Seq<char>) -> Seq<u8>;

/// Calls `serde_json::to_vec` on a string. Trusted: the bytes returned are
/// the JSON string literal for `text`, a function of `text` alone. Writing a
/// string into a vector has no way to fail, so the call returns `Ok`.
#[verifier::external_body]
fn json_quote(text: &str) -> (literal: Vec<u8>)
    ensures
        literal@ == json_string(text@),
{
    serde_json::to_vec(text).unwrap()
}

/// The decimal digits of `n`, in ASCII, without leading zeros.
pub open spec fn decimal(n: nat) -> Seq<u8>
    decreases n,
{
    if n < 10 {
        seq![(0x30 + n) as u8]
    } else {
        decimal(n / 10).push((0x30 + n % 10) as u8)
    }
}

/// The body of a status query with the given id, `method` being the JSON
/// string literal of its method name. Keys come in alphabetical order and
/// nothing separates the tokens.
pub open spec fn status_command_json(id: u32, method: Seq<u8>) -> Seq<u8> {
    "{\"id\":".spec_bytes() + decimal(id as nat) + ",\"method\":".spec_bytes() + method
        + ",\"params\":{}}".spec_bytes()
}

/// The length of the shortest prefix of `bytes` that holds its last `}`, or 0
/// when it holds none.
pub open spec fn json_end(bytes: Seq<u8>) -> int
    decreases bytes.len(),
{
    if bytes.len() == 0 {
        0
    } else if bytes.last() == CLOSING_BRACKET {
        bytes.len() as int
    } else {
        json_end(bytes.drop_last())
    }
}

/// `json_end` is the one position that follows a `}` and has none after it.
pub proof fn lemma_json_end(bytes: Seq<u8>, end: int)
    requires
        0 <= end <= bytes.len(),
        end > 0 ==> bytes[end - 1] == CLOSING_BRACKET,
        forall|j: int| end <= j < bytes.len() ==> bytes[j] != CLOSING_BRACKET,
    ensures
        json_end(bytes) == end,
    decreases bytes.len(),
{
    if bytes.len() > 0 && bytes.last() != CLOSING_BRACKET {
        lemma_json_end(bytes.drop_last(), end);
    }
}

fn push_decimal(out: &mut Vec<u8>, n: u32)
    ensures
        final(out)@ == old(out)@ + decimal(n as nat),
    decreases n,
{
    if n >= 10 {
        push_decimal(out, n / 10);
    }
    out.push(0x30 + (n % 10) as u8);
    assert(out@ =~= old(out)@ + decimal(n as nat));
}

/// Write the body of a status query, given the JSON string literal of its
/// method name.
pub fn status_command_body(id: u32, method: &[u8]) -> (body: Vec<u8>)
    ensures
        body@ == status_command_json(id, method@),
{
    let mut body: Vec<u8> = Vec::new();
    body.extend_from_slice("{\"id\":".as_bytes());
    push_decimal(&mut body, id);
    body.extend_from_slice(",\"method\":".as_bytes());
    body.extend_from_slice(method);
    body.extend_from_slice(",\"params\":{}}".as_bytes());
    assert(body@ =~= status_command_json(id, method@));
    body
}

impl StatusCommand {
    /// The status query with the given id.
    pub fn new(cmdid: u32) -> (cmd: StatusCommand)
        ensures
            cmd.id == cmdid,
            cmd.method@ == METHOD_GET_STATUS_VAL@,
    {
        StatusCommand {
            id: cmdid,
            method: METHOD_GET_STATUS_VAL.to_owned(),
            params: EmptyJsonObject {  },
        }
    }

    /// The command as JSON text, the way it goes into a frame.
    pub fn to_json(&self) -> (body: Vec<u8>)
        ensures
            body@ == status_command_json(self.id, json_string(self.method@)),
    {
        let method = json_quote(self.method.as_str());
        status_command_body(self.id, method.as_slice())
    }
}

/// Return the length of the shortest prefix of `buf` that holds its last `}`,
/// or 0 when `buf` holds none.
///
/// Devices pad their replies with filler bytes after the JSON text, which a
/// JSON parser refuses; the prefix of this length is the text without them.
pub fn find_last_closing_bracket(buf: &str) -> (end: usize)
    ensures
        end <= buf.spec_bytes().len(),
        end > 0 ==> buf.spec_bytes()[end - 1] == CLOSING_BRACKET,
        forall|j: int| end <= j < buf.spec_bytes().len() ==> buf.spec_bytes()[j] != CLOSING_BRACKET,
        end == json_end(buf.spec_bytes()),
{
    let bytes = buf.as_bytes();
    let mut end: usize = bytes.len();
    while end > 0 && bytes[end - 1] != CLOSING_BRACKET
        invariant
            end <= bytes@.len(),
            forall|j: int| end <= j < bytes@.len() ==> bytes@[j] != CLOSING_BRACKET,
        decreases end,
    {
        end = end - 1;
    }
    proof {
        lemma_json_end(bytes@, end as int);
    }
    end
}

/// A position right after a `}` falls between two characters.
proof fn lemma_boundary_after_bracket(bytes: Seq<u8>, end: int)
    requires
        valid_utf8(bytes),
        0 <= end <= bytes.len(),
        end > 0 ==> bytes[end - 1] == CLOSING_BRACKET,
    ensures
        is_char_boundary(bytes, end),
{
    is_char_boundary_start_end_of_seq(bytes);
    if 0 < end < bytes.len() {
        is_char_boundary_iff_not_is_continuation_byte(bytes, end - 1);
        valid_utf8_split(bytes, end - 1);
        let rest = bytes.subrange(end - 1, bytes.len() as int);
        assert(rest[0] == CLOSING_BRACKET);
        assert(valid_utf8(rest));
        assert(length_of_first_scalar(rest) == 1);
        let after = pop_first_scalar(rest);
        assert(valid_utf8(after));
        assert(after.len() > 0);
        assert(after[0] == bytes[end]);
        assert(valid_first_scalar(after));
        is_char_boundary_iff_not_is_continuation_byte(bytes, end);
    }
}

/// The JSON text of a reply: `text` up to and including its last `}`,
/// without what follows. Where `text` holds no `}` the result is empty, and
/// will not parse.
pub fn extract_json(text: &str) -> (json: &str)
    ensures
        json.spec_bytes() == text.spec_bytes().take(json_end(text.spec_bytes())),
{
    let end = find_last_closing_bracket(text);
    proof {
        encode_utf8_valid_utf8(text@);
        lemma_boundary_after_bracket(text.spec_bytes(), end as int);
    }
    let (json, _) = text.split_at(end);
    json
}

} // verus!
