//! Small helpers of the server's protocol.

use vstd::prelude::*;
use crate::text::{json_quoted, json_string_literal};

verus! {

/// The JSON object of an error command, given its two fields already
/// written as JSON string literals.
pub fn error_object(quoted_command: &str, quoted_msg: &str) -> (r: String)
    ensures
        r@ == "{\"command\":"@ + quoted_command@ + ",\"msg\":"@ + quoted_msg@ + "}"@,
{
    let r = "{\"command\":".to_owned();
    let r = r.concat(quoted_command);
    let r = r.concat(",\"msg\":");
    let r = r.concat(quoted_msg);
    r.concat("}")
}

/// The JSON text of an error command carrying `msg`, as a client expects
/// it: `{"command":"error","msg":...}`.
pub fn send_error(msg: &str) -> (r: String)
    ensures
        r@ == "{\"command\":"@ + json_quoted("error"@) + ",\"msg\":"@ + json_quoted(msg@) + "}"@,
{
    let command = match json_string_literal("error") {
        Ok(q) => q,
        Err(_) => return String::new(),
    };
    let quoted = match json_string_literal(msg) {
        Ok(q) => q,
        Err(_) => return String::new(),
    };
    error_object(command.as_str(), quoted.as_str())
}

/// The string held by a JSON value: `value` is that string if the value is
/// one; otherwise the result is an error that shows the value as `shown`.
pub fn json_string(value: Option<&str>, shown: &str) -> (r: Result<String, String>)
    ensures
        value is Some ==> (r matches Ok(s) && s@ == value->0@),
        value is None ==> (r matches Err(e) && e@ == shown@ + " is not a string!"@),
{
    match value {
        Some(s) => Ok(s.to_owned()),
        None => Err(shown.to_owned().concat(" is not a string!")),
    }
}

} // verus!
