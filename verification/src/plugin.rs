//! What the plugin answers WeeChat and what it prints when something goes
//! wrong inside it.
use vstd::prelude::*;

verus! {

/// WeeChat's return code for success (`WEECHAT_RC_OK`).
pub const WEECHAT_RC_OK: i32 = 0;

/// WeeChat's return code for failure (`WEECHAT_RC_ERROR`).
pub const WEECHAT_RC_ERROR: i32 = -1;

/// The code the plugin's init and end entry points return for the result
/// of the plugin's own init or end block.
pub fn plugin_return_code(result: bool) -> (r: i32)
    ensures
        r == (if result { WEECHAT_RC_OK } else { WEECHAT_RC_ERROR }),
{
    if result {
        WEECHAT_RC_OK
    } else {
        WEECHAT_RC_ERROR
    }
}

/// The line printed in the core buffer before the plugin gives up on an
/// internal error; the plugin then panics with `message`.
pub fn really_bad(message: String) -> (r: String)
    ensures
        r@ == "weecord: Internal error - "@ + message@,
{
    String::from_str("weecord: Internal error - ").concat(message.as_str())
}

/// The line printed when a panic was caught at the boundary with WeeChat,
/// given the panic's message when it carried a `String`.
pub fn fatal_error_message(payload: Option<&str>) -> (r: String)
    ensures
        r@ == "weecord: Fatal error (caught) - "@ + match payload {
            Some(m) => m@,
            None => "unknown error"@,
        },
{
    let msg = match payload {
        Some(m) => m,
        None => "unknown error",
    };
    String::from_str("weecord: Fatal error (caught) - ").concat(msg)
}

} // verus!
