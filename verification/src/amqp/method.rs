//! AMQP 0-9-1 class and method identifiers and reply codes.

use vstd::prelude::*;

verus! {

pub const CLASS_CONNECTION: u16 = 10;
pub const CLASS_CHANNEL: u16 = 20;
pub const CLASS_EXCHANGE: u16 = 40;
pub const CLASS_QUEUE: u16 = 50;
pub const CLASS_BASIC: u16 = 60;
pub const CLASS_CONFIRM: u16 = 85;
pub const CLASS_TX: u16 = 90;

pub const METHOD_CONNECTION_START: u16 = 10;
pub const METHOD_CONNECTION_START_OK: u16 = 11;
pub const METHOD_CONNECTION_SECURE: u16 = 20;
pub const METHOD_CONNECTION_SECURE_OK: u16 = 21;
pub const METHOD_CONNECTION_TUNE: u16 = 30;
pub const METHOD_CONNECTION_TUNE_OK: u16 = 31;
pub const METHOD_CONNECTION_OPEN: u16 = 40;
pub const METHOD_CONNECTION_OPEN_OK: u16 = 41;
pub const METHOD_CONNECTION_CLOSE: u16 = 50;
pub const METHOD_CONNECTION_CLOSE_OK: u16 = 51;

pub const METHOD_CHANNEL_OPEN: u16 = 10;
pub const METHOD_CHANNEL_OPEN_OK: u16 = 11;
pub const METHOD_CHANNEL_FLOW: u16 = 20;
pub const METHOD_CHANNEL_FLOW_OK: u16 = 21;
pub const METHOD_CHANNEL_CLOSE: u16 = 40;
pub const METHOD_CHANNEL_CLOSE_OK: u16 = 41;

pub const METHOD_EXCHANGE_DECLARE: u16 = 10;
pub const METHOD_EXCHANGE_DECLARE_OK: u16 = 11;
pub const METHOD_EXCHANGE_DELETE: u16 = 20;
pub const METHOD_EXCHANGE_DELETE_OK: u16 = 21;
pub const METHOD_EXCHANGE_BIND: u16 = 30;
pub const METHOD_EXCHANGE_BIND_OK: u16 = 31;
pub const METHOD_EXCHANGE_UNBIND: u16 = 50;
pub const METHOD_EXCHANGE_UNBIND_OK: u16 = 51;

pub const METHOD_QUEUE_DECLARE: u16 = 10;
pub const METHOD_QUEUE_DECLARE_OK: u16 = 11;
pub const METHOD_QUEUE_BIND: u16 = 20;
pub const METHOD_QUEUE_BIND_OK: u16 = 21;
pub const METHOD_QUEUE_PURGE: u16 = 30;
pub const METHOD_QUEUE_PURGE_OK: u16 = 31;
pub const METHOD_QUEUE_DELETE: u16 = 40;
pub const METHOD_QUEUE_DELETE_OK: u16 = 41;
pub const METHOD_QUEUE_UNBIND: u16 = 50;
pub const METHOD_QUEUE_UNBIND_OK: u16 = 51;

pub const METHOD_BASIC_QOS: u16 = 10;
pub const METHOD_BASIC_QOS_OK: u16 = 11;
pub const METHOD_BASIC_CONSUME: u16 = 20;
pub const METHOD_BASIC_CONSUME_OK: u16 = 21;
pub const METHOD_BASIC_CANCEL: u16 = 30;
pub const METHOD_BASIC_CANCEL_OK: u16 = 31;
pub const METHOD_BASIC_PUBLISH: u16 = 40;
pub const METHOD_BASIC_RETURN: u16 = 50;
pub const METHOD_BASIC_DELIVER: u16 = 60;
pub const METHOD_BASIC_GET: u16 = 70;
pub const METHOD_BASIC_GET_OK: u16 = 71;
pub const METHOD_BASIC_GET_EMPTY: u16 = 72;
pub const METHOD_BASIC_ACK: u16 = 80;
pub const METHOD_BASIC_REJECT: u16 = 90;
pub const METHOD_BASIC_RECOVER_ASYNC: u16 = 100;
pub const METHOD_BASIC_RECOVER: u16 = 110;
pub const METHOD_BASIC_RECOVER_OK: u16 = 111;
pub const METHOD_BASIC_NACK: u16 = 120;

pub const METHOD_CONFIRM_SELECT: u16 = 10;
pub const METHOD_CONFIRM_SELECT_OK: u16 = 11;

pub const METHOD_TX_SELECT: u16 = 10;
pub const METHOD_TX_SELECT_OK: u16 = 11;
pub const METHOD_TX_COMMIT: u16 = 20;
pub const METHOD_TX_COMMIT_OK: u16 = 21;
pub const METHOD_TX_ROLLBACK: u16 = 30;
pub const METHOD_TX_ROLLBACK_OK: u16 = 31;

pub const REPLY_SUCCESS: u16 = 200;
pub const CONTENT_TOO_LARGE: u16 = 311;
pub const NO_ROUTE: u16 = 312;
pub const NO_CONSUMERS: u16 = 313;
pub const CONNECTION_FORCED: u16 = 320;
pub const INVALID_PATH: u16 = 402;
pub const ACCESS_REFUSED: u16 = 403;
pub const NOT_FOUND: u16 = 404;
pub const RESOURCE_LOCKED: u16 = 405;
pub const PRECONDITION_FAILED: u16 = 406;
pub const FRAME_ERROR: u16 = 501;
pub const SYNTAX_ERROR: u16 = 502;
pub const COMMAND_INVALID: u16 = 503;
pub const CHANNEL_ERROR: u16 = 504;
pub const UNEXPECTED_FRAME: u16 = 505;
pub const RESOURCE_ERROR: u16 = 506;
pub const NOT_ALLOWED: u16 = 530;
pub const NOT_IMPLEMENTED: u16 = 540;
pub const INTERNAL_ERROR: u16 = 541;

/// The reply codes after which the whole connection, not only the channel,
/// is closed.
pub open spec fn connection_error_code(code: u16) -> bool {
    code == CONNECTION_FORCED || code == INVALID_PATH || code == FRAME_ERROR
        || code == SYNTAX_ERROR || code == COMMAND_INVALID || code == CHANNEL_ERROR
        || code == UNEXPECTED_FRAME || code == RESOURCE_ERROR || code == NOT_ALLOWED
        || code == NOT_IMPLEMENTED || code == INTERNAL_ERROR
}

/// Tells whether `code` is a connection-level error.
pub fn is_connection_error(code: u16) -> (r: bool)
    ensures
        r == connection_error_code(code),
{
    code == CONNECTION_FORCED || code == INVALID_PATH || code == FRAME_ERROR
        || code == SYNTAX_ERROR || code == COMMAND_INVALID || code == CHANNEL_ERROR
        || code == UNEXPECTED_FRAME || code == RESOURCE_ERROR || code == NOT_ALLOWED
        || code == NOT_IMPLEMENTED || code == INTERNAL_ERROR
}

/// The symbolic name of a reply code, `"UNKNOWN"` for codes outside the table.
pub open spec fn reply_text_of(code: u16) -> Seq<char> {
    if code == REPLY_SUCCESS { "REPLY-SUCCESS"@ }
    else if code == CONTENT_TOO_LARGE { "CONTENT-TOO-LARGE"@ }
    else if code == NO_ROUTE { "NO-ROUTE"@ }
    else if code == NO_CONSUMERS { "NO-CONSUMERS"@ }
    else if code == CONNECTION_FORCED { "CONNECTION-FORCED"@ }
    else if code == INVALID_PATH { "INVALID-PATH"@ }
    else if code == ACCESS_REFUSED { "ACCESS-REFUSED"@ }
    else if code == NOT_FOUND { "NOT-FOUND"@ }
    else if code == RESOURCE_LOCKED { "RESOURCE-LOCKED"@ }
    else if code == PRECONDITION_FAILED { "PRECONDITION-FAILED"@ }
    else if code == FRAME_ERROR { "FRAME-ERROR"@ }
    else if code == SYNTAX_ERROR { "SYNTAX-ERROR"@ }
    else if code == COMMAND_INVALID { "COMMAND-INVALID"@ }
    else if code == CHANNEL_ERROR { "CHANNEL-ERROR"@ }
    else if code == UNEXPECTED_FRAME { "UNEXPECTED-FRAME"@ }
    else if code == RESOURCE_ERROR { "RESOURCE-ERROR"@ }
    else if code == NOT_ALLOWED { "NOT-ALLOWED"@ }
    else if code == NOT_IMPLEMENTED { "NOT-IMPLEMENTED"@ }
    else if code == INTERNAL_ERROR { "INTERNAL-ERROR"@ }
    else { "UNKNOWN"@ }
}

/// Returns the symbolic name of a reply code.
pub fn reply_text(code: u16) -> (r: &'static str)
    ensures
        r@ == reply_text_of(code),
{
    match code {
        REPLY_SUCCESS => "REPLY-SUCCESS",
        CONTENT_TOO_LARGE => "CONTENT-TOO-LARGE",
        NO_ROUTE => "NO-ROUTE",
        NO_CONSUMERS => "NO-CONSUMERS",
        CONNECTION_FORCED => "CONNECTION-FORCED",
        INVALID_PATH => "INVALID-PATH",
        ACCESS_REFUSED => "ACCESS-REFUSED",
        NOT_FOUND => "NOT-FOUND",
        RESOURCE_LOCKED => "RESOURCE-LOCKED",
        PRECONDITION_FAILED => "PRECONDITION-FAILED",
        FRAME_ERROR => "FRAME-ERROR",
        SYNTAX_ERROR => "SYNTAX-ERROR",
        COMMAND_INVALID => "COMMAND-INVALID",
        CHANNEL_ERROR => "CHANNEL-ERROR",
        UNEXPECTED_FRAME => "UNEXPECTED-FRAME",
        RESOURCE_ERROR => "RESOURCE-ERROR",
        NOT_ALLOWED => "NOT-ALLOWED",
        NOT_IMPLEMENTED => "NOT-IMPLEMENTED",
        INTERNAL_ERROR => "INTERNAL-ERROR",
        _ => "UNKNOWN",
    }
}

} // verus!
