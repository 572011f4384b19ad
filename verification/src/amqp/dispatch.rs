//! Which handler a method frame goes to, whether the connection stays
//! open after it, and the channel-class replies.

use vstd::prelude::*;
use crate::amqp::method::{
    CLASS_BASIC, CLASS_CHANNEL, CLASS_CONFIRM, CLASS_CONNECTION, CLASS_EXCHANGE, CLASS_QUEUE, CLASS_TX, METHOD_BASIC_ACK, METHOD_BASIC_CANCEL, METHOD_BASIC_CONSUME, METHOD_BASIC_GET, METHOD_BASIC_NACK, METHOD_BASIC_QOS, METHOD_BASIC_RECOVER, METHOD_BASIC_RECOVER_ASYNC, METHOD_BASIC_REJECT, METHOD_CHANNEL_CLOSE, METHOD_CHANNEL_CLOSE_OK, METHOD_CHANNEL_FLOW, METHOD_CHANNEL_OPEN, METHOD_CONFIRM_SELECT, METHOD_CONNECTION_CLOSE, METHOD_CONNECTION_CLOSE_OK, METHOD_EXCHANGE_BIND, METHOD_EXCHANGE_DECLARE, METHOD_EXCHANGE_DELETE, METHOD_EXCHANGE_UNBIND, METHOD_QUEUE_BIND, METHOD_QUEUE_DECLARE, METHOD_QUEUE_DELETE, METHOD_QUEUE_PURGE, METHOD_QUEUE_UNBIND, METHOD_TX_COMMIT, METHOD_TX_ROLLBACK, METHOD_TX_SELECT,
};
use crate::amqp::types::{from_be16, get_u16};

verus! {

/// The handler a method is dispatched to.
#[derive(Debug, Clone, Copy, PartialEq, Eq, Structural)]
pub enum MethodRoute {
    ConnectionClose,
    ConnectionCloseOk,
    ChannelOpen,
    ChannelClose,
    ChannelCloseOk,
    ChannelFlow,
    ExchangeDeclare,
    ExchangeDelete,
    ExchangeBind,
    ExchangeUnbind,
    QueueDeclare,
    QueueDelete,
    QueuePurge,
    QueueBind,
    QueueUnbind,
    BasicConsume,
    BasicCancel,
    BasicAck,
    BasicReject,
    BasicNack,
    BasicGet,
    BasicQos,
    BasicRecover,
    TxSelect,
    TxCommit,
    TxRollback,
    ConfirmSelect,
    /// A method the broker does not handle; it is ignored.
    Unhandled,
}

/// The handler for a class and method identifier.
pub open spec fn method_route(class_id: u16, method_id: u16) -> MethodRoute {
    if class_id == CLASS_CONNECTION {
        if method_id == METHOD_CONNECTION_CLOSE {
            MethodRoute::ConnectionClose
        } else if method_id == METHOD_CONNECTION_CLOSE_OK {
            MethodRoute::ConnectionCloseOk
        } else {
            MethodRoute::Unhandled
        }
    } else if class_id == CLASS_CHANNEL {
        if method_id == METHOD_CHANNEL_OPEN {
            MethodRoute::ChannelOpen
        } else if method_id == METHOD_CHANNEL_CLOSE {
            MethodRoute::ChannelClose
        } else if method_id == METHOD_CHANNEL_CLOSE_OK {
            MethodRoute::ChannelCloseOk
        } else if method_id == METHOD_CHANNEL_FLOW {
            MethodRoute::ChannelFlow
        } else {
            MethodRoute::Unhandled
        }
    } else if class_id == CLASS_EXCHANGE {
        if method_id == METHOD_EXCHANGE_DECLARE {
            MethodRoute::ExchangeDeclare
        } else if method_id == METHOD_EXCHANGE_DELETE {
            MethodRoute::ExchangeDelete
        } else if method_id == METHOD_EXCHANGE_BIND {
            MethodRoute::ExchangeBind
        } else if method_id == METHOD_EXCHANGE_UNBIND {
            MethodRoute::ExchangeUnbind
        } else {
            MethodRoute::Unhandled
        }
    } else if class_id == CLASS_QUEUE {
        if method_id == METHOD_QUEUE_DECLARE {
            MethodRoute::QueueDeclare
        } else if method_id == METHOD_QUEUE_DELETE {
            MethodRoute::QueueDelete
        } else if method_id == METHOD_QUEUE_PURGE {
            MethodRoute::QueuePurge
        } else if method_id == METHOD_QUEUE_BIND {
            MethodRoute::QueueBind
        } else if method_id == METHOD_QUEUE_UNBIND {
            MethodRoute::QueueUnbind
        } else {
            MethodRoute::Unhandled
        }
    } else if class_id == CLASS_BASIC {
        if method_id == METHOD_BASIC_CONSUME {
            MethodRoute::BasicConsume
        } else if method_id == METHOD_BASIC_CANCEL {
            MethodRoute::BasicCancel
        } else if method_id == METHOD_BASIC_ACK {
            MethodRoute::BasicAck
        } else if method_id == METHOD_BASIC_REJECT {
            MethodRoute::BasicReject
        } else if method_id == METHOD_BASIC_NACK {
            MethodRoute::BasicNack
        } else if method_id == METHOD_BASIC_GET {
            MethodRoute::BasicGet
        } else if method_id == METHOD_BASIC_QOS {
            MethodRoute::BasicQos
        } else if method_id == METHOD_BASIC_RECOVER || method_id == METHOD_BASIC_RECOVER_ASYNC {
            MethodRoute::BasicRecover
        } else {
            MethodRoute::Unhandled
        }
    } else if class_id == CLASS_TX {
        if method_id == METHOD_TX_SELECT {
            MethodRoute::TxSelect
        } else if method_id == METHOD_TX_COMMIT {
            MethodRoute::TxCommit
        } else if method_id == METHOD_TX_ROLLBACK {
            MethodRoute::TxRollback
        } else {
            MethodRoute::Unhandled
        }
    } else if class_id == CLASS_CONFIRM && method_id == METHOD_CONFIRM_SELECT {
        MethodRoute::ConfirmSelect
    } else {
        MethodRoute::Unhandled
    }
}

/// Finds the handler for a method.
pub fn route_method(class_id: u16, method_id: u16) -> (r: MethodRoute)
    ensures
        r == method_route(class_id, method_id),
{
    if class_id == CLASS_CONNECTION {
        if method_id == METHOD_CONNECTION_CLOSE {
            MethodRoute::ConnectionClose
        } else if method_id == METHOD_CONNECTION_CLOSE_OK {
            MethodRoute::ConnectionCloseOk
        } else {
            MethodRoute::Unhandled
        }
    } else if class_id == CLASS_CHANNEL {
        if method_id == METHOD_CHANNEL_OPEN {
            MethodRoute::ChannelOpen
        } else if method_id == METHOD_CHANNEL_CLOSE {
            MethodRoute::ChannelClose
        } else if method_id == METHOD_CHANNEL_CLOSE_OK {
            MethodRoute::ChannelCloseOk
        } else if method_id == METHOD_CHANNEL_FLOW {
            MethodRoute::ChannelFlow
        } else {
            MethodRoute::Unhandled
        }
    } else if class_id == CLASS_EXCHANGE {
        if method_id == METHOD_EXCHANGE_DECLARE {
            MethodRoute::ExchangeDeclare
        } else if method_id == METHOD_EXCHANGE_DELETE {
            MethodRoute::ExchangeDelete
        } else if method_id == METHOD_EXCHANGE_BIND {
            MethodRoute::ExchangeBind
        } else if method_id == METHOD_EXCHANGE_UNBIND {
            MethodRoute::ExchangeUnbind
        } else {
            MethodRoute::Unhandled
        }
    } else if class_id == CLASS_QUEUE {
        if method_id == METHOD_QUEUE_DECLARE {
            MethodRoute::QueueDeclare
        } else if method_id == METHOD_QUEUE_DELETE {
            MethodRoute::QueueDelete
        } else if method_id == METHOD_QUEUE_PURGE {
            MethodRoute::QueuePurge
        } else if method_id == METHOD_QUEUE_BIND {
            MethodRoute::QueueBind
        } else if method_id == METHOD_QUEUE_UNBIND {
            MethodRoute::QueueUnbind
        } else {
            MethodRoute::Unhandled
        }
    } else if class_id == CLASS_BASIC {
        if method_id == METHOD_BASIC_CONSUME {
            MethodRoute::BasicConsume
        } else if method_id == METHOD_BASIC_CANCEL {
            MethodRoute::BasicCancel
        } else if method_id == METHOD_BASIC_ACK {
            MethodRoute::BasicAck
        } else if method_id == METHOD_BASIC_REJECT {
            MethodRoute::BasicReject
        } else if method_id == METHOD_BASIC_NACK {
            MethodRoute::BasicNack
        } else if method_id == METHOD_BASIC_GET {
            MethodRoute::BasicGet
        } else if method_id == METHOD_BASIC_QOS {
            MethodRoute::BasicQos
        } else if method_id == METHOD_BASIC_RECOVER || method_id == METHOD_BASIC_RECOVER_ASYNC {
            MethodRoute::BasicRecover
        } else {
            MethodRoute::Unhandled
        }
    } else if class_id == CLASS_TX {
        if method_id == METHOD_TX_SELECT {
            MethodRoute::TxSelect
        } else if method_id == METHOD_TX_COMMIT {
            MethodRoute::TxCommit
        } else if method_id == METHOD_TX_ROLLBACK {
            MethodRoute::TxRollback
        } else {
            MethodRoute::Unhandled
        }
    } else if class_id == CLASS_CONFIRM && method_id == METHOD_CONFIRM_SELECT {
        MethodRoute::ConfirmSelect
    } else {
        MethodRoute::Unhandled
    }
}

/// Whether the connection's frame loop goes on after a method: it stops
/// only after `Connection.Close` (answered with `Close-Ok`) and
/// `Connection.Close-Ok`.
pub open spec fn keeps_connection(route: MethodRoute) -> bool {
    route != MethodRoute::ConnectionClose && route != MethodRoute::ConnectionCloseOk
}

/// Tells whether the connection stays open after a method.
pub fn stays_open(route: MethodRoute) -> (r: bool)
    ensures
        r == keeps_connection(route),
{
    match route {
        MethodRoute::ConnectionClose | MethodRoute::ConnectionCloseOk => false,
        _ => true,
    }
}

/// Every method but the two that end a connection keeps it open.
pub proof fn lemma_only_close_ends_connection(class_id: u16, method_id: u16)
    ensures
        !keeps_connection(method_route(class_id, method_id)) <==> class_id == CLASS_CONNECTION && (
        method_id == METHOD_CONNECTION_CLOSE || method_id == METHOD_CONNECTION_CLOSE_OK),
{
}

// ─── Channel class ────────────────────────────────────────────────────

/// The state `Channel.Flow` asks for: its first octet non-zero, and
/// active when the octet is missing.
pub open spec fn flow_active_requested(args: Seq<u8>) -> bool {
    if args.len() == 0 {
        true
    } else {
        args[0] != 0
    }
}

/// Reads the state `Channel.Flow` asks for.
pub fn flow_requested(args: &[u8]) -> (r: bool)
    ensures
        r == flow_active_requested(args@),
{
    if args.len() == 0 {
        true
    } else {
        args[0] != 0
    }
}

/// Builds `Channel.Flow-Ok`: one octet, 1 when active.
pub fn build_flow_ok(active: bool) -> (r: Vec<u8>)
    ensures
        r@ == seq![if active { 1u8 } else { 0u8 }],
{
    let mut args: Vec<u8> = Vec::new();
    args.push(if active { 1u8 } else { 0u8 });
    assert(args@ =~= seq![if active { 1u8 } else { 0u8 }]);
    args
}

/// Builds `Channel.Open-Ok`: an empty long string.
pub fn build_channel_open_ok() -> (r: Vec<u8>)
    ensures
        r@ == seq![0u8, 0u8, 0u8, 0u8],
{
    let mut args: Vec<u8> = Vec::new();
    args.push(0);
    args.push(0);
    args.push(0);
    args.push(0);
    assert(args@ =~= seq![0u8, 0u8, 0u8, 0u8]);
    args
}

/// The reply code a client's `Channel.Close` carries, when it carries at
/// least code and the start of the text.
pub fn channel_close_code(args: &[u8]) -> (r: Option<u16>)
    ensures
        args@.len() >= 4 ==> r == Some(from_be16(args@.subrange(0, 2))),
        args@.len() < 4 ==> r is None,
{
    if args.len() >= 4 {
        Some(get_u16(args, 0))
    } else {
        None
    }
}

} // verus!
