//! Per-channel delivery state and the operations a transaction buffers.

use vstd::prelude::*;
use crate::amqp::adapter::{ChannelMeta, ConnectionMeta};

verus! {

/// Per-channel state: prefetch limit, deliveries not yet acknowledged,
/// confirm mode, the next delivery tag, and flow control.
#[derive(Debug, Clone)]
pub struct ChannelState {
    pub id: u16,
    pub prefetch_count: u16,
    pub unacked_count: u16,
    pub confirm_mode: bool,
    pub next_delivery_tag: u64,
    pub flow_active: bool,
}

/// Whether a channel may take another delivery: flow must be active, and
/// a prefetch limit (zero means none) must not be reached.
pub open spec fn may_deliver(flow_active: bool, prefetch_count: u16, unacked_count: u16) -> bool {
    flow_active && (prefetch_count == 0 || unacked_count < prefetch_count)
}

impl ChannelState {
    /// A fresh channel: no prefetch limit, nothing unacknowledged, confirm
    /// mode off, delivery tags from 1, flow active.
    pub fn new(id: u16) -> (r: Self)
        ensures
            r.id == id,
            r.prefetch_count == 0,
            r.unacked_count == 0,
            !r.confirm_mode,
            r.next_delivery_tag == 1,
            r.flow_active,
    {
        ChannelState {
            id,
            prefetch_count: 0,
            unacked_count: 0,
            confirm_mode: false,
            next_delivery_tag: 1,
            flow_active: true,
        }
    }

    /// Whether this channel may take another delivery.
    pub fn can_deliver(&self) -> (r: bool)
        ensures
            r == may_deliver(self.flow_active, self.prefetch_count, self.unacked_count),
    {
        if !self.flow_active {
            return false;
        }
        self.prefetch_count == 0 || self.unacked_count < self.prefetch_count
    }
}

/// Stopping the flow of a channel stops its deliveries, whatever its
/// prefetch state.
pub proof fn lemma_flow_overrides_prefetch(prefetch_count: u16, unacked_count: u16)
    ensures
        !may_deliver(false, prefetch_count, unacked_count),
{
}

/// A channel without a prefetch limit and with flow active always takes
/// deliveries.
pub proof fn lemma_no_prefetch_limit(unacked_count: u16)
    ensures
        may_deliver(true, 0, unacked_count),
{
}

/// An operation buffered inside a transaction until it commits or rolls
/// back.
#[derive(Debug, Clone)]
pub enum PendingOp {
    Publish { exchange: String, routing_key: String, headers: Vec<u8>, body: Vec<u8> },
    Ack { msg_id: u64 },
}

/// A channel as `ChannelState::new` makes it.
pub open spec fn fresh_channel(id: u16) -> ChannelState {
    ChannelState {
        id,
        prefetch_count: 0,
        unacked_count: 0,
        confirm_mode: false,
        next_delivery_tag: 1,
        flow_active: true,
    }
}

/// The position of the first channel numbered `id` at or after `i`, or
/// `chs.len()`.
pub open spec fn channel_pos_from(chs: Seq<ChannelState>, id: u16, i: int) -> int
    decreases chs.len() - i,
{
    if i < 0 || i >= chs.len() {
        chs.len() as int
    } else if chs[i].id == id {
        i
    } else {
        channel_pos_from(chs, id, i + 1)
    }
}

/// The position of the channel numbered `id`, or `chs.len()`.
pub open spec fn channel_pos(chs: Seq<ChannelState>, id: u16) -> int {
    channel_pos_from(chs, id, 0)
}

/// Whether no two channels share a number.
pub open spec fn distinct_channels(chs: Seq<ChannelState>) -> bool {
    forall|i: int, j: int| 0 <= i < j < chs.len() ==> chs[i].id != chs[j].id
}

/// The position of a channel is in range, holds that channel, and no
/// earlier channel from `i` on has its number; `chs.len()` means there is
/// none.
proof fn lemma_channel_pos_from(chs: Seq<ChannelState>, id: u16, i: int)
    requires
        0 <= i <= chs.len(),
    ensures
        i <= channel_pos_from(chs, id, i) <= chs.len(),
        channel_pos_from(chs, id, i) < chs.len() ==> chs[channel_pos_from(chs, id, i)].id == id,
        forall|k: int| i <= k < channel_pos_from(chs, id, i) ==> chs[k].id != id,
    decreases chs.len() - i,
{
    if i < chs.len() && chs[i].id != id {
        lemma_channel_pos_from(chs, id, i + 1);
    }
}

/// The position of a channel is in range, holds that channel, and no
/// earlier channel has its number; `chs.len()` means there is none.
pub proof fn lemma_channel_pos(chs: Seq<ChannelState>, id: u16)
    ensures
        0 <= channel_pos(chs, id) <= chs.len(),
        channel_pos(chs, id) < chs.len() ==> chs[channel_pos(chs, id)].id == id,
        forall|k: int| 0 <= k < channel_pos(chs, id) ==> chs[k].id != id,
{
    lemma_channel_pos_from(chs, id, 0);
}

/// A connection's state: its channels, publisher confirms, virtual host,
/// transaction, negotiated limits and user.
#[derive(Debug, Clone)]
pub struct ConnectionState {
    pub channels: Vec<ChannelState>,
    pub confirm_mode: bool,
    pub next_delivery_tag: u64,
    pub vhost: String,
    pub tx_mode: bool,
    pub tx_buffer: Vec<PendingOp>,
    pub frame_max: u32,
    pub channel_max: u16,
    pub heartbeat: u16,
    pub authenticated: bool,
    pub username: String,
}

impl ConnectionState {
    /// Whether no two channels share a number.
    pub open spec fn wf(&self) -> bool {
        distinct_channels(self.channels@)
    }

    /// A fresh connection: no channels, confirms off, delivery tags from
    /// 1, the default virtual host `/`, no transaction, the default limits
    /// (frame-max 131072, channel-max 2047, heartbeat 60), not
    /// authenticated, no user.
    pub fn new() -> (r: Self)
        ensures
            r.wf(),
            r.channels@.len() == 0,
            !r.confirm_mode,
            r.next_delivery_tag == 1,
            r.vhost@ == "/"@,
            !r.tx_mode,
            r.tx_buffer@.len() == 0,
            r.frame_max == 131_072,
            r.channel_max == 2047,
            r.heartbeat == 60,
            !r.authenticated,
            r.username@ == Seq::<char>::empty(),
    {
        ConnectionState {
            channels: Vec::new(),
            confirm_mode: false,
            next_delivery_tag: 1,
            vhost: String::from_str("/"),
            tx_mode: false,
            tx_buffer: Vec::new(),
            frame_max: 131_072,
            channel_max: 2047,
            heartbeat: 60,
            authenticated: false,
            username: String::new(),
        }
    }

    /// Finds the position of channel `id`.
    fn find_channel(&self, id: u16) -> (r: usize)
        ensures
            r == channel_pos(self.channels@, id),
    {
        let mut i: usize = 0;
        while i < self.channels.len()
            invariant
                i <= self.channels@.len(),
                channel_pos_from(self.channels@, id, i as int) == channel_pos(self.channels@, id),
            decreases self.channels@.len() - i,
        {
            if self.channels[i].id == id {
                return i;
            }
            i = i + 1;
        }
        i
    }

    /// Opens channel `id`; a channel already open keeps its state.
    pub fn open_channel(&mut self, id: u16)
        requires
            old(self).wf(),
        ensures
            final(self).wf(),
            channel_pos(old(self).channels@, id) < old(self).channels@.len() ==> final(self).channels@
                == old(self).channels@,
            channel_pos(old(self).channels@, id) == old(self).channels@.len()
                ==> final(self).channels@ == old(self).channels@.push(fresh_channel(id)),
            final(self).tx_buffer@ == old(self).tx_buffer@,
            final(self).tx_mode == old(self).tx_mode,
    {
        let pos = self.find_channel(id);
        if pos == self.channels.len() {
            self.channels.push(ChannelState::new(id));
            proof {
                lemma_channel_pos(old(self).channels@, id);
            }
        }
    }

    /// Closes channel `id`, if open.
    pub fn close_channel(&mut self, id: u16)
        requires
            old(self).wf(),
        ensures
            final(self).wf(),
            ({
                let p = channel_pos(old(self).channels@, id);
                &&& p < old(self).channels@.len()
                    ==> final(self).channels@ == old(self).channels@.remove(p)
                &&& p == old(self).channels@.len() ==> final(self).channels@ == old(self).channels@
            }),
            final(self).tx_buffer@ == old(self).tx_buffer@,
            final(self).tx_mode == old(self).tx_mode,
    {
        let pos = self.find_channel(id);
        proof {
            lemma_channel_pos(old(self).channels@, id);
        }
        if pos < self.channels.len() {
            self.channels.remove(pos);
            proof {
                let o = old(self).channels@;
                let n = self.channels@;
                assert forall|i: int, j: int| 0 <= i < j < n.len() implies n[i].id != n[j].id by {
                    let oi = if i < pos { i } else { i + 1 };
                    let oj = if j < pos { j } else { j + 1 };
                    assert(n[i] == o[oi]);
                    assert(n[j] == o[oj]);
                }
            }
        }
    }

    /// Sets the flow of channel `id`, if open.
    pub fn set_channel_flow(&mut self, id: u16, active: bool)
        requires
            old(self).wf(),
        ensures
            final(self).wf(),
            ({
                let p = channel_pos(old(self).channels@, id);
                &&& p < old(self).channels@.len() ==> final(self).channels@
                    == old(self).channels@.update(p, (ChannelState { flow_active: active, ..old(self).channels@[p] }))
                &&& p == old(self).channels@.len() ==> final(self).channels@ == old(self).channels@
            }),
            final(self).tx_buffer@ == old(self).tx_buffer@,
            final(self).tx_mode == old(self).tx_mode,
    {
        let pos = self.find_channel(id);
        proof {
            lemma_channel_pos(old(self).channels@, id);
        }
        if pos < self.channels.len() {
            let c = &self.channels[pos];
            let ch = ChannelState {
                id: c.id,
                prefetch_count: c.prefetch_count,
                unacked_count: c.unacked_count,
                confirm_mode: c.confirm_mode,
                next_delivery_tag: c.next_delivery_tag,
                flow_active: active,
            };
            self.channels.set(pos, ch);
            proof {
                assert(self.channels@ =~= old(self).channels@.update(
                    pos as int,
                    ChannelState { flow_active: active, ..old(self).channels@[pos as int] },
                ));
            }
        }
    }

    /// Enters transaction mode with nothing buffered.
    pub fn select_tx(&mut self)
        requires
            old(self).wf(),
        ensures
            final(self).wf(),
            final(self).tx_mode,
            final(self).tx_buffer@.len() == 0,
            final(self).channels@ == old(self).channels@,
    {
        self.tx_mode = true;
        self.tx_buffer = Vec::new();
    }

    /// Buffers an operation when in transaction mode; whether it was.
    pub fn buffer_op(&mut self, op: PendingOp) -> (r: bool)
        requires
            old(self).wf(),
        ensures
            final(self).wf(),
            r == old(self).tx_mode,
            r ==> final(self).tx_buffer@ == old(self).tx_buffer@.push(op),
            !r ==> final(self).tx_buffer@ == old(self).tx_buffer@,
            final(self).tx_mode == old(self).tx_mode,
            final(self).channels@ == old(self).channels@,
            *final(self) == (ConnectionState { tx_buffer: final(self).tx_buffer, ..*old(self) }),
            !r ==> *final(self) == *old(self),
    {
        if self.tx_mode {
            self.tx_buffer.push(op);
            true
        } else {
            false
        }
    }

    /// Takes what the transaction buffered, for commit or rollback: `None`
    /// outside transaction mode; otherwise everything buffered, in order,
    /// leaving the buffer empty and the connection in transaction mode.
    pub fn take_tx_buffer(&mut self) -> (r: Option<Vec<PendingOp>>)
        requires
            old(self).wf(),
        ensures
            final(self).wf(),
            !old(self).tx_mode ==> r is None && final(self).tx_buffer@ == old(self).tx_buffer@,
            old(self).tx_mode ==> (r matches Some(ops) && ops@ == old(self).tx_buffer@)
                && final(self).tx_buffer@.len() == 0,
            final(self).tx_mode == old(self).tx_mode,
            final(self).channels@ == old(self).channels@,
            *final(self) == (ConnectionState { tx_buffer: final(self).tx_buffer, ..*old(self) }),
            !old(self).tx_mode ==> *final(self) == *old(self),
    {
        if !self.tx_mode {
            return None;
        }
        let mut taken: Vec<PendingOp> = Vec::new();
        std::mem::swap(&mut taken, &mut self.tx_buffer);
        Some(taken)
    }
}

/// A channel as the management side sees it.
pub open spec fn channel_meta_of(c: ChannelState, m: ChannelMeta) -> bool {
    m.id == c.id && m.prefetch_count == c.prefetch_count && m.unacked_count == c.unacked_count
        && m.confirm_mode == c.confirm_mode && m.flow_active == c.flow_active
}

impl ConnectionMeta for ConnectionState {
    fn username(&self) -> (r: String)
        ensures
            r@ == self.username@,
    {
        self.username.clone()
    }

    fn vhost(&self) -> (r: String)
        ensures
            r@ == self.vhost@,
    {
        self.vhost.clone()
    }

    fn channels_count(&self) -> (r: usize)
        ensures
            r == self.channels@.len(),
    {
        self.channels.len()
    }

    fn get_channels(&self) -> (r: Vec<ChannelMeta>)
        ensures
            r@.len() == self.channels@.len(),
            forall|k: int| 0 <= k < r@.len() ==> channel_meta_of(self.channels@[k], #[trigger] r@[k]),
    {
        let mut out: Vec<ChannelMeta> = Vec::new();
        let mut i: usize = 0;
        while i < self.channels.len()
            invariant
                i <= self.channels@.len(),
                out@.len() == i,
                forall|k: int| 0 <= k < i ==> channel_meta_of(self.channels@[k], #[trigger] out@[k]),
            decreases self.channels@.len() - i,
        {
            let c = &self.channels[i];
            out.push(
                ChannelMeta {
                    id: c.id,
                    prefetch_count: c.prefetch_count,
                    unacked_count: c.unacked_count,
                    confirm_mode: c.confirm_mode,
                    flow_active: c.flow_active,
                },
            );
            i = i + 1;
        }
        out
    }

    fn heartbeat(&self) -> (r: u16)
        ensures
            r == self.heartbeat,
    {
        self.heartbeat
    }

    fn frame_max(&self) -> (r: u32)
        ensures
            r == self.frame_max,
    {
        self.frame_max
    }

    fn channel_max(&self) -> (r: u16)
        ensures
            r == self.channel_max,
    {
        self.channel_max
    }

    fn tx_mode(&self) -> (r: bool)
        ensures
            r == self.tx_mode,
    {
        self.tx_mode
    }
}

} // verus!
