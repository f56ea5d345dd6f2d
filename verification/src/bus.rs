//! Channels by name, over which messages go to all who listen.

use crate::keyed::{key_place, lemma_key_place, lemma_key_place_is};
use crate::text::{same_text, texts};
use tokio::sync::broadcast;
use vstd::prelude::*;
use vstd::string::*;

verus! {

/// A message on a channel.
#[derive(Debug, Clone, PartialEq, Eq)]
pub struct BusMessage {
    pub from: String,
    pub content: String,
    pub timestamp: u64,
    pub channel: String,
}

/// How many messages a channel holds for those who are slow.
pub const DEFAULT_CHANNEL_CAPACITY: usize = 256;

/// Why a message did not go out.
#[derive(Debug, PartialEq, Eq)]
pub enum BusError {
    NoSubscribers(String),
}

impl BusError {
    /// The error in words.
    pub fn message(&self) -> (r: String)
        ensures
            r@ == "publish to channel `"@ + self->NoSubscribers_0@ + "` had no subscribers"@,
    {
        match self {
            BusError::NoSubscribers(c) => {
                let mut out = "publish to channel `".to_owned();
                out.append(c.as_str());
                out.append("` had no subscribers");
                out
            },
        }
    }
}

// ── tokio ──────────────────────────────────────────────────────────────────
/// The sending half of a channel of `tokio`.
#[verifier::external_type_specification]
#[verifier::external_body]
#[verifier::reject_recursive_types(T)]
pub struct ExSender<T>(broadcast::Sender<T>);

/// The receiving half of a channel of `tokio`.
#[verifier::external_type_specification]
#[verifier::external_body]
#[verifier::reject_recursive_types(T)]
pub struct ExReceiver<T>(broadcast::Receiver<T>);

/// A new channel, made by `tokio::sync::broadcast::channel`, which panics on a
/// capacity of zero or over `usize::MAX / 2`. Nothing is claimed of the channel.
#[verifier::external_body]
fn open_channel(capacity: usize) -> (r: broadcast::Sender<BusMessage>)
    requires
        0 < capacity <= usize::MAX / 2,
{
    broadcast::channel::<BusMessage>(capacity).0
}

/// A receiver listens to a sender: the messages that the sender sends from then
/// on are for it.
pub uninterp spec fn listens_to(
    r: broadcast::Receiver<BusMessage>,
    s: broadcast::Sender<BusMessage>,
) -> bool;

/// A new listener: `tokio::sync::broadcast::Sender::subscribe`. The receiver that
/// it returns listens to that sender. It fails only if a quarter of
/// `usize::MAX` listeners are there.
#[verifier::external_body]
fn new_receiver(s: &broadcast::Sender<BusMessage>) -> (r: broadcast::Receiver<BusMessage>)
    ensures
        listens_to(r, *s),
{
    s.subscribe()
}

/// A message was sent over a sender, and went to so many listeners, or there was
/// none.
pub uninterp spec fn went_out(
    s: broadcast::Sender<BusMessage>,
    m: BusMessage,
    r: Option<usize>,
) -> bool;

/// Sends a message with `tokio::sync::broadcast::Sender::send`. Returns how
/// many listeners it went to; `None` if none was there. It is this message that
/// goes out, and it goes out over this sender. Who listens is up to others.
#[verifier::external_body]
fn send_message(s: &broadcast::Sender<BusMessage>, m: BusMessage) -> (r: Option<usize>)
    ensures
        went_out(*s, m, r),
        r matches Some(n) ==> n > 0,
{
    s.send(m).ok()
}

/// A sender was asked how many listen to it, and there were so many.
pub uninterp spec fn heard_by(s: broadcast::Sender<BusMessage>, n: usize) -> bool;

/// How many listen: `tokio::sync::broadcast::Sender::receiver_count`. The number is
/// that of this sender. Who listens is up to others.
#[verifier::external_body]
fn count_receivers(s: &broadcast::Sender<BusMessage>) -> (r: usize)
    ensures
        heard_by(*s, r),
{
    s.receiver_count()
}

// ── The bus ────────────────────────────────────────────────────────────────
/// The channels, by name, the sender of each, and how many messages each of them
/// holds.
pub struct BusModel {
    pub channels: Seq<Seq<char>>,
    pub senders: Seq<broadcast::Sender<BusMessage>>,
    pub capacity: nat,
}

impl BusModel {
    /// Each channel has its own name and a sender, and channels can be opened.
    pub open spec fn wf(self) -> bool {
        &&& self.channels.no_duplicates()
        &&& self.channels.len() == self.senders.len()
        &&& 0 < self.capacity <= usize::MAX / 2
    }

    /// The sender of a channel.
    pub open spec fn sender(self, channel: Seq<char>) -> broadcast::Sender<BusMessage> {
        self.senders[key_place(self.channels, channel)]
    }

    /// The bus without a channel.
    pub open spec fn without(self, channel: Seq<char>) -> BusModel {
        let k = key_place(self.channels, channel);
        BusModel {
            channels: self.channels.remove(k),
            senders: self.senders.remove(k),
            ..self
        }
    }
}

/// The channels, by name.
#[derive(Debug)]
pub struct BroadcastBus {
    names: Vec<String>,
    senders: Vec<broadcast::Sender<BusMessage>>,
    capacity: usize,
}

impl View for BroadcastBus {
    type V = BusModel;

    closed spec fn view(&self) -> BusModel {
        BusModel {
            channels: texts(self.names@),
            senders: self.senders@,
            capacity: self.capacity as nat,
        }
    }
}

/// What is told of a message on a channel: how many it went to, or that no one
/// was there.
pub fn published(channel: String, sent: Option<usize>) -> (r: Result<usize, BusError>)
    ensures
        match sent {
            Some(n) => r is Ok && r->Ok_0 == n,
            None => r is Err && r->Err_0->NoSubscribers_0@ == channel@,
        },
{
    match sent {
        Some(n) => Ok(n),
        None => Err(BusError::NoSubscribers(channel)),
    }
}

/// What sending gave, by what is told of it.
pub open spec fn sent_by(r: Result<usize, BusError>) -> Option<usize> {
    match r {
        Ok(n) => Some(n),
        Err(_) => None,
    }
}

impl BroadcastBus {
    /// There is a sender for each name, and channels can be opened.
    pub closed spec fn wf(&self) -> bool {
        self@.wf()
    }

    /// No channels, and the usual capacity.
    pub fn new() -> (r: BroadcastBus)
        ensures
            r.wf(),
            r@.wf(),
            r@.channels.len() == 0,
            r@.capacity == DEFAULT_CHANNEL_CAPACITY,
    {
        BroadcastBus::with_capacity(DEFAULT_CHANNEL_CAPACITY)
    }

    /// No channels, and a capacity of at least one.
    pub fn with_capacity(capacity: usize) -> (r: BroadcastBus)
        requires
            capacity <= usize::MAX / 2,
        ensures
            r.wf(),
            r@.wf(),
            r@.channels.len() == 0,
            r@.capacity == (if capacity >= 1 {
                capacity as nat
            } else {
                1
            }),
    {
        BroadcastBus {
            names: Vec::new(),
            senders: Vec::new(),
            capacity: if capacity >= 1 {
                capacity
            } else {
                1
            },
        }
    }

    fn place(&self, channel: &str) -> (r: usize)
        ensures
            r == key_place(self@.channels, channel@),
            r <= self@.channels.len() == self.names@.len(),
            r < self.names@.len() <==> self@.channels.contains(channel@),
    {
        let ghost all = self@.channels;
        proof {
            lemma_key_place(all, channel@);
            assert(all.skip(0) =~= all);
        }
        let mut i: usize = 0;
        while i < self.names.len()
            invariant
                i <= self.names@.len(),
                all == texts(self.names@),
                key_place(all, channel@) == i + key_place(all.skip(i as int), channel@),
                all.contains(channel@) <==> key_place(all, channel@) < all.len(),
            decreases self.names@.len() - i,
        {
            proof {
                assert(all.skip(i as int)[0] == self.names@[i as int]@);
                assert(all.skip(i as int).skip(1) =~= all.skip(i + 1));
            }
            if same_text(self.names[i].as_str(), channel) {
                return i;
            }
            i += 1;
        }
        i
    }

    /// The sender of a channel, if there is such a channel.
    pub fn route(&self, channel: &str) -> (r: Option<&broadcast::Sender<BusMessage>>)
        requires
            self.wf(),
        ensures
            match r {
                Some(s) => self@.channels.contains(channel@) && *s == self@.sender(channel@),
                None => !self@.channels.contains(channel@),
            },
    {
        let i: usize = self.place(channel);
        if i < self.names.len() {
            Some(&self.senders[i])
        } else {
            None
        }
    }

    /// Listens to a channel, which is opened if it is not there.
    pub fn subscribe(&mut self, channel: &str) -> (r: broadcast::Receiver<BusMessage>)
        requires
            old(self).wf(),
        ensures
            final(self).wf(),
            final(self)@.wf(),
            old(self)@.channels.contains(channel@) ==> final(self)@ == old(self)@,
            !old(self)@.channels.contains(channel@) ==> final(self)@ == (BusModel {
                channels: old(self)@.channels.push(channel@),
                senders: old(self)@.senders.push(final(self)@.sender(channel@)),
                ..old(self)@
            }),
            final(self)@.channels.contains(channel@),
            listens_to(r, final(self)@.sender(channel@)),
    {
        let ghost before = self@;
        let i: usize = self.place(channel);
        proof {
            lemma_key_place(before.channels, channel@);
        }
        if i >= self.names.len() {
            self.names.push(channel.to_owned());
            let s = open_channel(self.capacity);
            self.senders.push(s);
            proof {
                let now = before.channels.push(channel@);
                assert(self@.channels =~= now);
                assert(now[i as int] == channel@);
                assert forall|k: int| 0 <= k < i implies #[trigger] now[k] != channel@ by {
                    assert(now[k] == before.channels[k]);
                }
                lemma_key_place_is(now, channel@, i as int);
                assert(self@.senders =~= before.senders.push(s));
            }
        }
        new_receiver(&self.senders[i])
    }

    /// Sends a message over its channel. Returns how many it went to. It is
    /// dropped if no one listens, as is the case where there is no such
    /// channel. It goes to the sender that [`BroadcastBus::route`] gives; how many
    /// listen there is up to those who hold the receivers.
    pub fn publish(&self, message: BusMessage) -> (r: Result<usize, BusError>)
        requires
            self.wf(),
        ensures
            r matches Ok(n) ==> n > 0,
            r matches Err(e) ==> e->NoSubscribers_0@ == message.channel@,
            !self@.channels.contains(message.channel@) ==> r is Err,
            self@.channels.contains(message.channel@) ==> went_out(
                self@.sender(message.channel@),
                message,
                sent_by(r),
            ),
    {
        let channel = message.channel.clone();
        let sent = match self.route(channel.as_str()) {
            Some(s) => send_message(s, message),
            None => None,
        };
        published(channel, sent)
    }

    /// How many channels there are.
    pub fn channel_count(&self) -> (r: usize)
        ensures
            r == self@.channels.len(),
    {
        self.names.len()
    }

    /// How many listen to a channel, by its sender; none if there is no such channel.
    /// Their number is up to those who hold the receivers.
    pub fn receiver_count(&self, channel: &str) -> (r: usize)
        requires
            self.wf(),
        ensures
            !self@.channels.contains(channel@) ==> r == 0,
            self@.channels.contains(channel@) ==> heard_by(self@.sender(channel@), r),
    {
        match self.route(channel) {
            Some(s) => count_receivers(s),
            None => 0,
        }
    }

    /// Closes a channel. Returns whether it was there.
    pub fn close(&mut self, channel: &str) -> (r: bool)
        requires
            old(self).wf(),
        ensures
            final(self).wf(),
            final(self)@.wf(),
            r == old(self)@.channels.contains(channel@),
            final(self)@ == (if r {
                old(self)@.without(channel@)
            } else {
                old(self)@
            }),
            !final(self)@.channels.contains(channel@),
    {
        let ghost before = self@;
        let i: usize = self.place(channel);
        proof {
            lemma_key_place(before.channels, channel@);
            if before.channels.contains(channel@) {
                law_closed_channels_are_gone(before, channel@);
            }
        }
        if i < self.names.len() {
            self.names.remove(i);
            self.senders.remove(i);
            assert(self@.channels =~= before.channels.remove(i as int));
            assert(self@.senders =~= before.senders.remove(i as int));
            true
        } else {
            false
        }
    }
}

/// A channel that was closed is not there, and the others are, each with the
/// sender that it had.
pub proof fn law_closed_channels_are_gone(bus: BusModel, channel: Seq<char>)
    requires
        bus.wf(),
        bus.channels.contains(channel),
    ensures
        bus.without(channel).wf(),
        !bus.without(channel).channels.contains(channel),
        forall|c: Seq<char>|
            c != channel && bus.channels.contains(c) ==> #[trigger] bus.without(
                channel,
            ).channels.contains(c) && bus.without(channel).sender(c) == bus.sender(c),
{
    let channels = bus.channels;
    lemma_key_place(channels, channel);
    let k = key_place(channels, channel);
    let left = channels.remove(k);
    assert forall|a: int, b: int| 0 <= a < left.len() && 0 <= b < left.len() && a
        != b implies left[a] != left[b] by {
        let x = if a < k {
            a
        } else {
            a + 1
        };
        let y = if b < k {
            b
        } else {
            b + 1
        };
        assert(left[a] == channels[x] && left[b] == channels[y]);
    }
    if left.contains(channel) {
        let a = choose|a: int| 0 <= a < left.len() && left[a] == channel;
        let x = if a < k {
            a
        } else {
            a + 1
        };
        assert(channels[x] == channels[k]);
    }
    assert forall|c: Seq<char>| c != channel && channels.contains(c) implies
        #[trigger] left.contains(c) && bus.without(channel).sender(c) == bus.sender(c) by {
        lemma_key_place(channels, c);
        let x = key_place(channels, c);
        let a = if x < k {
            x
        } else {
            x - 1
        };
        assert(left[a] == c);
        lemma_key_place(left, c);
        let p = key_place(left, c);
        assert(left[p] == left[a]);
        assert(p == a);
    }
}

/// Opening a channel leaves every other channel with the sender that it had: who
/// listens to one channel goes on listening to it.
pub proof fn law_opened_channels_leave_the_others(
    bus: BusModel,
    channel: Seq<char>,
    sender: broadcast::Sender<BusMessage>,
)
    requires
        bus.wf(),
        !bus.channels.contains(channel),
    ensures
        ({
            let after = BusModel {
                channels: bus.channels.push(channel),
                senders: bus.senders.push(sender),
                ..bus
            };
            forall|c: Seq<char>|
                bus.channels.contains(c) ==> #[trigger] after.sender(c) == bus.sender(c)
        }),
{
    let channels = bus.channels.push(channel);
    let after = BusModel { channels, senders: bus.senders.push(sender), ..bus };
    assert forall|c: Seq<char>| bus.channels.contains(c) implies #[trigger] after.sender(c)
        == bus.sender(c) by {
        lemma_key_place(bus.channels, c);
        let x = key_place(bus.channels, c);
        assert forall|i: int| 0 <= i < x implies #[trigger] channels[i] != c by {
            assert(channels[i] == bus.channels[i]);
        }
        assert(channels[x] == c);
        lemma_key_place_is(channels, c, x);
    }
}

/// Something that is done to a bus.
pub enum BusStep {
    /// Someone listens to a channel; `sender` is the one that it gets if it is not
    /// there.
    Subscribe { channel: Seq<char>, sender: broadcast::Sender<BusMessage> },
    Close { channel: Seq<char> },
}

/// The bus after a step.
pub open spec fn bus_stepped(bus: BusModel, step: BusStep) -> BusModel {
    match step {
        BusStep::Subscribe { channel, sender } => if bus.channels.contains(channel) {
            bus
        } else {
            BusModel {
                channels: bus.channels.push(channel),
                senders: bus.senders.push(sender),
                ..bus
            }
        },
        BusStep::Close { channel } => if bus.channels.contains(channel) {
            bus.without(channel)
        } else {
            bus
        },
    }
}

/// The bus after the steps, one after the other.
pub open spec fn bus_after(bus: BusModel, steps: Seq<BusStep>) -> BusModel
    decreases steps.len(),
{
    if steps.len() == 0 {
        bus
    } else {
        bus_stepped(bus_after(bus, steps.drop_last()), steps.last())
    }
}

/// A channel keeps its sender as long as it is not closed.
proof fn lemma_channels_keep_their_senders(
    bus: BusModel,
    steps: Seq<BusStep>,
    channel: Seq<char>,
)
    requires
        bus.wf(),
        bus.channels.contains(channel),
        forall|i: int|
            0 <= i < steps.len() ==> #[trigger] steps[i] != (BusStep::Close { channel }),
    ensures
        bus_after(bus, steps).wf(),
        bus_after(bus, steps).channels.contains(channel),
        bus_after(bus, steps).sender(channel) == bus.sender(channel),
    decreases steps.len(),
{
    if steps.len() > 0 {
        let rest = steps.drop_last();
        assert forall|i: int| 0 <= i < rest.len() implies #[trigger] rest[i] != (BusStep::Close {
            channel,
        }) by {
            assert(rest[i] == steps[i]);
        }
        assert(steps[steps.len() - 1] != (BusStep::Close { channel }));
        lemma_channels_keep_their_senders(bus, rest, channel);
        let before = bus_after(bus, rest);
        match steps.last() {
            BusStep::Subscribe { channel: c, sender } => {
                if !before.channels.contains(c) {
                    law_opened_channels_leave_the_others(before, c, sender);
                    let after = bus_stepped(before, steps.last());
                    let k = choose|k: int|
                        0 <= k < before.channels.len() && before.channels[k] == channel;
                    assert(after.channels[k] == channel);
                    assert(after.sender(channel) == before.sender(channel));
                }
            },
            BusStep::Close { channel: c } => {
                if before.channels.contains(c) {
                    law_closed_channels_are_gone(before, c);
                    assert(before.without(c).channels.contains(channel));
                }
            },
        }
    }
}

/// What is published on a channel goes out over the sender that each subscriber of
/// the channel listens to, whatever other channels were opened and closed since, as
/// long as this one was not closed. `bus` is the bus when `rx` began to listen, and
/// `r` is what publishing gave after the steps.
pub proof fn law_messages_go_to_those_who_listen(
    bus: BusModel,
    rx: broadcast::Receiver<BusMessage>,
    steps: Seq<BusStep>,
    m: BusMessage,
    r: Result<usize, BusError>,
)
    requires
        bus.wf(),
        bus.channels.contains(m.channel@),
        listens_to(rx, bus.sender(m.channel@)),
        forall|i: int|
            0 <= i < steps.len() ==> #[trigger] steps[i] != (BusStep::Close {
                channel: m.channel@,
            }),
        bus_after(bus, steps).channels.contains(m.channel@) ==> went_out(
            bus_after(bus, steps).sender(m.channel@),
            m,
            sent_by(r),
        ),
    ensures
        exists|s: broadcast::Sender<BusMessage>|
            listens_to(rx, s) && #[trigger] went_out(s, m, sent_by(r)),
{
    lemma_channels_keep_their_senders(bus, steps, m.channel@);
}

} // verus!
