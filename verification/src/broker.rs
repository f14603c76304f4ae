//! The broker: bridges logical filesystem events and the client set.
//!
//! Each call consumes one input — a client joining (with the store's current
//! listing), a client leaving, or a logical event together with what the read
//! of the affected file returned — and produces the deliveries owed for it:
//! which message goes to which client, in order. The caller performs the
//! sends; a delivery is a non-blocking enqueue and per-client failures are
//! absorbed at the transport.

use crate::codec::{MsgV, WireMsg};
use crate::registry::{add_handle, no_dups, remove_handle, ClientSet};
use crate::store::{snaps_view, sort_snaps, sort_snapshots, DotSnapshot, SnapV};
use vstd::prelude::*;
use vstd::string::*;

verus! {

/// One message owed to one client.
pub struct Delivery {
    pub client: u64,
    pub message: WireMsg,
}

/// The mathematical value of a delivery.
pub struct DeliveryV {
    pub client: u64,
    pub message: MsgV,
}

impl View for Delivery {
    type V = DeliveryV;

    open spec fn view(&self) -> DeliveryV {
        DeliveryV { client: self.client, message: self.message@ }
    }
}

/// The values of a list of deliveries.
pub open spec fn deliveries_view(s: Seq<Delivery>) -> Seq<DeliveryV> {
    s.map_values(|d: Delivery| d@)
}

/// One input consumed by the broker.
pub enum Input {
    /// A client connected; `listing` is the store's current enumeration with
    /// each file's content as read at join time (unreadable entries omitted).
    Join { client: u64, listing: Vec<DotSnapshot> },
    /// A client disconnected.
    Leave { client: u64 },
    /// A `.dot` file appeared or changed; `content` is what the read of it
    /// returned (nothing on a read error), `mtime_ms` its modification time
    /// at emit time, 0 if unknown.
    Appeared { name: String, content: Option<String>, mtime_ms: u64 },
    /// A `.dot` file vanished.
    Vanished { name: String, mtime_ms: u64 },
}

/// The mathematical value of an input.
pub enum InputV {
    Join { client: u64, listing: Seq<SnapV> },
    Leave { client: u64 },
    Appeared { name: Seq<char>, content: Option<Seq<char>>, mtime_ms: u64 },
    Vanished { name: Seq<char>, mtime_ms: u64 },
}

impl View for Input {
    type V = InputV;

    open spec fn view(&self) -> InputV {
        match self {
            Input::Join { client, listing } => InputV::Join {
                client: *client,
                listing: snaps_view(listing@),
            },
            Input::Leave { client } => InputV::Leave { client: *client },
            Input::Appeared { name, content, mtime_ms } => InputV::Appeared {
                name: name@,
                content: match content {
                    Option::Some(c) => Option::Some(c@),
                    Option::None => Option::None,
                },
                mtime_ms: *mtime_ms,
            },
            Input::Vanished { name, mtime_ms } => InputV::Vanished {
                name: name@,
                mtime_ms: *mtime_ms,
            },
        }
    }
}

/// The same message to every client, in registration order.
pub open spec fn fanout(clients: Seq<u64>, m: MsgV) -> Seq<DeliveryV>
    decreases clients.len(),
{
    if clients.len() == 0 {
        Seq::empty()
    } else {
        fanout(clients.drop_last(), m).push(DeliveryV { client: clients.last(), message: m })
    }
}

/// The join replay over an already-sorted listing: one `NewDot` per
/// non-empty snapshot, to the new client alone, in listing order.
pub open spec fn replay(client: u64, sorted: Seq<SnapV>) -> Seq<DeliveryV>
    decreases sorted.len(),
{
    if sorted.len() == 0 {
        Seq::empty()
    } else {
        let rest = replay(client, sorted.drop_last());
        let s = sorted.last();
        if s.content.len() > 0 {
            rest.push(
                DeliveryV {
                    client,
                    message: MsgV::NewDot {
                        name: s.name,
                        content: s.content,
                        creation_time_ms: s.mtime_ms,
                    },
                },
            )
        } else {
            rest
        }
    }
}

/// Everything a joining client is owed: the listing sorted ascending by
/// modification time (ties by name), empty snapshots skipped.
pub open spec fn join_deliveries(client: u64, listing: Seq<SnapV>) -> Seq<DeliveryV> {
    replay(client, sort_snaps(listing))
}

/// What an appearance is owed: nothing on a read error or empty content — a
/// zero-byte DOT is not a valid snapshot — else one `NewDot` to every client.
pub open spec fn appeared_deliveries(
    clients: Seq<u64>,
    name: Seq<char>,
    content: Option<Seq<char>>,
    mtime_ms: u64,
) -> Seq<DeliveryV> {
    match content {
        Option::Some(c) => if c.len() > 0 {
            fanout(clients, MsgV::NewDot { name, content: c, creation_time_ms: mtime_ms })
        } else {
            Seq::empty()
        },
        Option::None => Seq::empty(),
    }
}

/// What a disappearance is owed: one `DotRemoved` to every client.
pub open spec fn vanished_deliveries(clients: Seq<u64>, name: Seq<char>, mtime_ms: u64) -> Seq<
    DeliveryV,
> {
    fanout(clients, MsgV::DotRemoved { name, creation_time_ms: mtime_ms })
}

/// The client set after one input.
pub open spec fn step_clients(clients: Seq<u64>, input: InputV) -> Seq<u64> {
    match input {
        InputV::Join { client, .. } => add_handle(clients, client),
        InputV::Leave { client } => remove_handle(clients, client),
        InputV::Appeared { .. } => clients,
        InputV::Vanished { .. } => clients,
    }
}

/// The deliveries owed for one input, against the client set it arrived at.
pub open spec fn step_deliveries(clients: Seq<u64>, input: InputV) -> Seq<DeliveryV> {
    match input {
        InputV::Join { client, listing } => join_deliveries(client, listing),
        InputV::Leave { .. } => Seq::empty(),
        InputV::Appeared { name, content, mtime_ms } => appeared_deliveries(
            clients,
            name,
            content,
            mtime_ms,
        ),
        InputV::Vanished { name, mtime_ms } => vanished_deliveries(clients, name, mtime_ms),
    }
}

fn clone_msg(m: &WireMsg) -> (r: WireMsg)
    ensures
        r@ == m@,
{
    match m {
        WireMsg::NewDot { name, content, creation_time_ms } => WireMsg::NewDot {
            name: name.clone(),
            content: content.clone(),
            creation_time_ms: *creation_time_ms,
        },
        WireMsg::DotRemoved { name, creation_time_ms } => WireMsg::DotRemoved {
            name: name.clone(),
            creation_time_ms: *creation_time_ms,
        },
    }
}

/// The coordinator: owns the client set and turns inputs into deliveries.
pub struct Broker {
    clients: ClientSet,
}

impl View for Broker {
    type V = Seq<u64>;

    closed spec fn view(&self) -> Seq<u64> {
        self.clients@
    }
}

impl Broker {
    /// No client handle is registered twice.
    pub open spec fn wf(&self) -> bool {
        no_dups(self@)
    }

    pub fn new() -> (r: Broker)
        ensures
            r@ == Seq::<u64>::empty(),
            r.wf(),
    {
        Broker { clients: ClientSet::new() }
    }

    /// A point-in-time copy of the registered handles, in insertion order.
    pub fn clients_snapshot(&self) -> (r: Vec<u64>)
        ensures
            r@ == self@,
    {
        self.clients.snapshot()
    }

    fn fanout_message(&self, m: WireMsg) -> (out: Vec<Delivery>)
        ensures
            deliveries_view(out@) == fanout(self@, m@),
    {
        let snap = self.clients.snapshot();
        let n = snap.len();
        let mut out: Vec<Delivery> = Vec::new();
        proof {
            assert(deliveries_view(out@) =~= Seq::<DeliveryV>::empty());
        }
        let mut i: usize = 0;
        while i < n
            invariant
                n == snap@.len(),
                snap@ == self@,
                0 <= i <= n,
                deliveries_view(out@) == fanout(self@.take(i as int), m@),
            decreases n - i,

        {
            let ghost before = out@;
            let copy = clone_msg(&m);
            out.push(Delivery { client: snap[i], message: copy });
            proof {
                assert(self@.take(i + 1 as int).drop_last() =~= self@.take(i as int));
                assert(self@.take(i + 1 as int).last() == self@[i as int]);
                assert(deliveries_view(out@) =~= deliveries_view(before).push(
                    DeliveryV { client: self@[i as int], message: m@ },
                ));
                assert(deliveries_view(out@) =~= fanout(self@.take(i + 1 as int), m@));
            }
            i += 1;
        }
        proof {
            assert(self@.take(n as int) =~= self@);
        }
        out
    }

    /// Registers a client and builds its replay: the current listing sorted
    /// ascending by modification time (ties by name), one `NewDot` per
    /// non-empty snapshot, all addressed to the new client alone.
    pub fn join(&mut self, client: u64, listing: Vec<DotSnapshot>) -> (out: Vec<Delivery>)
        ensures
            final(self)@ == add_handle(old(self)@, client),
            old(self).wf() ==> final(self).wf(),
            deliveries_view(out@) == join_deliveries(client, snaps_view(listing@)),
    {
        self.clients.register(client);
        let ghost listing_v = snaps_view(listing@);
        let sorted = sort_snapshots(listing);
        let ghost sorted_v = snaps_view(sorted@);
        let n = sorted.len();
        let mut out: Vec<Delivery> = Vec::new();
        proof {
            assert(deliveries_view(out@) =~= Seq::<DeliveryV>::empty());
        }
        let mut i: usize = 0;
        while i < n
            invariant
                n == sorted@.len(),
                sorted_v == snaps_view(sorted@),
                0 <= i <= n,
                deliveries_view(out@) == replay(client, sorted_v.take(i as int)),
            decreases n - i,
        {
            proof {
                assert(sorted_v.take(i + 1 as int).drop_last() =~= sorted_v.take(i as int));
                assert(sorted_v.take(i + 1 as int).last() == sorted_v[i as int]);
                assert(sorted_v[i as int] == sorted@[i as int]@);
            }
            if !sorted[i].content.as_str().is_empty() {
                let ghost before = out@;
                let m = WireMsg::NewDot {
                    name: sorted[i].name.clone(),
                    content: sorted[i].content.clone(),
                    creation_time_ms: sorted[i].mtime_ms,
                };
                out.push(Delivery { client, message: m });
                proof {
                    assert(deliveries_view(out@) =~= deliveries_view(before).push(
                        DeliveryV {
                            client,
                            message: MsgV::NewDot {
                                name: sorted_v[i as int].name,
                                content: sorted_v[i as int].content,
                                creation_time_ms: sorted_v[i as int].mtime_ms,
                            },
                        },
                    ));
                    assert(deliveries_view(out@) =~= replay(client, sorted_v.take(i + 1 as int)));
                }
            } else {
                proof {
                    assert(deliveries_view(out@) =~= replay(client, sorted_v.take(i + 1 as int)));
                }
            }
            i += 1;
        }
        proof {
            assert(sorted_v.take(n as int) =~= sorted_v);
        }
        out
    }

    /// Unregisters a client; nothing more is ever delivered to it.
    pub fn leave(&mut self, client: u64)
        ensures
            final(self)@ == remove_handle(old(self)@, client),
            old(self).wf() ==> final(self).wf(),
            !final(self)@.contains(client),
    {
        self.clients.unregister(client);
    }

    /// Fans an appearance out: nothing on a read error or empty content,
    /// else one `NewDot` to every registered client, in registration order.
    pub fn appeared(&self, name: String, content: Option<String>, mtime_ms: u64) -> (out: Vec<
        Delivery,
    >)
        ensures
            deliveries_view(out@) == appeared_deliveries(
                self@,
                name@,
                match content {
                    Option::Some(c) => Option::Some(c@),
                    Option::None => Option::None,
                },
                mtime_ms,
            ),
    {
        match content {
            Option::None => Vec::new(),
            Option::Some(c) => {
                if c.as_str().is_empty() {
                    Vec::new()
                } else {
                    self.fanout_message(
                        WireMsg::NewDot { name, content: c, creation_time_ms: mtime_ms },
                    )
                }
            },
        }
    }

    /// Fans a disappearance out: one `DotRemoved` to every registered client,
    /// carrying the full relative path, in registration order.
    pub fn vanished(&self, name: String, mtime_ms: u64) -> (out: Vec<Delivery>)
        ensures
            deliveries_view(out@) == vanished_deliveries(self@, name@, mtime_ms),
    {
        self.fanout_message(WireMsg::DotRemoved { name, creation_time_ms: mtime_ms })
    }

    /// Consumes one input and returns the deliveries owed for it.
    pub fn step(&mut self, input: Input) -> (out: Vec<Delivery>)
        ensures
            final(self)@ == step_clients(old(self)@, input@),
            deliveries_view(out@) == step_deliveries(old(self)@, input@),
            old(self).wf() ==> final(self).wf(),
    {
        match input {
            Input::Join { client, listing } => self.join(client, listing),
            Input::Leave { client } => {
                self.leave(client);
                Vec::new()
            },
            Input::Appeared { name, content, mtime_ms } => self.appeared(name, content, mtime_ms),
            Input::Vanished { name, mtime_ms } => self.vanished(name, mtime_ms),
        }
    }
}

} // verus!
