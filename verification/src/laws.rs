//! What holds of the broker over whole runs.
//!
//! A run consumes a sequence of inputs from one starting client set; its
//! deliveries are the per-input deliveries concatenated in input order. The
//! proof functions here state the guarantees the wire protocol rests on:
//! delivery order follows observation order, a join replays every non-empty
//! snapshot in ascending modification-time order, the client set never holds
//! a handle twice, and nothing is delivered to a client after it leaves.

use crate::broker::{
    appeared_deliveries, fanout, join_deliveries, replay, step_clients, step_deliveries,
    DeliveryV, InputV,
};
use crate::codec::MsgV;
use crate::registry::{lemma_add_handle, lemma_remove_handle, no_dups, remove_handle};
use crate::store::{
    lemma_sort_snaps_contains, lemma_sort_snaps_mtime, mtime_sorted, sort_snaps, SnapV,
};
use vstd::prelude::*;

verus! {

/// The `NewDot` message a snapshot gives rise to.
pub open spec fn new_dot_of(s: SnapV) -> MsgV {
    MsgV::NewDot { name: s.name, content: s.content, creation_time_ms: s.mtime_ms }
}

/// The client set after a whole sequence of inputs.
pub open spec fn run_clients(clients: Seq<u64>, inputs: Seq<InputV>) -> Seq<u64>
    decreases inputs.len(),
{
    if inputs.len() == 0 {
        clients
    } else {
        step_clients(run_clients(clients, inputs.drop_last()), inputs.last())
    }
}

/// Every delivery a sequence of inputs produces: the per-input deliveries
/// concatenated in input order.
pub open spec fn run_deliveries(clients: Seq<u64>, inputs: Seq<InputV>) -> Seq<DeliveryV>
    decreases inputs.len(),
{
    if inputs.len() == 0 {
        Seq::empty()
    } else {
        run_deliveries(clients, inputs.drop_last()) + step_deliveries(
            run_clients(clients, inputs.drop_last()),
            inputs.last(),
        )
    }
}

/// Whether an input registers the client `h`.
pub open spec fn joins(input: InputV, h: u64) -> bool {
    match input {
        InputV::Join { client, .. } => client == h,
        _ => false,
    }
}

/// Deliveries follow observation order: the deliveries of a run split
/// exactly as its inputs do, so everything owed for an earlier input stands
/// before everything owed for a later one. In particular, for two messages
/// delivered to one client about one path, the filesystem change behind the
/// first was observed no later than that behind the second.
pub proof fn lemma_deliveries_follow_input_order(
    clients: Seq<u64>,
    a: Seq<InputV>,
    b: Seq<InputV>,
)
    ensures
        run_clients(clients, a + b) == run_clients(run_clients(clients, a), b),
        run_deliveries(clients, a + b) == run_deliveries(clients, a) + run_deliveries(
            run_clients(clients, a),
            b,
        ),
    decreases b.len(),
{
    if b.len() == 0 {
        assert(a + b =~= a);
        assert(run_deliveries(clients, a) + run_deliveries(run_clients(clients, a), b)
            =~= run_deliveries(clients, a));
    } else {
        lemma_deliveries_follow_input_order(clients, a, b.drop_last());
        Seq::drop_last_distributes_over_add(a, b);
        assert((a + b).last() == b.last());
        assert(run_deliveries(clients, a + b) =~= run_deliveries(clients, a) + run_deliveries(
            run_clients(clients, a),
            b,
        ));
    }
}

/// Fan-out is exact: one copy of the message per registered client, in
/// registration order, and nothing else.
pub proof fn lemma_fanout(clients: Seq<u64>, m: MsgV)
    ensures
        fanout(clients, m).len() == clients.len(),
        forall|k: int|
            0 <= k < clients.len() ==> fanout(clients, m)[k] == (DeliveryV {
                client: clients[k],
                message: m,
            }),
    decreases clients.len(),
{
    if clients.len() > 0 {
        lemma_fanout(clients.drop_last(), m);
    }
}

/// Every replay delivery goes to the joining client, is a `NewDot`, and
/// carries non-empty content.
pub proof fn lemma_replay_shape(client: u64, sorted: Seq<SnapV>)
    ensures
        forall|k: int|
            0 <= k < replay(client, sorted).len() ==> replay(client, sorted)[k].client == client,
        forall|k: int|
            0 <= k < replay(client, sorted).len() ==> replay(
                client,
                sorted,
            )[k].message.is_new_dot(),
        forall|k: int|
            0 <= k < replay(client, sorted).len() ==> replay(
                client,
                sorted,
            )[k].message.content_or_empty().len() > 0,
    decreases sorted.len(),
{
    if sorted.len() > 0 {
        lemma_replay_shape(client, sorted.drop_last());
    }
}

/// Every replay message's time is bounded by any bound on the listing.
proof fn lemma_replay_time_bound(client: u64, sorted: Seq<SnapV>, hi: u64)
    requires
        forall|j: int| 0 <= j < sorted.len() ==> sorted[j].mtime_ms <= hi,
    ensures
        forall|k: int|
            0 <= k < replay(client, sorted).len() ==> replay(client, sorted)[k].message.time()
                <= hi,
    decreases sorted.len(),
{
    if sorted.len() > 0 {
        assert(forall|j: int|
            0 <= j < sorted.drop_last().len() ==> sorted.drop_last()[j] == sorted[j]);
        lemma_replay_time_bound(client, sorted.drop_last(), hi);
    }
}

/// Replay of a time-sorted listing delivers ascending times.
pub proof fn lemma_replay_ordered(client: u64, sorted: Seq<SnapV>)
    requires
        mtime_sorted(sorted),
    ensures
        forall|k1: int, k2: int|
            0 <= k1 <= k2 < replay(client, sorted).len() ==> replay(
                client,
                sorted,
            )[k1].message.time() <= replay(client, sorted)[k2].message.time(),
    decreases sorted.len(),
{
    if sorted.len() > 0 {
        let d = sorted.drop_last();
        assert(forall|j: int| 0 <= j < d.len() ==> d[j] == sorted[j]);
        lemma_replay_ordered(client, d);
        lemma_replay_time_bound(client, d, sorted.last().mtime_ms);
    }
}

/// Every non-empty snapshot of the listing has a `NewDot` in the replay.
pub proof fn lemma_replay_complete(client: u64, sorted: Seq<SnapV>, s: SnapV)
    requires
        sorted.contains(s),
        s.content.len() > 0,
    ensures
        exists|k: int|
            0 <= k < replay(client, sorted).len() && replay(client, sorted)[k].message
                == new_dot_of(s),
    decreases sorted.len(),
{
    let r = replay(client, sorted);
    if sorted.last() == s {
        assert(r[r.len() - 1].message == new_dot_of(s));
    } else {
        let i = choose|i: int| 0 <= i < sorted.len() && sorted[i] == s;
        assert(sorted.drop_last()[i] == s);
        assert(sorted.drop_last().contains(s));
        lemma_replay_complete(client, sorted.drop_last(), s);
        let k = choose|k: int|
            0 <= k < replay(client, sorted.drop_last()).len() && replay(
                client,
                sorted.drop_last(),
            )[k].message == new_dot_of(s);
        assert(r[k].message == new_dot_of(s));
    }
}

/// The join guarantee: the new client is owed a `NewDot` for every non-empty
/// snapshot of the listing taken at registration, every owed message goes to
/// that client alone and carries non-empty content, and the owed times are
/// ascending, so an older snapshot is replayed no later than a newer one.
pub proof fn lemma_join_replay(client: u64, listing: Seq<SnapV>)
    ensures
        forall|k: int|
            0 <= k < join_deliveries(client, listing).len() ==> join_deliveries(
                client,
                listing,
            )[k].client == client,
        forall|k: int|
            0 <= k < join_deliveries(client, listing).len() ==> join_deliveries(
                client,
                listing,
            )[k].message.is_new_dot(),
        forall|k: int|
            0 <= k < join_deliveries(client, listing).len() ==> join_deliveries(
                client,
                listing,
            )[k].message.content_or_empty().len() > 0,
        forall|k1: int, k2: int|
            0 <= k1 <= k2 < join_deliveries(client, listing).len() ==> join_deliveries(
                client,
                listing,
            )[k1].message.time() <= join_deliveries(client, listing)[k2].message.time(),
        forall|s: SnapV|
            listing.contains(s) && s.content.len() > 0 ==> exists|k: int|
                0 <= k < join_deliveries(client, listing).len() && join_deliveries(
                    client,
                    listing,
                )[k].message == new_dot_of(s),
{
    let sorted = sort_snaps(listing);
    lemma_sort_snaps_mtime(listing);
    lemma_replay_shape(client, sorted);
    lemma_replay_ordered(client, sorted);
    assert forall|s: SnapV| listing.contains(s) && s.content.len() > 0 implies exists|k: int|
        0 <= k < join_deliveries(client, listing).len() && join_deliveries(
            client,
            listing,
        )[k].message == new_dot_of(s) by {
        lemma_sort_snaps_contains(listing, s);
        lemma_replay_complete(client, sorted, s);
    }
}

/// The path a steady-state input concerns.
pub open spec fn concerns(input: InputV) -> Option<Seq<char>> {
    match input {
        InputV::Appeared { name, .. } => Option::Some(name),
        InputV::Vanished { name, .. } => Option::Some(name),
        _ => Option::None,
    }
}

/// Every message a steady-state event fans out names that event's own path
/// and carries its time: fan-out never mixes paths, so the per-path order a
/// client sees is the order in which the watcher observed the events.
pub proof fn lemma_steady_state_names(clients: Seq<u64>, input: InputV)
    requires
        concerns(input) is Some,
    ensures
        forall|k: int|
            0 <= k < step_deliveries(clients, input).len() ==> Option::Some(
                #[trigger] step_deliveries(clients, input)[k].message.name(),
            ) == concerns(input),
{
    match input {
        InputV::Appeared { name, content, mtime_ms } => {
            match content {
                Option::Some(c) => {
                    if c.len() > 0 {
                        lemma_fanout(
                            clients,
                            MsgV::NewDot { name, content: c, creation_time_ms: mtime_ms },
                        );
                    }
                },
                Option::None => {},
            }
        },
        InputV::Vanished { name, mtime_ms } => {
            lemma_fanout(clients, MsgV::DotRemoved { name, creation_time_ms: mtime_ms });
        },
        _ => {},
    }
}

/// A run started without duplicate handles never produces them: the client
/// set holds no duplicate handle at any observable moment.
pub proof fn lemma_run_no_dups(clients: Seq<u64>, inputs: Seq<InputV>)
    requires
        no_dups(clients),
    ensures
        no_dups(run_clients(clients, inputs)),
    decreases inputs.len(),
{
    if inputs.len() > 0 {
        lemma_run_no_dups(clients, inputs.drop_last());
        let prev = run_clients(clients, inputs.drop_last());
        match inputs.last() {
            InputV::Join { client, .. } => {
                lemma_add_handle(prev, client);
            },
            InputV::Leave { client } => {
                lemma_remove_handle(prev, client);
            },
            _ => {},
        }
    }
}

/// A client that is absent and never joins receives nothing.
pub proof fn lemma_no_delivery_to_absent(clients: Seq<u64>, inputs: Seq<InputV>, h: u64)
    requires
        !clients.contains(h),
        forall|i: int| 0 <= i < inputs.len() ==> !joins(#[trigger] inputs[i], h),
    ensures
        !run_clients(clients, inputs).contains(h),
        forall|k: int|
            0 <= k < run_deliveries(clients, inputs).len() ==> run_deliveries(
                clients,
                inputs,
            )[k].client != h,
    decreases inputs.len(),
{
    if inputs.len() > 0 {
        let front = inputs.drop_last();
        assert(forall|i: int| 0 <= i < front.len() ==> front[i] == inputs[i]);
        lemma_no_delivery_to_absent(clients, front, h);
        let prev = run_clients(clients, front);
        let last = inputs.last();
        assert(last == inputs[inputs.len() - 1]);
        let step_ds = step_deliveries(prev, last);
        assert(forall|k: int| 0 <= k < step_ds.len() ==> step_ds[k].client != h) by {
            match last {
                InputV::Join { client, listing } => {
                    lemma_replay_shape(client, sort_snaps(listing));
                },
                InputV::Leave { .. } => {},
                InputV::Appeared { name, content, mtime_ms } => {
                    match content {
                        Option::Some(c) => {
                            if c.len() > 0 {
                                lemma_fanout(
                                    prev,
                                    MsgV::NewDot { name, content: c, creation_time_ms: mtime_ms },
                                );
                            }
                        },
                        Option::None => {},
                    }
                },
                InputV::Vanished { name, mtime_ms } => {
                    lemma_fanout(prev, MsgV::DotRemoved { name, creation_time_ms: mtime_ms });
                },
            }
        }
        match last {
            InputV::Join { client, .. } => {
                lemma_add_handle(prev, client);
            },
            InputV::Leave { client } => {
                lemma_remove_handle(prev, client);
            },
            _ => {},
        }
    }
}

/// Nothing is delivered to a client after its `leave` returns, until and
/// unless it joins again.
pub proof fn lemma_no_delivery_after_leave(clients: Seq<u64>, h: u64, later: Seq<InputV>)
    requires
        forall|i: int| 0 <= i < later.len() ==> !joins(#[trigger] later[i], h),
    ensures
        forall|k: int|
            0 <= k < run_deliveries(remove_handle(clients, h), later).len() ==> run_deliveries(
                remove_handle(clients, h),
                later,
            )[k].client != h,
{
    lemma_remove_handle(clients, h);
    lemma_no_delivery_to_absent(remove_handle(clients, h), later, h);
}

/// A run of two inputs, written out.
proof fn lemma_two_inputs(clients: Seq<u64>, i1: InputV, i2: InputV)
    ensures
        run_clients(clients, seq![i1, i2]) == step_clients(step_clients(clients, i1), i2),
        run_deliveries(clients, seq![i1, i2]) == step_deliveries(clients, i1) + step_deliveries(
            step_clients(clients, i1),
            i2,
        ),
{
    let e: Seq<InputV> = Seq::empty();
    let one = seq![i1];
    let two = seq![i1, i2];
    assert(two.drop_last() =~= one);
    assert(one.drop_last() =~= e);
    assert(one.last() == i1);
    assert(two.last() == i2);
    assert(run_clients(clients, e) == clients);
    assert(run_deliveries(clients, e) == Seq::<DeliveryV>::empty());
    assert(run_clients(clients, one) == step_clients(clients, i1));
    assert(run_deliveries(clients, one) =~= step_deliveries(clients, i1));
    assert(run_deliveries(clients, two) =~= step_deliveries(clients, i1) + step_deliveries(
        step_clients(clients, i1),
        i2,
    ));
}

/// Writing the same content twice to the same path: both rounds deliver to
/// every client a `NewDot` with identical name and identical content.
pub proof fn lemma_same_content_twice(
    clients: Seq<u64>,
    name: Seq<char>,
    content: Seq<char>,
    t1: u64,
    t2: u64,
)
    requires
        content.len() > 0,
    ensures
        ({
            let ds = run_deliveries(
                clients,
                seq![
                    InputV::Appeared { name, content: Option::Some(content), mtime_ms: t1 },
                    InputV::Appeared { name, content: Option::Some(content), mtime_ms: t2 },
                ],
            );
            &&& ds.len() == 2 * clients.len()
            &&& forall|k: int| 0 <= k < ds.len() ==> (#[trigger] ds[k].message).is_new_dot()
            &&& forall|k: int| 0 <= k < ds.len() ==> (#[trigger] ds[k].message).name() == name
            &&& forall|k: int|
                0 <= k < ds.len() ==> (#[trigger] ds[k].message).content_or_empty() == content
        }),
{
    let i1 = InputV::Appeared { name, content: Option::Some(content), mtime_ms: t1 };
    let i2 = InputV::Appeared { name, content: Option::Some(content), mtime_ms: t2 };
    let m1 = MsgV::NewDot { name, content, creation_time_ms: t1 };
    let m2 = MsgV::NewDot { name, content, creation_time_ms: t2 };
    lemma_fanout(clients, m1);
    lemma_fanout(clients, m2);
    let ds = run_deliveries(clients, seq![i1, i2]);
    lemma_two_inputs(clients, i1, i2);
    assert(step_deliveries(clients, i1) == fanout(clients, m1));
    assert(step_clients(clients, i1) == clients);
    assert(step_deliveries(clients, i2) == fanout(clients, m2));
    assert(ds =~= fanout(clients, m1) + fanout(clients, m2));
    assert forall|k: int| 0 <= k < ds.len() implies (#[trigger] ds[k].message).is_new_dot() && (
    ds[k].message).name() == name && (ds[k].message).content_or_empty() == content by {
        if k < clients.len() {
            assert(ds[k] == fanout(clients, m1)[k]);
        } else {
            assert(ds[k] == fanout(clients, m2)[k - clients.len()]);
        }
    }
}

/// Removing and recreating a path delivers, to every client, `DotRemoved`
/// strictly before the new `NewDot`; the client set does not change.
pub proof fn lemma_remove_then_recreate(
    clients: Seq<u64>,
    name: Seq<char>,
    content: Seq<char>,
    t1: u64,
    t2: u64,
)
    requires
        content.len() > 0,
    ensures
        ({
            let ds = run_deliveries(
                clients,
                seq![
                    InputV::Vanished { name, mtime_ms: t1 },
                    InputV::Appeared { name, content: Option::Some(content), mtime_ms: t2 },
                ],
            );
            &&& ds.len() == 2 * clients.len()
            &&& forall|k: int|
                0 <= k < clients.len() ==> (#[trigger] ds[k].message).is_dot_removed()
                    && ds[k].message.name() == name
            &&& forall|k: int|
                clients.len() <= k < ds.len() ==> (#[trigger] ds[k].message).is_new_dot()
                    && ds[k].message.name() == name
        }),
        run_clients(
            clients,
            seq![
                InputV::Vanished { name, mtime_ms: t1 },
                InputV::Appeared { name, content: Option::Some(content), mtime_ms: t2 },
            ],
        ) == clients,
{
    let i1 = InputV::Vanished { name, mtime_ms: t1 };
    let i2 = InputV::Appeared { name, content: Option::Some(content), mtime_ms: t2 };
    let m1 = MsgV::DotRemoved { name, creation_time_ms: t1 };
    let m2 = MsgV::NewDot { name, content, creation_time_ms: t2 };
    lemma_fanout(clients, m1);
    lemma_fanout(clients, m2);
    let ds = run_deliveries(clients, seq![i1, i2]);
    lemma_two_inputs(clients, i1, i2);
    assert(step_deliveries(clients, i1) == fanout(clients, m1));
    assert(step_clients(clients, i1) == clients);
    assert(step_deliveries(clients, i2) == fanout(clients, m2));
    assert(ds =~= fanout(clients, m1) + fanout(clients, m2));
    assert forall|k: int| 0 <= k < clients.len() implies (#[trigger] ds[k].message).is_dot_removed()
        && ds[k].message.name() == name by {
        assert(ds[k] == fanout(clients, m1)[k]);
    }
    assert forall|k: int| clients.len() <= k < ds.len() implies (#[trigger]
    ds[k].message).is_new_dot() && ds[k].message.name() == name by {
        assert(ds[k] == fanout(clients, m2)[k - clients.len()]);
    }
}

/// A zero-byte `.dot` file, or an unreadable one, produces no message at all.
pub proof fn lemma_empty_file_suppressed(
    clients: Seq<u64>,
    name: Seq<char>,
    content: Option<Seq<char>>,
    t: u64,
)
    requires
        content matches Option::Some(c) ==> c.len() == 0,
    ensures
        appeared_deliveries(clients, name, content, t) == Seq::<DeliveryV>::empty(),
{
}

} // verus!
