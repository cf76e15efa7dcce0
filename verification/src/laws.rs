//! The stated properties of the synchronization core, proved for all inputs:
//! roster consistency over arbitrary lifecycle histories, join notification
//! counts, echo suppression, and disconnect cleanup. The codec round trips
//! are stated beside the codec itself.

use vstd::prelude::*;

use crate::engine::delivery_count;
use crate::engine::distinct;
use crate::engine::lemma_deliveries_all_singleton;
use crate::engine::lemma_deliveries_count;
use crate::engine::lemma_delivery_count_concat;
use crate::engine::lemma_distinct_occurrences;
use crate::engine::lemma_occurrences_push;
use crate::engine::lemma_recipients_occurrences;
use crate::engine::spec_deliveries;
use crate::engine::spec_deliveries_all;
use crate::engine::DirectiveView;
use crate::protocol::ServerMessageView;
use crate::protocol::Vec2Bits;
use crate::roster::contains_id;
use crate::roster::distinct_ids;
use crate::roster::joined_message;
use crate::roster::joined_record;
use crate::roster::lemma_lookup_none_iff;
use crate::roster::lemma_update_absent;
use crate::roster::replay_directives;
use crate::roster::replay_unicast;
use crate::roster::spec_connect_directives;
use crate::roster::spec_connect_roster;
use crate::roster::spec_ids;
use crate::roster::spec_lookup;
use crate::roster::spec_remove_id;
use crate::roster::spec_transform_directives;
use crate::roster::spec_update_transform;
use crate::roster::transform_message;
use crate::roster::PlayerRecordView;

verus! {

/// Dropping the first record keeps keys unique.
proof fn lemma_distinct_drop_first(roster: Seq<PlayerRecordView>)
    requires
        distinct_ids(roster),
        roster.len() > 0,
    ensures
        distinct_ids(roster.drop_first()),
{
    assert forall|i: int, j: int|
        0 <= i < j < roster.drop_first().len() implies roster.drop_first()[i].client_id
        != roster.drop_first()[j].client_id by {
        assert(roster.drop_first()[i] == roster[i + 1]);
        assert(roster.drop_first()[j] == roster[j + 1]);
    }
}

/// Appending a record changes lookups only for its id, and only when that id
/// was absent.
pub proof fn lemma_lookup_push(roster: Seq<PlayerRecordView>, r: PlayerRecordView, id: u64)
    ensures
        spec_lookup(roster.push(r), id) == if contains_id(roster, id) {
            spec_lookup(roster, id)
        } else if r.client_id == id {
            Some(r)
        } else {
            None::<PlayerRecordView>
        },
    decreases roster.len(),
{
    if roster.len() == 0 {
        assert(roster.push(r)[0] == r);
        assert(roster.push(r).drop_first() =~= Seq::<PlayerRecordView>::empty());
    } else {
        assert(roster.push(r)[0] == roster[0]);
        assert(roster.push(r).drop_first() =~= roster.drop_first().push(r));
        lemma_lookup_push(roster.drop_first(), r, id);
    }
}

/// Every record of a removal result is a record of the original roster.
proof fn lemma_remove_id_element(roster: Seq<PlayerRecordView>, x: u64, k: int)
    requires
        0 <= k < spec_remove_id(roster, x).len(),
    ensures
        exists|j: int| 0 <= j < roster.len() && roster[j] == spec_remove_id(roster, x)[k],
    decreases roster.len(),
{
    let t = spec_remove_id(roster, x);
    if roster[0].client_id == x {
        assert(roster[k + 1] == t[k]);
    } else {
        if k == 0 {
            assert(roster[0] == t[0]);
        } else {
            lemma_remove_id_element(roster.drop_first(), x, k - 1);
            let rest = spec_remove_id(roster.drop_first(), x);
            let j = choose|j: int|
                0 <= j < roster.drop_first().len() && roster.drop_first()[j] == rest[k - 1];
            assert(t[k] == rest[k - 1]);
            assert(roster[j + 1] == t[k]);
        }
    }
}

/// Removal keeps keys unique.
pub proof fn lemma_remove_id_distinct(roster: Seq<PlayerRecordView>, x: u64)
    requires
        distinct_ids(roster),
    ensures
        distinct_ids(spec_remove_id(roster, x)),
    decreases roster.len(),
{
    if roster.len() > 0 {
        lemma_distinct_drop_first(roster);
        if roster[0].client_id != x {
            lemma_remove_id_distinct(roster.drop_first(), x);
            let t = spec_remove_id(roster, x);
            let rest = spec_remove_id(roster.drop_first(), x);
            assert forall|i: int, j: int|
                0 <= i < j < t.len() implies t[i].client_id != t[j].client_id by {
                if i == 0 {
                    lemma_remove_id_element(roster.drop_first(), x, j - 1);
                    let w = choose|w: int|
                        0 <= w < roster.drop_first().len() && roster.drop_first()[w] == rest[j - 1];
                    assert(roster[w + 1] == rest[j - 1]);
                    assert(roster[0].client_id != roster[w + 1].client_id);
                    assert(t[j] == rest[j - 1]);
                } else {
                    assert(t[i] == rest[i - 1]);
                    assert(t[j] == rest[j - 1]);
                }
            }
        }
    }
}

/// After a removal, a lookup misses the removed id and finds every other id
/// unchanged.
pub proof fn lemma_lookup_remove(roster: Seq<PlayerRecordView>, x: u64, id: u64)
    requires
        distinct_ids(roster),
    ensures
        spec_lookup(spec_remove_id(roster, x), id) == if id == x {
            None::<PlayerRecordView>
        } else {
            spec_lookup(roster, id)
        },
    decreases roster.len(),
{
    if roster.len() > 0 {
        lemma_distinct_drop_first(roster);
        if roster[0].client_id == x {
            if id == x {
                assert forall|k: int|
                    0 <= k < roster.drop_first().len() implies roster.drop_first()[k].client_id
                    != x by {
                    assert(roster.drop_first()[k] == roster[k + 1]);
                    assert(roster[0].client_id != roster[k + 1].client_id);
                }
                lemma_lookup_none_iff(roster.drop_first(), x);
            }
        } else {
            lemma_lookup_remove(roster.drop_first(), x, id);
            let t = spec_remove_id(roster, x);
            let rest = spec_remove_id(roster.drop_first(), x);
            assert(t[0] == roster[0]);
            assert(t.drop_first() =~= rest);
        }
    }
}

/// A transform update touches no identity: the id list is unchanged.
pub proof fn lemma_update_preserves_ids(
    roster: Seq<PlayerRecordView>,
    id: u64,
    position: Vec2Bits,
    rotation: u32,
)
    ensures
        spec_ids(spec_update_transform(roster, id, position, rotation)) == spec_ids(roster),
    decreases roster.len(),
{
    let t = spec_update_transform(roster, id, position, rotation);
    if roster.len() == 0 {
        assert(spec_ids(t) =~= spec_ids(roster));
    } else if roster[0].client_id == id {
        assert(spec_ids(t) =~= spec_ids(roster));
    } else {
        lemma_update_preserves_ids(roster.drop_first(), id, position, rotation);
        let rest = spec_update_transform(roster.drop_first(), id, position, rotation);
        assert(spec_ids(rest).len() == rest.len());
        assert(spec_ids(roster.drop_first()).len() == roster.drop_first().len());
        assert forall|k: int| 0 <= k < spec_ids(t).len() implies spec_ids(t)[k] == spec_ids(
            roster,
        )[k] by {
            if k == 0 {
                assert(t[0] == roster[0]);
            } else {
                assert(t[k] == rest[k - 1]);
                assert(spec_ids(rest)[k - 1] == rest[k - 1].client_id);
                assert(spec_ids(rest)[k - 1] == spec_ids(roster.drop_first())[k - 1]);
                assert(spec_ids(roster.drop_first())[k - 1] == roster.drop_first()[
                    k - 1
                ].client_id);
                assert(roster.drop_first()[k - 1] == roster[k]);
            }
        }
        assert(spec_ids(t) =~= spec_ids(roster));
    }
}

/// The id list of a roster with unique keys is duplicate-free.
proof fn lemma_ids_distinct(roster: Seq<PlayerRecordView>)
    requires
        distinct_ids(roster),
    ensures
        distinct(spec_ids(roster)),
{
    assert forall|i: int, j: int|
        0 <= i < j < spec_ids(roster).len() implies spec_ids(roster)[i] != spec_ids(roster)[j] by {
        assert(spec_ids(roster)[i] == roster[i].client_id);
        assert(spec_ids(roster)[j] == roster[j].client_id);
    }
}

/// A connected id is in the id list; an absent one is not.
proof fn lemma_ids_contains(roster: Seq<PlayerRecordView>, id: u64)
    ensures
        spec_ids(roster).contains(id) == contains_id(roster, id),
{
    lemma_lookup_none_iff(roster, id);
    if contains_id(roster, id) {
        let k = choose|k: int| 0 <= k < roster.len() && roster[k].client_id == id;
        assert(spec_ids(roster)[k] == id);
    }
    if spec_ids(roster).contains(id) {
        let k = choose|k: int| 0 <= k < spec_ids(roster).len() && spec_ids(roster)[k] == id;
        assert(roster[k].client_id == id);
    }
}

/// How many of the replay unicasts sent to a newcomer carry message `m`.
spec fn replay_count(
    roster: Seq<PlayerRecordView>,
    newcomer: u64,
    to: u64,
    m: ServerMessageView,
) -> nat
    decreases roster.len(),
{
    if roster.len() == 0 {
        0
    } else {
        (if to == newcomer && m == joined_message(roster[0].client_id, roster[0].username) {
            1nat
        } else {
            0nat
        }) + replay_count(roster.drop_first(), newcomer, to, m)
    }
}

/// The replay unicasts address `replay_count` copies of each message.
proof fn lemma_replay_deliveries(
    roster: Seq<PlayerRecordView>,
    connected: Seq<u64>,
    newcomer: u64,
    to: u64,
    m: ServerMessageView,
)
    ensures
        delivery_count(
            spec_deliveries_all(connected, replay_directives(roster, newcomer)),
            to,
            m,
        ) == replay_count(roster, newcomer, to, m),
    decreases roster.len(),
{
    let ds = replay_directives(roster, newcomer);
    if roster.len() > 0 {
        let tail = replay_directives(roster.drop_first(), newcomer);
        assert(ds[0] == replay_unicast(newcomer, roster[0]));
        assert(ds.drop_first() =~= tail);
        let jm = joined_message(roster[0].client_id, roster[0].username);
        let head = spec_deliveries(connected, ds[0]);
        assert(head =~= seq![(newcomer, jm)]);
        assert(head.drop_first() =~= Seq::<(u64, ServerMessageView)>::empty());
        assert(delivery_count(Seq::<(u64, ServerMessageView)>::empty(), to, m) == 0);
        assert(delivery_count(head, to, m) == (if (to, m) == (newcomer, jm) {
            1nat
        } else {
            0nat
        }));
        lemma_replay_deliveries(roster.drop_first(), connected, newcomer, to, m);
        lemma_delivery_count_concat(head, spec_deliveries_all(connected, tail), to, m);
        assert(spec_deliveries_all(connected, ds) == head + spec_deliveries_all(connected, tail));
    }
}

/// No replay unicast goes to anyone but the newcomer.
proof fn lemma_replay_count_other(
    roster: Seq<PlayerRecordView>,
    newcomer: u64,
    to: u64,
    m: ServerMessageView,
)
    requires
        to != newcomer,
    ensures
        replay_count(roster, newcomer, to, m) == 0,
    decreases roster.len(),
{
    if roster.len() > 0 {
        lemma_replay_count_other(roster.drop_first(), newcomer, to, m);
    }
}

/// No replay unicast announces an id that is not in the roster.
proof fn lemma_replay_count_absent(
    roster: Seq<PlayerRecordView>,
    newcomer: u64,
    x: u64,
    u: Seq<char>,
)
    requires
        !contains_id(roster, x),
    ensures
        replay_count(roster, newcomer, newcomer, joined_message(x, u)) == 0,
    decreases roster.len(),
{
    if roster.len() > 0 {
        lemma_replay_count_absent(roster.drop_first(), newcomer, x, u);
    }
}

/// Exactly one replay unicast announces each connected player.
proof fn lemma_replay_count_present(roster: Seq<PlayerRecordView>, newcomer: u64, a: u64)
    requires
        distinct_ids(roster),
        contains_id(roster, a),
    ensures
        spec_lookup(roster, a) matches Some(p) ==> replay_count(
            roster,
            newcomer,
            newcomer,
            joined_message(a, p.username),
        ) == 1,
    decreases roster.len(),
{
    if roster[0].client_id == a {
        let p = roster[0];
        assert forall|k: int|
            0 <= k < roster.drop_first().len() implies roster.drop_first()[k].client_id != a by {
            assert(roster.drop_first()[k] == roster[k + 1]);
            assert(roster[0].client_id != roster[k + 1].client_id);
        }
        lemma_lookup_none_iff(roster.drop_first(), a);
        lemma_replay_count_absent(roster.drop_first(), newcomer, a, p.username);
    } else {
        lemma_distinct_drop_first(roster);
        lemma_replay_count_present(roster.drop_first(), newcomer, a);
    }
}

/// Join ordering: when client B completes its handshake while client A is
/// already connected, the produced batch addresses the announcement of B to
/// A exactly once, addresses the presence of A to B exactly once, and never
/// announces B to itself.
pub proof fn lemma_join_notification(
    roster: Seq<PlayerRecordView>,
    a: u64,
    b: u64,
    username: Seq<char>,
)
    requires
        distinct_ids(roster),
        contains_id(roster, a),
        !contains_id(roster, b),
        a != b,
    ensures
        ({
            let connected = spec_ids(spec_connect_roster(roster, b, username));
            let delivered = spec_deliveries_all(
                connected,
                spec_connect_directives(roster, b, username),
            );
            &&& delivery_count(delivered, a, joined_message(b, username)) == 1
            &&& delivery_count(delivered, b, joined_message(b, username)) == 0
            &&& (spec_lookup(roster, a) matches Some(p) ==> delivery_count(
                delivered,
                b,
                joined_message(a, p.username),
            ) == 1)
        }),
{
    let connected = spec_ids(spec_connect_roster(roster, b, username));
    assert(connected =~= spec_ids(roster).push(b));
    let ds = spec_connect_directives(roster, b, username);
    let fanout = DirectiveView::FanOut { message: joined_message(b, username), except: Some(b) };
    let unicasts = replay_directives(roster, b);
    assert(ds[0] == fanout);
    assert(ds.drop_first() =~= unicasts);
    let head = spec_deliveries(connected, fanout);
    let rest = spec_deliveries_all(connected, unicasts);
    assert(spec_deliveries_all(connected, ds) == head + rest);

    lemma_ids_distinct(roster);
    lemma_ids_contains(roster, a);
    lemma_ids_contains(roster, b);
    lemma_occurrences_push(spec_ids(roster), b, a);
    lemma_occurrences_push(spec_ids(roster), b, b);
    lemma_distinct_occurrences(spec_ids(roster), a);
    lemma_distinct_occurrences(spec_ids(roster), b);

    let jb = joined_message(b, username);
    lemma_deliveries_count(connected, fanout, a, jb);
    lemma_recipients_occurrences(connected, Some(b), a);
    lemma_replay_deliveries(roster, connected, b, a, jb);
    lemma_replay_count_other(roster, b, a, jb);
    lemma_delivery_count_concat(head, rest, a, jb);

    lemma_deliveries_count(connected, fanout, b, jb);
    lemma_recipients_occurrences(connected, Some(b), b);
    lemma_replay_deliveries(roster, connected, b, b, jb);
    lemma_replay_count_absent(roster, b, b, username);
    lemma_delivery_count_concat(head, rest, b, jb);

    match spec_lookup(roster, a) {
        Some(p) => {
            let ja = joined_message(a, p.username);
            lemma_deliveries_count(connected, fanout, b, ja);
            lemma_replay_deliveries(roster, connected, b, b, ja);
            lemma_replay_count_present(roster, b, a);
            lemma_delivery_count_concat(head, rest, b, ja);
        },
        None => {},
    }
}

/// Echo suppression: the accepted transform update of client A is addressed
/// exactly once to every other connected client and never back to A.
pub proof fn lemma_echo_suppression(
    roster: Seq<PlayerRecordView>,
    a: u64,
    position: Vec2Bits,
    rotation: u32,
    c: u64,
)
    requires
        distinct_ids(roster),
        contains_id(roster, a),
    ensures
        ({
            let connected = spec_ids(spec_update_transform(roster, a, position, rotation));
            let delivered = spec_deliveries_all(
                connected,
                spec_transform_directives(roster, a, position, rotation),
            );
            let m = transform_message(a, position, rotation);
            &&& delivery_count(delivered, a, m) == 0
            &&& (contains_id(roster, c) && c != a ==> delivery_count(delivered, c, m) == 1)
        }),
{
    lemma_update_preserves_ids(roster, a, position, rotation);
    let connected = spec_ids(roster);
    let m = transform_message(a, position, rotation);
    let fanout = DirectiveView::FanOut { message: m, except: Some(a) };
    assert(spec_transform_directives(roster, a, position, rotation) == seq![fanout]);
    lemma_deliveries_all_singleton(connected, fanout);
    lemma_deliveries_count(connected, fanout, a, m);
    lemma_recipients_occurrences(connected, Some(a), a);
    if contains_id(roster, c) && c != a {
        lemma_deliveries_count(connected, fanout, c, m);
        lemma_recipients_occurrences(connected, Some(a), c);
        lemma_ids_distinct(roster);
        lemma_ids_contains(roster, c);
        lemma_distinct_occurrences(spec_ids(roster), c);
    }
}

/// Disconnect cleanup: once a client's record is removed, a transform update
/// for that id changes nothing and is not broadcast — in particular it does
/// not reinsert the id.
pub proof fn lemma_disconnect_cleanup(
    roster: Seq<PlayerRecordView>,
    id: u64,
    position: Vec2Bits,
    rotation: u32,
)
    requires
        distinct_ids(roster),
    ensures
        ({
            let after = spec_remove_id(roster, id);
            &&& !contains_id(after, id)
            &&& spec_transform_directives(after, id, position, rotation) == Seq::<
                DirectiveView,
            >::empty()
            &&& spec_update_transform(after, id, position, rotation) == after
        }),
{
    let after = spec_remove_id(roster, id);
    lemma_lookup_remove(roster, id, id);
    lemma_update_absent(after, id, position, rotation);
}

/// One lifecycle event at the transport: a completed handshake carrying a
/// parsed username, or a disconnection.
pub enum LifecycleEvent {
    Connected { id: u64, username: Seq<char> },
    Disconnected { id: u64 },
}

/// What one lifecycle event does to the roster.
pub open spec fn spec_apply_event(
    roster: Seq<PlayerRecordView>,
    e: LifecycleEvent,
) -> Seq<PlayerRecordView> {
    match e {
        LifecycleEvent::Connected { id, username } => if contains_id(roster, id) {
            roster
        } else {
            spec_connect_roster(roster, id, username)
        },
        LifecycleEvent::Disconnected { id } => spec_remove_id(roster, id),
    }
}

/// The roster after a whole lifecycle history, oldest event first.
pub open spec fn spec_roster_after(
    roster: Seq<PlayerRecordView>,
    events: Seq<LifecycleEvent>,
) -> Seq<PlayerRecordView>
    decreases events.len(),
{
    if events.len() == 0 {
        roster
    } else {
        spec_roster_after(spec_apply_event(roster, events[0]), events.drop_first())
    }
}

/// Whether an id's most recent lifecycle event is a connect — starting from
/// whether it was present before the history.
pub open spec fn live_after(live0: bool, events: Seq<LifecycleEvent>, id: u64) -> bool
    decreases events.len(),
{
    if events.len() == 0 {
        live0
    } else {
        let l1 = match events[0] {
            LifecycleEvent::Connected { id: e, username } => e == id || live0,
            LifecycleEvent::Disconnected { id: e } => e != id && live0,
        };
        live_after(l1, events.drop_first(), id)
    }
}

/// Every lifecycle event keeps keys unique.
pub proof fn lemma_apply_event_distinct(roster: Seq<PlayerRecordView>, e: LifecycleEvent)
    requires
        distinct_ids(roster),
    ensures
        distinct_ids(spec_apply_event(roster, e)),
{
    match e {
        LifecycleEvent::Connected { id, username } => {
            if !contains_id(roster, id) {
                lemma_lookup_none_iff(roster, id);
                let t = spec_connect_roster(roster, id, username);
                assert forall|i: int, j: int|
                    0 <= i < j < t.len() implies t[i].client_id != t[j].client_id by {
                    if j < t.len() - 1 {
                        assert(roster[i].client_id != roster[j].client_id);
                    }
                }
            }
        },
        LifecycleEvent::Disconnected { id } => {
            lemma_remove_id_distinct(roster, id);
        },
    }
}

/// Roster consistency: after any sequence of connect and disconnect events,
/// the roster contains exactly the ids whose most recent event was a connect
/// — plus the initially present ids that never disconnected.
pub proof fn lemma_roster_consistency(
    roster: Seq<PlayerRecordView>,
    events: Seq<LifecycleEvent>,
    id: u64,
)
    requires
        distinct_ids(roster),
    ensures
        contains_id(spec_roster_after(roster, events), id) == live_after(
            contains_id(roster, id),
            events,
            id,
        ),
    decreases events.len(),
{
    if events.len() > 0 {
        let r1 = spec_apply_event(roster, events[0]);
        lemma_apply_event_distinct(roster, events[0]);
        match events[0] {
            LifecycleEvent::Connected { id: e, username } => {
                if !contains_id(roster, e) {
                    lemma_lookup_push(roster, joined_record(e, username), id);
                }
            },
            LifecycleEvent::Disconnected { id: e } => {
                lemma_lookup_remove(roster, e, id);
            },
        }
        lemma_roster_consistency(r1, events.drop_first(), id);
    }
}

} // verus!
