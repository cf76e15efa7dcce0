//! Broadcast/replication engine: fire-and-forget fan-out of server messages
//! with sender exclusion.
//!
//! The roster hands this engine [`Directive`]s — a message for one named
//! client, or a message for every connected client except at most one — and
//! the engine turns each into the list of clients the transport must carry
//! the message to. Delivery itself is the transport's business; the engine
//! guarantees only who is addressed.

use vstd::prelude::*;

use crate::protocol::ServerMessage;
use crate::protocol::ServerMessageView;

verus! {

/// An addressed piece of outgoing traffic.
#[derive(Debug)]
pub enum Directive {
    /// One message for one named client.
    Unicast { to: u64, message: ServerMessage },
    /// One message for every connected client, except at most one — the
    /// exclusion suppresses echoing a change back to its originator.
    FanOut { message: ServerMessage, except: Option<u64> },
}

/// Mathematical model of [`Directive`].
pub enum DirectiveView {
    Unicast { to: u64, message: ServerMessageView },
    FanOut { message: ServerMessageView, except: Option<u64> },
}

impl View for Directive {
    type V = DirectiveView;

    open spec fn view(&self) -> DirectiveView {
        match self {
            Directive::Unicast { to, message } => DirectiveView::Unicast {
                to: *to,
                message: message@,
            },
            Directive::FanOut { message, except } => DirectiveView::FanOut {
                message: message@,
                except: *except,
            },
        }
    }
}

/// The views of a batch of directives, in order.
pub open spec fn directives_view(ds: Seq<Directive>) -> Seq<DirectiveView> {
    ds.map_values(|d: Directive| d@)
}

/// The message a directive carries.
pub open spec fn spec_directive_message(d: DirectiveView) -> ServerMessageView {
    match d {
        DirectiveView::Unicast { to, message } => message,
        DirectiveView::FanOut { message, except } => message,
    }
}

/// The clients a fan-out reaches: all of `connected`, in order, minus the
/// excluded one.
pub open spec fn spec_recipients(connected: Seq<u64>, except: Option<u64>) -> Seq<u64>
    decreases connected.len(),
{
    if connected.len() == 0 {
        Seq::empty()
    } else {
        let rest = spec_recipients(connected.drop_first(), except);
        if except == Some(connected[0]) {
            rest
        } else {
            seq![connected[0]] + rest
        }
    }
}

/// The clients a directive reaches, given who is connected when it is sent.
pub open spec fn spec_targets(connected: Seq<u64>, d: DirectiveView) -> Seq<u64> {
    match d {
        DirectiveView::Unicast { to, message } => seq![to],
        DirectiveView::FanOut { message, except } => spec_recipients(connected, except),
    }
}

/// The addressed copies a directive puts on the wire: one `(recipient,
/// message)` pair per reached client.
pub open spec fn spec_deliveries(connected: Seq<u64>, d: DirectiveView) -> Seq<
    (u64, ServerMessageView),
> {
    spec_targets(connected, d).map_values(|c: u64| (c, spec_directive_message(d)))
}

/// The addressed copies of a whole batch of directives, in batch order.
pub open spec fn spec_deliveries_all(connected: Seq<u64>, ds: Seq<DirectiveView>) -> Seq<
    (u64, ServerMessageView),
>
    decreases ds.len(),
{
    if ds.len() == 0 {
        Seq::empty()
    } else {
        spec_deliveries(connected, ds[0]) + spec_deliveries_all(connected, ds.drop_first())
    }
}

/// How many times `x` occurs in `s`.
pub open spec fn occurrences(s: Seq<u64>, x: u64) -> nat
    decreases s.len(),
{
    if s.len() == 0 {
        0
    } else {
        (if s[0] == x {
            1nat
        } else {
            0nat
        }) + occurrences(s.drop_first(), x)
    }
}

/// How many copies of message `m` the batch addresses to client `to`.
pub open spec fn delivery_count(
    deliveries: Seq<(u64, ServerMessageView)>,
    to: u64,
    m: ServerMessageView,
) -> nat
    decreases deliveries.len(),
{
    if deliveries.len() == 0 {
        0
    } else {
        (if deliveries[0] == (to, m) {
            1nat
        } else {
            0nat
        }) + delivery_count(deliveries.drop_first(), to, m)
    }
}

/// No client id occurs twice.
pub open spec fn distinct(s: Seq<u64>) -> bool {
    forall|i: int, j: int| 0 <= i < j < s.len() ==> s[i] != s[j]
}

/// Appending one element adds one occurrence of it and none of anything
/// else.
pub proof fn lemma_occurrences_push(s: Seq<u64>, x: u64, c: u64)
    ensures
        occurrences(s.push(x), c) == occurrences(s, c) + (if x == c {
            1nat
        } else {
            0nat
        }),
    decreases s.len(),
{
    if s.len() == 0 {
        assert(s.push(x)[0] == x);
        assert(s.push(x).drop_first() =~= Seq::<u64>::empty());
        assert(occurrences(Seq::<u64>::empty(), c) == 0);
        assert(occurrences(s, c) == 0);
    } else {
        assert(s.push(x)[0] == s[0]);
        assert(s.push(x).drop_first() =~= s.drop_first().push(x));
        lemma_occurrences_push(s.drop_first(), x, c);
    }
}

/// In a duplicate-free sequence every element occurs exactly once and every
/// other value not at all.
pub proof fn lemma_distinct_occurrences(s: Seq<u64>, c: u64)
    requires
        distinct(s),
    ensures
        occurrences(s, c) == if s.contains(c) {
            1nat
        } else {
            0nat
        },
    decreases s.len(),
{
    if s.len() > 0 {
        assert forall|i: int, j: int|
            0 <= i < j < s.drop_first().len() implies s.drop_first()[i] != s.drop_first()[j] by {
            assert(s.drop_first()[i] == s[i + 1]);
            assert(s.drop_first()[j] == s[j + 1]);
        }
        lemma_distinct_occurrences(s.drop_first(), c);
        lemma_contains_first_rest(s, c);
        if s[0] == c {
            assert forall|k: int| 0 <= k < s.drop_first().len() implies s.drop_first()[k] != c by {
                assert(s.drop_first()[k] == s[k + 1]);
                assert(s[0] != s[k + 1]);
            }
            if s.drop_first().contains(c) {
                let i = choose|i: int|
                    0 <= i < s.drop_first().len() && s.drop_first()[i] == c;
                assert(false);
            }
        }
    }
}

/// Counting addressed copies distributes over batch concatenation.
pub proof fn lemma_delivery_count_concat(
    d1: Seq<(u64, ServerMessageView)>,
    d2: Seq<(u64, ServerMessageView)>,
    to: u64,
    m: ServerMessageView,
)
    ensures
        delivery_count(d1 + d2, to, m) == delivery_count(d1, to, m) + delivery_count(d2, to, m),
    decreases d1.len(),
{
    if d1.len() == 0 {
        assert(d1 + d2 =~= d2);
    } else {
        assert((d1 + d2)[0] == d1[0]);
        assert((d1 + d2).drop_first() =~= d1.drop_first() + d2);
        lemma_delivery_count_concat(d1.drop_first(), d2, to, m);
    }
}

/// Each addressed copy of one directive pairs one reached client with the
/// directive's message, so the count of a message is the count of the
/// recipient among the reached clients.
pub proof fn lemma_deliveries_count(
    connected: Seq<u64>,
    d: DirectiveView,
    to: u64,
    m: ServerMessageView,
)
    ensures
        delivery_count(spec_deliveries(connected, d), to, m) == if m == spec_directive_message(d) {
            occurrences(spec_targets(connected, d), to)
        } else {
            0nat
        },
{
    lemma_pair_map_count(spec_targets(connected, d), spec_directive_message(d), to, m);
    assert(spec_deliveries(connected, d) =~= spec_targets(connected, d).map_values(
        |c: u64| (c, spec_directive_message(d)),
    ));
}

/// Counting pairs `(c, dm)` over a client list counts the occurrences of the
/// client when the message matches, and nothing otherwise.
proof fn lemma_pair_map_count(s: Seq<u64>, dm: ServerMessageView, to: u64, m: ServerMessageView)
    ensures
        delivery_count(s.map_values(|c: u64| (c, dm)), to, m) == if m == dm {
            occurrences(s, to)
        } else {
            0nat
        },
    decreases s.len(),
{
    let pairs = s.map_values(|c: u64| (c, dm));
    if s.len() == 0 {
        assert(pairs =~= Seq::<(u64, ServerMessageView)>::empty());
    } else {
        assert(pairs[0] == (s[0], dm));
        assert(pairs.drop_first() =~= s.drop_first().map_values(|c: u64| (c, dm)));
        lemma_pair_map_count(s.drop_first(), dm, to, m);
    }
}

/// A batch of one directive addresses exactly that directive's copies.
pub proof fn lemma_deliveries_all_singleton(connected: Seq<u64>, d: DirectiveView)
    ensures
        spec_deliveries_all(connected, seq![d]) == spec_deliveries(connected, d),
{
    let ds = seq![d];
    assert(ds.drop_first() =~= Seq::<DirectiveView>::empty());
    assert(spec_deliveries_all(connected, Seq::<DirectiveView>::empty()) =~= Seq::<
        (u64, ServerMessageView),
    >::empty());
    assert(spec_deliveries(connected, d) + Seq::<(u64, ServerMessageView)>::empty()
        =~= spec_deliveries(connected, d));
}

/// A sequence contains an element exactly when it is its first element or
/// its tail contains it.
pub proof fn lemma_contains_first_rest(s: Seq<u64>, c: u64)
    requires
        s.len() > 0,
    ensures
        s.contains(c) <==> (s[0] == c || s.drop_first().contains(c)),
{
    if s.contains(c) {
        let i = choose|i: int| 0 <= i < s.len() && s[i] == c;
        if i > 0 {
            assert(s.drop_first()[i - 1] == c);
        }
    }
    if s.drop_first().contains(c) {
        let i = choose|i: int| 0 <= i < s.drop_first().len() && s.drop_first()[i] == c;
        assert(s[i + 1] == c);
    }
}

/// Echo suppression, as membership: a fan-out reaches exactly the connected
/// clients other than the excluded one — the excluded client never receives
/// its own change back.
pub proof fn lemma_recipients_membership(connected: Seq<u64>, except: Option<u64>, c: u64)
    ensures
        spec_recipients(connected, except).contains(c) <==> (connected.contains(c) && Some(c)
            != except),
    decreases connected.len(),
{
    if connected.len() > 0 {
        let rest = spec_recipients(connected.drop_first(), except);
        lemma_recipients_membership(connected.drop_first(), except, c);
        lemma_contains_first_rest(connected, c);
        if except != Some(connected[0]) {
            let r = seq![connected[0]] + rest;
            assert(r.drop_first() =~= rest);
            lemma_contains_first_rest(r, c);
        }
    }
}

/// A fan-out reaches a client at most as often as it is connected; a client
/// connected once and not excluded is reached exactly once.
pub proof fn lemma_recipients_occurrences(connected: Seq<u64>, except: Option<u64>, c: u64)
    ensures
        occurrences(spec_recipients(connected, except), c) == if Some(c) != except {
            occurrences(connected, c)
        } else {
            0nat
        },
    decreases connected.len(),
{
    if connected.len() > 0 {
        let rest = spec_recipients(connected.drop_first(), except);
        lemma_recipients_occurrences(connected.drop_first(), except, c);
        if except != Some(connected[0]) {
            let r = seq![connected[0]] + rest;
            assert(r.drop_first() =~= rest);
            assert(r[0] == connected[0]);
        }
        if Some(c) == except {
            assert(occurrences(spec_recipients(connected, except), c) == 0);
        }
    }
}

/// Appending one client to the connected list extends the fan-out by that
/// client, unless it is the excluded one.
pub proof fn lemma_recipients_push(s: Seq<u64>, except: Option<u64>, x: u64)
    ensures
        spec_recipients(s.push(x), except) == if except == Some(x) {
            spec_recipients(s, except)
        } else {
            spec_recipients(s, except).push(x)
        },
    decreases s.len(),
{
    if s.len() == 0 {
        assert(s.push(x)[0] == x);
        assert(s.push(x).drop_first() =~= Seq::<u64>::empty());
        assert(spec_recipients(Seq::<u64>::empty(), except) =~= Seq::<u64>::empty());
        assert(spec_recipients(s, except) =~= Seq::<u64>::empty());
        if except == Some(x) {
            assert(spec_recipients(s.push(x), except) =~= spec_recipients(s, except));
        } else {
            assert(spec_recipients(s.push(x), except) =~= seq![x]);
            assert(spec_recipients(s, except).push(x) =~= seq![x]);
        }
    } else {
        assert(s.push(x).drop_first() =~= s.drop_first().push(x));
        assert(s.push(x)[0] == s[0]);
        lemma_recipients_push(s.drop_first(), except, x);
        if except == Some(s[0]) {
            assert(spec_recipients(s.push(x), except) == spec_recipients(s.drop_first().push(x), except));
            assert(spec_recipients(s, except) == spec_recipients(s.drop_first(), except));
        } else if except == Some(x) {
            assert(spec_recipients(s.push(x), except) =~= seq![s[0]] + spec_recipients(
                s.drop_first(),
                except,
            ));
        } else {
            assert(seq![s[0]] + spec_recipients(s.drop_first(), except).push(x) =~= (seq![s[0]]
                + spec_recipients(s.drop_first(), except)).push(x));
            assert(spec_recipients(s.push(x), except) =~= spec_recipients(s, except).push(x));
        }
    }
}

/// Computes the clients a fan-out reaches: all of `connected`, in order,
/// minus the excluded one.
pub fn recipients(connected: &Vec<u64>, except: Option<u64>) -> (r: Vec<u64>)
    ensures
        r@ == spec_recipients(connected@, except),
{
    let mut r: Vec<u64> = Vec::new();
    for i in 0..connected.len()
        invariant
            r@ == spec_recipients(connected@.take(i as int), except),
    {
        let c = connected[i];
        proof {
            lemma_recipients_push(connected@.take(i as int), except, c);
            assert(connected@.take(i as int).push(c) =~= connected@.take(i as int + 1));
        }
        let excluded = match except {
            Some(e) => c == e,
            None => false,
        };
        if !excluded {
            r.push(c);
        }
    }
    proof {
        assert(connected@.take(connected@.len() as int) =~= connected@);
    }
    r
}

/// Computes the clients a directive reaches, given who is connected when it
/// is sent.
pub fn fan_out_targets(d: &Directive, connected: &Vec<u64>) -> (r: Vec<u64>)
    ensures
        r@ == spec_targets(connected@, d@),
{
    match d {
        Directive::Unicast { to, message } => {
            let mut r: Vec<u64> = Vec::new();
            r.push(*to);
            proof {
                assert(r@ =~= spec_targets(connected@, d@));
            }
            r
        },
        Directive::FanOut { message, except } => recipients(connected, *except),
    }
}

} // verus!
