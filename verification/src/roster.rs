//! Authoritative roster: the server's single table of connected players.
//!
//! The roster is the single source of truth for who is connected and for
//! each player's last accepted transform. Every mutation returns the
//! [`Directive`]s the broadcast engine must fan out for it, so that a tick
//! loop can apply the mutation and enqueue the traffic in one step, in
//! order: a connect announces the newcomer to everybody else and replays the
//! existing roster to the newcomer before the new record takes part in any
//! later broadcast; a disconnect removes the record and announces the
//! departure; a transform update is accepted only from a client that is in
//! the roster and is never echoed back to its sender.

use vstd::prelude::*;

use crate::engine::directives_view;
use crate::engine::Directive;
use crate::engine::DirectiveView;
use crate::handshake::decode_user_data;
use crate::handshake::spec_decode_user_data;
use crate::protocol::spawn_position;
use crate::protocol::spec_spawn_position;
use crate::protocol::ServerMessage;
use crate::protocol::ServerMessageView;
use crate::protocol::Vec2Bits;

verus! {

/// One connected player: identity, handshake username, and the last
/// transform the server accepted from it.
pub struct PlayerRecord {
    pub client_id: u64,
    pub username: String,
    pub position: Vec2Bits,
    pub rotation: u32,
}

/// Mathematical model of [`PlayerRecord`].
pub struct PlayerRecordView {
    pub client_id: u64,
    pub username: Seq<char>,
    pub position: Vec2Bits,
    pub rotation: u32,
}

impl View for PlayerRecord {
    type V = PlayerRecordView;

    open spec fn view(&self) -> PlayerRecordView {
        PlayerRecordView {
            client_id: self.client_id,
            username: self.username@,
            position: self.position,
            rotation: self.rotation,
        }
    }
}

/// The views of a table of player records, in order.
pub open spec fn players_view(players: Seq<PlayerRecord>) -> Seq<PlayerRecordView> {
    players.map_values(|p: PlayerRecord| p@)
}

/// The first record with the given id, if any.
pub open spec fn spec_lookup(roster: Seq<PlayerRecordView>, id: u64) -> Option<PlayerRecordView>
    decreases roster.len(),
{
    if roster.len() == 0 {
        None
    } else if roster[0].client_id == id {
        Some(roster[0])
    } else {
        spec_lookup(roster.drop_first(), id)
    }
}

/// Whether a record with the given id is present.
pub open spec fn contains_id(roster: Seq<PlayerRecordView>, id: u64) -> bool {
    spec_lookup(roster, id) is Some
}

/// Unique keys: no two records share a client id.
pub open spec fn distinct_ids(roster: Seq<PlayerRecordView>) -> bool {
    forall|i: int, j: int|
        0 <= i < j < roster.len() ==> roster[i].client_id != roster[j].client_id
}

/// The roster without its first record for the given id.
pub open spec fn spec_remove_id(roster: Seq<PlayerRecordView>, id: u64) -> Seq<PlayerRecordView>
    decreases roster.len(),
{
    if roster.len() == 0 {
        Seq::empty()
    } else if roster[0].client_id == id {
        roster.drop_first()
    } else {
        seq![roster[0]] + spec_remove_id(roster.drop_first(), id)
    }
}

/// The roster with the first record for the given id re-aimed at a new
/// transform; unchanged when the id is absent.
pub open spec fn spec_update_transform(
    roster: Seq<PlayerRecordView>,
    id: u64,
    position: Vec2Bits,
    rotation: u32,
) -> Seq<PlayerRecordView>
    decreases roster.len(),
{
    if roster.len() == 0 {
        Seq::empty()
    } else if roster[0].client_id == id {
        seq![
            PlayerRecordView {
                client_id: roster[0].client_id,
                username: roster[0].username,
                position,
                rotation,
            },
        ] + roster.drop_first()
    } else {
        seq![roster[0]] + spec_update_transform(roster.drop_first(), id, position, rotation)
    }
}

/// The client ids of the roster, in roster order.
pub open spec fn spec_ids(roster: Seq<PlayerRecordView>) -> Seq<u64> {
    roster.map_values(|p: PlayerRecordView| p.client_id)
}

/// The announcement that a player joined, placed at the spawn position.
pub open spec fn joined_message(id: u64, username: Seq<char>) -> ServerMessageView {
    ServerMessageView::PlayerJoined { id, username, position: spec_spawn_position() }
}

/// The announcement that a player left.
pub open spec fn left_message(id: u64) -> ServerMessageView {
    ServerMessageView::PlayerLeft { id }
}

/// The relayed transform of a player.
pub open spec fn transform_message(id: u64, position: Vec2Bits, rotation: u32) -> ServerMessageView {
    ServerMessageView::PlayerTransformUpdate { id, position, rotation }
}

/// The record a completed handshake inserts.
pub open spec fn joined_record(id: u64, username: Seq<char>) -> PlayerRecordView {
    PlayerRecordView {
        client_id: id,
        username,
        position: spec_spawn_position(),
        rotation: 0,
    }
}

/// The roster after a newcomer's record is inserted.
pub open spec fn spec_connect_roster(
    roster: Seq<PlayerRecordView>,
    id: u64,
    username: Seq<char>,
) -> Seq<PlayerRecordView> {
    roster.push(joined_record(id, username))
}

/// The unicast that replays an existing record to the newcomer `to`.
pub open spec fn replay_unicast(to: u64, p: PlayerRecordView) -> DirectiveView {
    DirectiveView::Unicast { to, message: joined_message(p.client_id, p.username) }
}

/// The replay unicasts for a newcomer: one per existing record, in roster
/// order.
pub open spec fn replay_directives(
    roster: Seq<PlayerRecordView>,
    newcomer: u64,
) -> Seq<DirectiveView>
    decreases roster.len(),
{
    if roster.len() == 0 {
        Seq::empty()
    } else {
        seq![replay_unicast(newcomer, roster[0])] + replay_directives(roster.drop_first(), newcomer)
    }
}

/// Each replay unicast replays the record at its own index.
pub proof fn lemma_replay_directives_index(roster: Seq<PlayerRecordView>, newcomer: u64)
    ensures
        replay_directives(roster, newcomer).len() == roster.len(),
        forall|k: int|
            0 <= k < roster.len() ==> replay_directives(roster, newcomer)[k] == replay_unicast(
                newcomer,
                roster[k],
            ),
    decreases roster.len(),
{
    if roster.len() > 0 {
        lemma_replay_directives_index(roster.drop_first(), newcomer);
        let t = replay_directives(roster, newcomer);
        assert forall|k: int|
            0 <= k < roster.len() implies t[k] == replay_unicast(newcomer, roster[k]) by {
            if k > 0 {
                assert(t[k] == replay_directives(roster.drop_first(), newcomer)[k - 1]);
                assert(roster.drop_first()[k - 1] == roster[k]);
            }
        }
    }
}

/// The traffic a completed handshake produces: first the announcement of the
/// newcomer to everyone but the newcomer, then — before the new record takes
/// part in any later broadcast — one unicast to the newcomer for each record
/// that was already present, in roster order.
pub open spec fn spec_connect_directives(
    roster: Seq<PlayerRecordView>,
    id: u64,
    username: Seq<char>,
) -> Seq<DirectiveView> {
    seq![DirectiveView::FanOut { message: joined_message(id, username), except: Some(id) }]
        + replay_directives(roster, id)
}

/// The traffic a disconnect produces: the departure, to all remaining
/// clients.
pub open spec fn spec_disconnect_directives(id: u64) -> Seq<DirectiveView> {
    seq![DirectiveView::FanOut { message: left_message(id), except: None }]
}

/// The traffic a transform update produces: the relayed transform to every
/// other client when the sender is in the roster, nothing otherwise.
pub open spec fn spec_transform_directives(
    roster: Seq<PlayerRecordView>,
    id: u64,
    position: Vec2Bits,
    rotation: u32,
) -> Seq<DirectiveView> {
    if contains_id(roster, id) {
        seq![
            DirectiveView::FanOut {
                message: transform_message(id, position, rotation),
                except: Some(id),
            },
        ]
    } else {
        Seq::empty()
    }
}

/// A lookup misses exactly when no record carries the id.
pub proof fn lemma_lookup_none_iff(roster: Seq<PlayerRecordView>, id: u64)
    ensures
        (spec_lookup(roster, id) is None) <==> (forall|k: int|
            0 <= k < roster.len() ==> roster[k].client_id != id),
    decreases roster.len(),
{
    if roster.len() > 0 {
        lemma_lookup_none_iff(roster.drop_first(), id);
        if spec_lookup(roster, id) is None {
            assert forall|k: int| 0 <= k < roster.len() implies roster[k].client_id != id by {
                if k > 0 {
                    assert(roster.drop_first()[k - 1] == roster[k]);
                }
            }
        }
        if forall|k: int| 0 <= k < roster.len() ==> roster[k].client_id != id {
            assert forall|k: int|
                0 <= k < roster.drop_first().len() implies roster.drop_first()[k].client_id
                != id by {
                assert(roster.drop_first()[k] == roster[k + 1]);
            }
        }
    }
}

/// A lookup returns the record at the first index that carries the id.
pub proof fn lemma_lookup_first_match(roster: Seq<PlayerRecordView>, id: u64, i: int)
    requires
        0 <= i < roster.len(),
        roster[i].client_id == id,
        forall|k: int| 0 <= k < i ==> roster[k].client_id != id,
    ensures
        spec_lookup(roster, id) == Some(roster[i]),
    decreases i,
{
    if i > 0 {
        assert forall|k: int|
            0 <= k < i - 1 implies roster.drop_first()[k].client_id != id by {
            assert(roster.drop_first()[k] == roster[k + 1]);
        }
        assert(roster.drop_first()[i - 1] == roster[i]);
        lemma_lookup_first_match(roster.drop_first(), id, i - 1);
    }
}

/// Removing by id removes exactly the record at the first matching index.
pub proof fn lemma_remove_first_match(roster: Seq<PlayerRecordView>, id: u64, i: int)
    requires
        0 <= i < roster.len(),
        roster[i].client_id == id,
        forall|k: int| 0 <= k < i ==> roster[k].client_id != id,
    ensures
        spec_remove_id(roster, id) == roster.remove(i),
    decreases i,
{
    if i == 0 {
        assert(spec_remove_id(roster, id) =~= roster.remove(0));
    } else {
        assert forall|k: int|
            0 <= k < i - 1 implies roster.drop_first()[k].client_id != id by {
            assert(roster.drop_first()[k] == roster[k + 1]);
        }
        assert(roster.drop_first()[i - 1] == roster[i]);
        lemma_remove_first_match(roster.drop_first(), id, i - 1);
        assert(seq![roster[0]] + roster.drop_first().remove(i - 1) =~= roster.remove(i));
    }
}

/// Removing an absent id leaves the roster unchanged.
pub proof fn lemma_remove_absent(roster: Seq<PlayerRecordView>, id: u64)
    requires
        !contains_id(roster, id),
    ensures
        spec_remove_id(roster, id) == roster,
    decreases roster.len(),
{
    if roster.len() > 0 {
        lemma_remove_absent(roster.drop_first(), id);
        assert(seq![roster[0]] + roster.drop_first() =~= roster);
    }
}

/// Updating by id rewrites exactly the record at the first matching index.
pub proof fn lemma_update_first_match(
    roster: Seq<PlayerRecordView>,
    id: u64,
    position: Vec2Bits,
    rotation: u32,
    i: int,
)
    requires
        0 <= i < roster.len(),
        roster[i].client_id == id,
        forall|k: int| 0 <= k < i ==> roster[k].client_id != id,
    ensures
        spec_update_transform(roster, id, position, rotation) == roster.update(
            i,
            PlayerRecordView {
                client_id: roster[i].client_id,
                username: roster[i].username,
                position,
                rotation,
            },
        ),
    decreases i,
{
    if i == 0 {
        assert(spec_update_transform(roster, id, position, rotation) =~= roster.update(
            0,
            PlayerRecordView {
                client_id: roster[0].client_id,
                username: roster[0].username,
                position,
                rotation,
            },
        ));
    } else {
        assert forall|k: int|
            0 <= k < i - 1 implies roster.drop_first()[k].client_id != id by {
            assert(roster.drop_first()[k] == roster[k + 1]);
        }
        assert(roster.drop_first()[i - 1] == roster[i]);
        lemma_update_first_match(roster.drop_first(), id, position, rotation, i - 1);
        assert(seq![roster[0]] + roster.drop_first().update(
            i - 1,
            PlayerRecordView {
                client_id: roster[i].client_id,
                username: roster[i].username,
                position,
                rotation,
            },
        ) =~= roster.update(
            i,
            PlayerRecordView {
                client_id: roster[i].client_id,
                username: roster[i].username,
                position,
                rotation,
            },
        ));
    }
}

/// Updating an absent id leaves the roster unchanged.
pub proof fn lemma_update_absent(
    roster: Seq<PlayerRecordView>,
    id: u64,
    position: Vec2Bits,
    rotation: u32,
)
    requires
        !contains_id(roster, id),
    ensures
        spec_update_transform(roster, id, position, rotation) == roster,
    decreases roster.len(),
{
    if roster.len() > 0 {
        lemma_update_absent(roster.drop_first(), id, position, rotation);
        assert(seq![roster[0]] + roster.drop_first() =~= roster);
    }
}

/// What `str::trim` returns for the given text: a function of the
/// characters alone.
pub uninterp spec fn trimmed(s: Seq<char>) -> Seq<char>;

/// Relies on `str::trim`: it returns its input with leading and trailing
/// whitespace removed, and nothing else about the result is assumed.
#[verifier::external_body]
fn trim_str<'a>(s: &'a str) -> (r: &'a str)
    ensures
        r@ == trimmed(s@),
{
    s.trim()
}

/// The server's authoritative table of connected players; unique keys,
/// insertion order kept only as the replay order for newcomers.
pub struct Roster {
    players: Vec<PlayerRecord>,
}

impl View for Roster {
    type V = Seq<PlayerRecordView>;

    closed spec fn view(&self) -> Seq<PlayerRecordView> {
        players_view(self.players@)
    }
}

impl Roster {
    /// Unique keys hold.
    pub open spec fn wf(&self) -> bool {
        distinct_ids(self@)
    }

    /// An empty roster.
    pub fn new() -> (r: Roster)
        ensures
            r@ == Seq::<PlayerRecordView>::empty(),
            r.wf(),
    {
        let r = Roster { players: Vec::new() };
        proof {
            assert(r@ =~= Seq::<PlayerRecordView>::empty());
        }
        r
    }

    /// How many players are connected.
    pub fn len(&self) -> (n: usize)
        ensures
            n == self@.len(),
    {
        self.players.len()
    }

    /// The index of the first record with the given id.
    fn index_of(&self, id: u64) -> (r: Option<usize>)
        ensures
            match r {
                Some(i) => i < self@.len() && self@[i as int].client_id == id && spec_lookup(
                    self@,
                    id,
                ) == Some(self@[i as int]),
                None => !contains_id(self@, id),
            },
    {
        let n = self.players.len();
        for i in 0..n
            invariant
                n == self@.len(),
                forall|k: int| 0 <= k < i ==> self@[k].client_id != id,
        {
            if self.players[i].client_id == id {
                proof {
                    lemma_lookup_first_match(self@, id, i as int);
                }
                return Some(i);
            }
        }
        proof {
            lemma_lookup_none_iff(self@, id);
        }
        None
    }

    /// Whether the given client is in the roster.
    pub fn contains(&self, id: u64) -> (r: bool)
        ensures
            r == contains_id(self@, id),
    {
        self.index_of(id).is_some()
    }

    /// The last transform the server accepted from the given client.
    pub fn lookup(&self, id: u64) -> (r: Option<(Vec2Bits, u32)>)
        ensures
            match r {
                Some(t) => spec_lookup(self@, id) matches Some(p) && p.position == t.0
                    && p.rotation == t.1,
                None => !contains_id(self@, id),
            },
    {
        match self.index_of(id) {
            Some(i) => {
                let p = &self.players[i];
                Some((p.position, p.rotation))
            },
            None => None,
        }
    }

    /// The connected client ids, in roster order: the connected set a
    /// directive batch is fanned out against.
    pub fn client_ids(&self) -> (r: Vec<u64>)
        ensures
            r@ == spec_ids(self@),
    {
        let mut r: Vec<u64> = Vec::new();
        let n = self.players.len();
        for i in 0..n
            invariant
                n == self@.len(),
                r@ =~= spec_ids(self@.take(i as int)),
        {
            r.push(self.players[i].client_id);
            proof {
                assert(r@ =~= spec_ids(self@.take(i as int + 1)));
            }
        }
        proof {
            assert(self@.take(n as int) =~= self@);
        }
        r
    }

    /// A completed handshake. When the user-data buffer parses and the id is
    /// new, stores the username with surrounding whitespace trimmed off,
    /// announces the newcomer to everyone else, replays every existing
    /// record to the newcomer, and only then inserts the new record — the
    /// returned batch is already in that order. A buffer that does not parse
    /// or an id already present leaves the roster untouched and sends
    /// nothing.
    pub fn on_connect(&mut self, id: u64, user_data: &[u8]) -> (out: Vec<Directive>)
        requires
            old(self).wf(),
        ensures
            final(self).wf(),
            match spec_decode_user_data(user_data@) {
                Ok(u) => {
                    if contains_id(old(self)@, id) {
                        final(self)@ == old(self)@ && directives_view(out@) == Seq::<
                            DirectiveView,
                        >::empty()
                    } else {
                        final(self)@ == spec_connect_roster(old(self)@, id, trimmed(u.username))
                            && directives_view(out@) == spec_connect_directives(
                            old(self)@,
                            id,
                            trimmed(u.username),
                        )
                    }
                },
                Err(_) => final(self)@ == old(self)@ && directives_view(out@) == Seq::<
                    DirectiveView,
                >::empty(),
            },
    {
        let mut out: Vec<Directive> = Vec::new();
        let u = match decode_user_data(user_data) {
            Ok(u) => u,
            Err(_) => {
                proof {
                    assert(directives_view(out@) =~= Seq::<DirectiveView>::empty());
                }
                return out;
            },
        };
        if self.contains(id) {
            proof {
                assert(directives_view(out@) =~= Seq::<DirectiveView>::empty());
            }
            return out;
        }
        let name = trim_str(u.username.as_str()).to_owned();
        let ghost uname: Seq<char> = name@;
        out.push(
            Directive::FanOut {
                message: ServerMessage::PlayerJoined {
                    id,
                    username: name.clone(),
                    position: spawn_position(),
                },
                except: Some(id),
            },
        );
        let n = self.players.len();
        for i in 0..n
            invariant
                n == self@.len(),
                self@ == old(self)@,
                uname == name@,
                out@.len() == i + 1,
                out@[0]@ == (DirectiveView::FanOut {
                    message: joined_message(id, uname),
                    except: Some(id),
                }),
                forall|k: int| 0 <= k < i ==> out@[k + 1]@ == replay_unicast(id, self@[k]),
        {
            let p = &self.players[i];
            out.push(
                Directive::Unicast {
                    to: id,
                    message: ServerMessage::PlayerJoined {
                        id: p.client_id,
                        username: p.username.clone(),
                        position: spawn_position(),
                    },
                },
            );
        }
        proof {
            lemma_lookup_none_iff(self@, id);
            lemma_replay_directives_index(self@, id);
        }
        self.players.push(
            PlayerRecord {
                client_id: id,
                username: name,
                position: spawn_position(),
                rotation: 0,
            },
        );
        proof {
            assert(self@ =~= spec_connect_roster(old(self)@, id, uname));
            assert(directives_view(out@) =~= spec_connect_directives(old(self)@, id, uname));
            assert forall|i: int, j: int|
                0 <= i < j < self@.len() implies self@[i].client_id != self@[j].client_id by {
                if j < self@.len() - 1 {
                    assert(old(self)@[i].client_id != old(self)@[j].client_id);
                }
            }
        }
        out
    }

    /// A disconnection: removes the client's record, if it has one, and
    /// announces the departure to all remaining clients.
    pub fn on_disconnect(&mut self, id: u64) -> (out: Vec<Directive>)
        requires
            old(self).wf(),
        ensures
            final(self).wf(),
            final(self)@ == spec_remove_id(old(self)@, id),
            directives_view(out@) == spec_disconnect_directives(id),
    {
        match self.index_of(id) {
            Some(i) => {
                proof {
                    lemma_lookup_first_match_prefix(self@, id, i as int);
                    lemma_remove_first_match(self@, id, i as int);
                }
                self.players.remove(i);
                proof {
                    assert(self@ =~= old(self)@.remove(i as int));
                    assert forall|x: int, y: int|
                        0 <= x < y < self@.len() implies self@[x].client_id
                        != self@[y].client_id by {
                        let xo: int = if x < i as int {
                            x
                        } else {
                            x + 1
                        };
                        let yo: int = if y < i as int {
                            y
                        } else {
                            y + 1
                        };
                        assert(old(self)@[xo].client_id != old(self)@[yo].client_id);
                    }
                }
            },
            None => {
                proof {
                    lemma_remove_absent(self@, id);
                }
            },
        }
        let mut out: Vec<Directive> = Vec::new();
        out.push(Directive::FanOut { message: ServerMessage::PlayerLeft { id }, except: None });
        proof {
            assert(directives_view(out@) =~= spec_disconnect_directives(id));
        }
        out
    }

    /// A transform report from a client. Accepted only when the sender is in
    /// the roster — the server never materializes a record from a transform
    /// update — and relayed to every other client, never back to the sender.
    pub fn on_transform_update(&mut self, id: u64, position: Vec2Bits, rotation: u32) -> (out: Vec<
        Directive,
    >)
        requires
            old(self).wf(),
        ensures
            final(self).wf(),
            final(self)@ == spec_update_transform(old(self)@, id, position, rotation),
            directives_view(out@) == spec_transform_directives(old(self)@, id, position, rotation),
    {
        let mut out: Vec<Directive> = Vec::new();
        match self.index_of(id) {
            Some(i) => {
                proof {
                    lemma_lookup_first_match_prefix(self@, id, i as int);
                    lemma_update_first_match(self@, id, position, rotation, i as int);
                }
                let username = self.players[i].username.clone();
                let client_id = self.players[i].client_id;
                self.players.set(
                    i,
                    PlayerRecord { client_id, username, position, rotation },
                );
                proof {
                    assert(self@ =~= spec_update_transform(old(self)@, id, position, rotation));
                    assert forall|x: int, y: int|
                        0 <= x < y < self@.len() implies self@[x].client_id
                        != self@[y].client_id by {
                        assert(old(self)@[x].client_id != old(self)@[y].client_id);
                    }
                }
                out.push(
                    Directive::FanOut {
                        message: ServerMessage::PlayerTransformUpdate { id, position, rotation },
                        except: Some(id),
                    },
                );
                proof {
                    assert(directives_view(out@) =~= spec_transform_directives(
                        old(self)@,
                        id,
                        position,
                        rotation,
                    ));
                }
            },
            None => {
                proof {
                    lemma_update_absent(self@, id, position, rotation);
                    assert(directives_view(out@) =~= spec_transform_directives(
                        old(self)@,
                        id,
                        position,
                        rotation,
                    ));
                }
            },
        }
        out
    }
}

/// With unique keys, no index before a match carries the same id.
proof fn lemma_lookup_first_match_prefix(roster: Seq<PlayerRecordView>, id: u64, i: int)
    requires
        0 <= i < roster.len(),
        roster[i].client_id == id,
        distinct_ids(roster),
    ensures
        forall|k: int| 0 <= k < i ==> roster[k].client_id != id,
{
    assert forall|k: int| 0 <= k < i implies roster[k].client_id != id by {
        assert(roster[k].client_id != roster[i].client_id);
    }
}

} // verus!
