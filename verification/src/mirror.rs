//! Client replication consumer: the local, non-authoritative cache of remote
//! players and projectiles.
//!
//! Each tick the client drains its inbound messages and applies every one to
//! this mirror: a mirror entity is created on `PlayerJoined` or `SpawnOrc`,
//! removed on `PlayerLeft`, and its cached transform overwritten on a
//! transform update. Remote entities are never simulated locally — their
//! state is always exactly the last value the server sent. On the outgoing
//! side, the local player's transform is reported only when it actually
//! changed since the previous tick.

use vstd::prelude::*;

use crate::orcs::distinct_orc_ids;
use crate::orcs::orc_contains;
use crate::orcs::orc_lookup;
use crate::orcs::spec_orc_move;
use crate::orcs::lemma_orc_lookup_first_match;
use crate::orcs::lemma_orc_lookup_none_iff;
use crate::orcs::lemma_orc_move_absent;
use crate::orcs::lemma_orc_move_first_match;
use crate::orcs::OrcRecord;
use crate::protocol::ClientMessage;
use crate::protocol::ClientMessageView;
use crate::protocol::ServerMessage;
use crate::protocol::ServerMessageView;
use crate::protocol::Vec2Bits;
use crate::roster::contains_id;
use crate::roster::distinct_ids;
use crate::roster::lemma_lookup_first_match;
use crate::roster::lemma_lookup_none_iff;
use crate::roster::lemma_update_absent;
use crate::roster::lemma_update_first_match;
use crate::roster::players_view;
use crate::roster::spec_lookup;
use crate::roster::spec_remove_id;
use crate::roster::spec_update_transform;
use crate::roster::lemma_remove_absent;
use crate::roster::lemma_remove_first_match;
use crate::roster::PlayerRecord;
use crate::roster::PlayerRecordView;

verus! {

/// The players with the record for `r`'s id replaced by `r`, or with `r`
/// appended when the id is new.
pub open spec fn spec_upsert_player(
    players: Seq<PlayerRecordView>,
    r: PlayerRecordView,
) -> Seq<PlayerRecordView>
    decreases players.len(),
{
    if players.len() == 0 {
        seq![r]
    } else if players[0].client_id == r.client_id {
        seq![r] + players.drop_first()
    } else {
        seq![players[0]] + spec_upsert_player(players.drop_first(), r)
    }
}

/// The orcs with the record for `r`'s id replaced by `r`, or with `r`
/// appended when the id is new.
pub open spec fn spec_upsert_orc(orcs: Seq<OrcRecord>, r: OrcRecord) -> Seq<OrcRecord>
    decreases orcs.len(),
{
    if orcs.len() == 0 {
        seq![r]
    } else if orcs[0].orc_id == r.orc_id {
        seq![r] + orcs.drop_first()
    } else {
        seq![orcs[0]] + spec_upsert_orc(orcs.drop_first(), r)
    }
}

/// Upserting rewrites exactly the record at the first matching index.
pub proof fn lemma_upsert_player_first_match(
    players: Seq<PlayerRecordView>,
    r: PlayerRecordView,
    i: int,
)
    requires
        0 <= i < players.len(),
        players[i].client_id == r.client_id,
        forall|k: int| 0 <= k < i ==> players[k].client_id != r.client_id,
    ensures
        spec_upsert_player(players, r) == players.update(i, r),
    decreases i,
{
    if i == 0 {
        assert(spec_upsert_player(players, r) =~= players.update(0, r));
    } else {
        assert forall|k: int|
            0 <= k < i - 1 implies players.drop_first()[k].client_id != r.client_id by {
            assert(players.drop_first()[k] == players[k + 1]);
        }
        assert(players.drop_first()[i - 1] == players[i]);
        lemma_upsert_player_first_match(players.drop_first(), r, i - 1);
        assert(seq![players[0]] + players.drop_first().update(i - 1, r) =~= players.update(i, r));
    }
}

/// Upserting an absent id appends the record.
pub proof fn lemma_upsert_player_absent(players: Seq<PlayerRecordView>, r: PlayerRecordView)
    requires
        !contains_id(players, r.client_id),
    ensures
        spec_upsert_player(players, r) == players.push(r),
    decreases players.len(),
{
    if players.len() == 0 {
        assert(spec_upsert_player(players, r) =~= players.push(r));
    } else {
        lemma_upsert_player_absent(players.drop_first(), r);
        assert(seq![players[0]] + players.drop_first().push(r) =~= players.push(r));
    }
}

/// Upserting rewrites exactly the orc at the first matching index.
pub proof fn lemma_upsert_orc_first_match(orcs: Seq<OrcRecord>, r: OrcRecord, i: int)
    requires
        0 <= i < orcs.len(),
        orcs[i].orc_id == r.orc_id,
        forall|k: int| 0 <= k < i ==> orcs[k].orc_id != r.orc_id,
    ensures
        spec_upsert_orc(orcs, r) == orcs.update(i, r),
    decreases i,
{
    if i == 0 {
        assert(spec_upsert_orc(orcs, r) =~= orcs.update(0, r));
    } else {
        assert forall|k: int| 0 <= k < i - 1 implies orcs.drop_first()[k].orc_id != r.orc_id by {
            assert(orcs.drop_first()[k] == orcs[k + 1]);
        }
        assert(orcs.drop_first()[i - 1] == orcs[i]);
        lemma_upsert_orc_first_match(orcs.drop_first(), r, i - 1);
        assert(seq![orcs[0]] + orcs.drop_first().update(i - 1, r) =~= orcs.update(i, r));
    }
}

/// Upserting an absent id appends the orc.
pub proof fn lemma_upsert_orc_absent(orcs: Seq<OrcRecord>, r: OrcRecord)
    requires
        !orc_contains(orcs, r.orc_id),
    ensures
        spec_upsert_orc(orcs, r) == orcs.push(r),
    decreases orcs.len(),
{
    if orcs.len() == 0 {
        assert(spec_upsert_orc(orcs, r) =~= orcs.push(r));
    } else {
        lemma_upsert_orc_absent(orcs.drop_first(), r);
        assert(seq![orcs[0]] + orcs.drop_first().push(r) =~= orcs.push(r));
    }
}

/// Mathematical model of [`Mirror`].
pub struct MirrorView {
    pub players: Seq<PlayerRecordView>,
    pub orcs: Seq<OrcRecord>,
}

/// What one server message does to a mirror: create on `PlayerJoined` and
/// `SpawnOrc`, remove on `PlayerLeft`, overwrite the cached transform on a
/// transform update, and nothing on chat traffic. A transform update for an
/// unknown entity is dropped.
pub open spec fn spec_apply(m: MirrorView, msg: ServerMessageView) -> MirrorView {
    match msg {
        ServerMessageView::PlayerJoined { id, username, position } => MirrorView {
            players: spec_upsert_player(
                m.players,
                PlayerRecordView { client_id: id, username, position, rotation: 0 },
            ),
            orcs: m.orcs,
        },
        ServerMessageView::PlayerLeft { id } => MirrorView {
            players: spec_remove_id(m.players, id),
            orcs: m.orcs,
        },
        ServerMessageView::PlayerTransformUpdate { id, position, rotation } => MirrorView {
            players: spec_update_transform(m.players, id, position, rotation),
            orcs: m.orcs,
        },
        ServerMessageView::SpawnOrc { id, position, direction } => MirrorView {
            players: m.players,
            orcs: spec_upsert_orc(m.orcs, OrcRecord { orc_id: id, position, rotation: direction }),
        },
        ServerMessageView::OrcTransformUpdate { id, position, rotation } => MirrorView {
            players: m.players,
            orcs: spec_orc_move(m.orcs, id, position, rotation),
        },
        ServerMessageView::ChatMessage { author, content } => m,
    }
}

/// The client's local cache of remote players and projectiles, populated
/// solely from server traffic.
pub struct Mirror {
    players: Vec<PlayerRecord>,
    orcs: Vec<OrcRecord>,
}

impl View for Mirror {
    type V = MirrorView;

    closed spec fn view(&self) -> MirrorView {
        MirrorView { players: players_view(self.players@), orcs: self.orcs@ }
    }
}

impl Mirror {
    /// Unique ids hold among mirrored players and among mirrored orcs.
    pub open spec fn wf(&self) -> bool {
        distinct_ids(self@.players) && distinct_orc_ids(self@.orcs)
    }

    /// An empty mirror.
    pub fn new() -> (r: Mirror)
        ensures
            r@.players == Seq::<PlayerRecordView>::empty(),
            r@.orcs == Seq::<OrcRecord>::empty(),
            r.wf(),
    {
        let r = Mirror { players: Vec::new(), orcs: Vec::new() };
        proof {
            assert(r@.players =~= Seq::<PlayerRecordView>::empty());
        }
        r
    }

    /// How many remote players are mirrored.
    pub fn player_count(&self) -> (n: usize)
        ensures
            n == self@.players.len(),
    {
        self.players.len()
    }

    /// How many projectiles are mirrored.
    pub fn orc_count(&self) -> (n: usize)
        ensures
            n == self@.orcs.len(),
    {
        self.orcs.len()
    }

    /// The index of the first mirrored player with the given id.
    fn player_index_of(&self, id: u64) -> (r: Option<usize>)
        ensures
            match r {
                Some(i) => i < self@.players.len() && self@.players[i as int].client_id == id
                    && spec_lookup(self@.players, id) == Some(self@.players[i as int]),
                None => !contains_id(self@.players, id),
            },
    {
        let n = self.players.len();
        for i in 0..n
            invariant
                n == self@.players.len(),
                forall|k: int| 0 <= k < i ==> self@.players[k].client_id != id,
        {
            if self.players[i].client_id == id {
                proof {
                    lemma_lookup_first_match(self@.players, id, i as int);
                }
                return Some(i);
            }
        }
        proof {
            lemma_lookup_none_iff(self@.players, id);
        }
        None
    }

    /// The index of the first mirrored orc with the given id.
    fn orc_index_of(&self, id: u64) -> (r: Option<usize>)
        ensures
            match r {
                Some(i) => i < self@.orcs.len() && self@.orcs[i as int].orc_id == id && orc_lookup(
                    self@.orcs,
                    id,
                ) == Some(self@.orcs[i as int]),
                None => !orc_contains(self@.orcs, id),
            },
    {
        let n = self.orcs.len();
        for i in 0..n
            invariant
                n == self@.orcs.len(),
                forall|k: int| 0 <= k < i ==> self@.orcs[k].orc_id != id,
        {
            if self.orcs[i].orc_id == id {
                proof {
                    lemma_orc_lookup_first_match(self@.orcs, id, i as int);
                }
                return Some(i);
            }
        }
        proof {
            lemma_orc_lookup_none_iff(self@.orcs, id);
        }
        None
    }

    /// The cached transform of a mirrored player.
    pub fn player_transform(&self, id: u64) -> (r: Option<(Vec2Bits, u32)>)
        ensures
            match r {
                Some(t) => spec_lookup(self@.players, id) matches Some(p) && p.position == t.0
                    && p.rotation == t.1,
                None => !contains_id(self@.players, id),
            },
    {
        match self.player_index_of(id) {
            Some(i) => {
                let p = &self.players[i];
                Some((p.position, p.rotation))
            },
            None => None,
        }
    }

    /// The username a mirrored player joined under.
    pub fn player_username(&self, id: u64) -> (r: Option<String>)
        ensures
            match r {
                Some(name) => spec_lookup(self@.players, id) matches Some(p) && name@ == p.username,
                None => !contains_id(self@.players, id),
            },
    {
        match self.player_index_of(id) {
            Some(i) => Some(self.players[i].username.clone()),
            None => None,
        }
    }

    /// The cached transform of a mirrored orc.
    pub fn orc_transform(&self, id: u64) -> (r: Option<(Vec2Bits, u32)>)
        ensures
            match r {
                Some(t) => orc_lookup(self@.orcs, id) matches Some(o) && o.position == t.0
                    && o.rotation == t.1,
                None => !orc_contains(self@.orcs, id),
            },
    {
        match self.orc_index_of(id) {
            Some(i) => {
                let o = self.orcs[i];
                Some((o.position, o.rotation))
            },
            None => None,
        }
    }

    /// Applies one server message to the mirror.
    pub fn apply(&mut self, msg: &ServerMessage)
        requires
            old(self).wf(),
        ensures
            final(self).wf(),
            final(self)@ == spec_apply(old(self)@, msg@),
    {
        match msg {
            ServerMessage::PlayerJoined { id, username, position } => {
                let rec = PlayerRecord {
                    client_id: *id,
                    username: username.clone(),
                    position: *position,
                    rotation: 0,
                };
                match self.player_index_of(*id) {
                    Some(i) => {
                        proof {
                            assert forall|k: int|
                                0 <= k < i as int implies self@.players[k].client_id != id by {
                                assert(self@.players[k].client_id != self@.players[
                                    i as int
                                ].client_id);
                            }
                            lemma_upsert_player_first_match(self@.players, rec@, i as int);
                        }
                        self.players.set(i, rec);
                        proof {
                            assert(self@.players =~= spec_upsert_player(old(self)@.players, rec@));
                            assert forall|x: int, y: int|
                                0 <= x < y < self@.players.len() implies self@.players[x].client_id
                                != self@.players[y].client_id by {
                                assert(old(self)@.players[x].client_id != old(
                                    self,
                                )@.players[y].client_id);
                            }
                        }
                    },
                    None => {
                        proof {
                            lemma_upsert_player_absent(self@.players, rec@);
                            lemma_lookup_none_iff(self@.players, *id);
                        }
                        self.players.push(rec);
                        proof {
                            assert(self@.players =~= spec_upsert_player(old(self)@.players, rec@));
                            assert forall|x: int, y: int|
                                0 <= x < y < self@.players.len() implies self@.players[x].client_id
                                != self@.players[y].client_id by {
                                if y < self@.players.len() - 1 {
                                    assert(old(self)@.players[x].client_id != old(
                                        self,
                                    )@.players[y].client_id);
                                }
                            }
                        }
                    },
                }
                proof {
                    assert(self@ =~= spec_apply(old(self)@, msg@));
                }
            },
            ServerMessage::PlayerLeft { id } => {
                match self.player_index_of(*id) {
                    Some(i) => {
                        proof {
                            assert forall|k: int|
                                0 <= k < i as int implies self@.players[k].client_id != id by {
                                assert(self@.players[k].client_id != self@.players[
                                    i as int
                                ].client_id);
                            }
                            lemma_remove_first_match(self@.players, *id, i as int);
                        }
                        self.players.remove(i);
                        proof {
                            assert(self@.players =~= spec_remove_id(old(self)@.players, *id));
                            assert forall|x: int, y: int|
                                0 <= x < y < self@.players.len() implies self@.players[x].client_id
                                != self@.players[y].client_id by {
                                let xo: int = if x < i as int {
                                    x
                                } else {
                                    x + 1
                                };
                                let yo: int = if y < i as int {
                                    y
                                } else {
                                    y + 1
                                };
                                assert(old(self)@.players[xo].client_id != old(
                                    self,
                                )@.players[yo].client_id);
                            }
                        }
                    },
                    None => {
                        proof {
                            lemma_remove_absent(self@.players, *id);
                        }
                    },
                }
                proof {
                    assert(self@ =~= spec_apply(old(self)@, msg@));
                }
            },
            ServerMessage::PlayerTransformUpdate { id, position, rotation } => {
                match self.player_index_of(*id) {
                    Some(i) => {
                        proof {
                            assert forall|k: int|
                                0 <= k < i as int implies self@.players[k].client_id != id by {
                                assert(self@.players[k].client_id != self@.players[
                                    i as int
                                ].client_id);
                            }
                            lemma_update_first_match(
                                self@.players,
                                *id,
                                *position,
                                *rotation,
                                i as int,
                            );
                        }
                        let username = self.players[i].username.clone();
                        let client_id = self.players[i].client_id;
                        self.players.set(
                            i,
                            PlayerRecord {
                                client_id,
                                username,
                                position: *position,
                                rotation: *rotation,
                            },
                        );
                        proof {
                            assert(self@.players =~= spec_update_transform(
                                old(self)@.players,
                                *id,
                                *position,
                                *rotation,
                            ));
                            assert forall|x: int, y: int|
                                0 <= x < y < self@.players.len() implies self@.players[x].client_id
                                != self@.players[y].client_id by {
                                assert(old(self)@.players[x].client_id != old(
                                    self,
                                )@.players[y].client_id);
                            }
                        }
                    },
                    None => {
                        proof {
                            lemma_update_absent(self@.players, *id, *position, *rotation);
                        }
                    },
                }
                proof {
                    assert(self@ =~= spec_apply(old(self)@, msg@));
                }
            },
            ServerMessage::SpawnOrc { id, position, direction } => {
                let rec = OrcRecord { orc_id: *id, position: *position, rotation: *direction };
                match self.orc_index_of(*id) {
                    Some(i) => {
                        proof {
                            assert forall|k: int|
                                0 <= k < i as int implies self@.orcs[k].orc_id != id by {
                                assert(self@.orcs[k].orc_id != self@.orcs[i as int].orc_id);
                            }
                            lemma_upsert_orc_first_match(self@.orcs, rec, i as int);
                        }
                        self.orcs.set(i, rec);
                        proof {
                            assert forall|x: int, y: int|
                                0 <= x < y < self@.orcs.len() implies self@.orcs[x].orc_id
                                != self@.orcs[y].orc_id by {
                                assert(old(self)@.orcs[x].orc_id != old(self)@.orcs[y].orc_id);
                            }
                        }
                    },
                    None => {
                        proof {
                            lemma_upsert_orc_absent(self@.orcs, rec);
                            lemma_orc_lookup_none_iff(self@.orcs, *id);
                        }
                        self.orcs.push(rec);
                        proof {
                            assert forall|x: int, y: int|
                                0 <= x < y < self@.orcs.len() implies self@.orcs[x].orc_id
                                != self@.orcs[y].orc_id by {
                                if y < self@.orcs.len() - 1 {
                                    assert(old(self)@.orcs[x].orc_id != old(self)@.orcs[y].orc_id);
                                }
                            }
                        }
                    },
                }
                proof {
                    assert(self@ =~= spec_apply(old(self)@, msg@));
                }
            },
            ServerMessage::OrcTransformUpdate { id, position, rotation } => {
                match self.orc_index_of(*id) {
                    Some(i) => {
                        proof {
                            assert forall|k: int|
                                0 <= k < i as int implies self@.orcs[k].orc_id != id by {
                                assert(self@.orcs[k].orc_id != self@.orcs[i as int].orc_id);
                            }
                            lemma_orc_move_first_match(
                                self@.orcs,
                                *id,
                                *position,
                                *rotation,
                                i as int,
                            );
                        }
                        let orc_id = self.orcs[i].orc_id;
                        self.orcs.set(
                            i,
                            OrcRecord { orc_id, position: *position, rotation: *rotation },
                        );
                        proof {
                            assert forall|x: int, y: int|
                                0 <= x < y < self@.orcs.len() implies self@.orcs[x].orc_id
                                != self@.orcs[y].orc_id by {
                                assert(old(self)@.orcs[x].orc_id != old(self)@.orcs[y].orc_id);
                            }
                        }
                    },
                    None => {
                        proof {
                            lemma_orc_move_absent(self@.orcs, *id, *position, *rotation);
                        }
                    },
                }
                proof {
                    assert(self@ =~= spec_apply(old(self)@, msg@));
                }
            },
            ServerMessage::ChatMessage { author, content } => {
                proof {
                    assert(self@ =~= spec_apply(old(self)@, msg@));
                }
            },
        }
    }
}

/// The outgoing transform report of the local player: a message exactly when
/// the locally computed transform changed since the previous tick, so that
/// an idle player sends nothing.
pub fn transform_update_if_changed(
    last_position: Vec2Bits,
    last_rotation: u32,
    position: Vec2Bits,
    rotation: u32,
) -> (r: Option<ClientMessage>)
    ensures
        position == last_position && rotation == last_rotation ==> r is None,
        position != last_position || rotation != last_rotation ==> (r matches Some(m) && m@
            == (ClientMessageView::PlayerTransformUpdate { position, rotation })),
{
    if position == last_position && rotation == last_rotation {
        None
    } else {
        Some(ClientMessage::PlayerTransformUpdate { position, rotation })
    }
}

} // verus!
