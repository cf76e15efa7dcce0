//! Server-owned projectiles ("orcs") and the shoot action that spawns them.
//!
//! A `Shoot` message from a client in the roster spawns an orc at the
//! shooter's last accepted position, under a fresh 64-bit id, and announces
//! it to every client — the shooter included, so its own mirror learns the
//! canonical id. Later server-side movement is broadcast only when the
//! transform actually changed since the last announcement, to avoid
//! redundant traffic.

use vstd::prelude::*;

use crate::engine::directives_view;
use crate::engine::Directive;
use crate::engine::DirectiveView;
use crate::protocol::ServerMessage;
use crate::protocol::ServerMessageView;
use crate::protocol::Vec2Bits;
use crate::roster::spec_lookup;
use crate::roster::Roster;

verus! {

/// One live projectile: identity and the transform last announced for it.
#[derive(Clone, Copy, PartialEq, Eq, Structural, Debug)]
pub struct OrcRecord {
    pub orc_id: u64,
    pub position: Vec2Bits,
    pub rotation: u32,
}

/// The first orc with the given id, if any.
pub open spec fn orc_lookup(orcs: Seq<OrcRecord>, id: u64) -> Option<OrcRecord>
    decreases orcs.len(),
{
    if orcs.len() == 0 {
        None
    } else if orcs[0].orc_id == id {
        Some(orcs[0])
    } else {
        orc_lookup(orcs.drop_first(), id)
    }
}

/// Whether an orc with the given id is live.
pub open spec fn orc_contains(orcs: Seq<OrcRecord>, id: u64) -> bool {
    orc_lookup(orcs, id) is Some
}

/// Unique ids among live projectiles.
pub open spec fn distinct_orc_ids(orcs: Seq<OrcRecord>) -> bool {
    forall|i: int, j: int| 0 <= i < j < orcs.len() ==> orcs[i].orc_id != orcs[j].orc_id
}

/// The table with the first orc of the given id re-aimed at a new transform;
/// unchanged when the id is absent.
pub open spec fn spec_orc_move(
    orcs: Seq<OrcRecord>,
    id: u64,
    position: Vec2Bits,
    rotation: u32,
) -> Seq<OrcRecord>
    decreases orcs.len(),
{
    if orcs.len() == 0 {
        Seq::empty()
    } else if orcs[0].orc_id == id {
        seq![OrcRecord { orc_id: orcs[0].orc_id, position, rotation }] + orcs.drop_first()
    } else {
        seq![orcs[0]] + spec_orc_move(orcs.drop_first(), id, position, rotation)
    }
}

/// The announcement that an orc spawned.
pub open spec fn spawn_orc_message(id: u64, position: Vec2Bits, direction: u32) -> ServerMessageView {
    ServerMessageView::SpawnOrc { id, position, direction }
}

/// The announcement of an orc's new transform.
pub open spec fn orc_transform_message(
    id: u64,
    position: Vec2Bits,
    rotation: u32,
) -> ServerMessageView {
    ServerMessageView::OrcTransformUpdate { id, position, rotation }
}

/// The live orcs after a shoot: a new record at the shooter's roster-cached
/// position when the shooter is connected and the id is fresh; unchanged
/// otherwise.
pub open spec fn spec_shoot_orcs(
    roster: Seq<crate::roster::PlayerRecordView>,
    orcs: Seq<OrcRecord>,
    shooter: u64,
    direction: u32,
    orc_id: u64,
) -> Seq<OrcRecord> {
    match spec_lookup(roster, shooter) {
        Some(p) => if orc_contains(orcs, orc_id) {
            orcs
        } else {
            orcs.push(OrcRecord { orc_id, position: p.position, rotation: direction })
        },
        None => orcs,
    }
}

/// The traffic a shoot produces: the spawn announcement to every client —
/// the shooter included — when the orc spawns, nothing otherwise.
pub open spec fn spec_shoot_directives(
    roster: Seq<crate::roster::PlayerRecordView>,
    orcs: Seq<OrcRecord>,
    shooter: u64,
    direction: u32,
    orc_id: u64,
) -> Seq<DirectiveView> {
    match spec_lookup(roster, shooter) {
        Some(p) => if orc_contains(orcs, orc_id) {
            Seq::empty()
        } else {
            seq![
                DirectiveView::FanOut {
                    message: spawn_orc_message(orc_id, p.position, direction),
                    except: None,
                },
            ]
        },
        None => Seq::empty(),
    }
}

/// The traffic an orc movement produces: the new transform to every client
/// when the orc is live and the transform actually changed, nothing
/// otherwise.
pub open spec fn spec_orc_move_directives(
    orcs: Seq<OrcRecord>,
    id: u64,
    position: Vec2Bits,
    rotation: u32,
) -> Seq<DirectiveView> {
    match orc_lookup(orcs, id) {
        Some(o) => if o.position == position && o.rotation == rotation {
            Seq::empty()
        } else {
            seq![
                DirectiveView::FanOut {
                    message: orc_transform_message(id, position, rotation),
                    except: None,
                },
            ]
        },
        None => Seq::empty(),
    }
}

/// A lookup misses exactly when no orc carries the id.
pub proof fn lemma_orc_lookup_none_iff(orcs: Seq<OrcRecord>, id: u64)
    ensures
        (orc_lookup(orcs, id) is None) <==> (forall|k: int|
            0 <= k < orcs.len() ==> orcs[k].orc_id != id),
    decreases orcs.len(),
{
    if orcs.len() > 0 {
        lemma_orc_lookup_none_iff(orcs.drop_first(), id);
        if orc_lookup(orcs, id) is None {
            assert forall|k: int| 0 <= k < orcs.len() implies orcs[k].orc_id != id by {
                if k > 0 {
                    assert(orcs.drop_first()[k - 1] == orcs[k]);
                }
            }
        }
        if forall|k: int| 0 <= k < orcs.len() ==> orcs[k].orc_id != id {
            assert forall|k: int|
                0 <= k < orcs.drop_first().len() implies orcs.drop_first()[k].orc_id != id by {
                assert(orcs.drop_first()[k] == orcs[k + 1]);
            }
        }
    }
}

/// A lookup returns the orc at the first index that carries the id.
pub proof fn lemma_orc_lookup_first_match(orcs: Seq<OrcRecord>, id: u64, i: int)
    requires
        0 <= i < orcs.len(),
        orcs[i].orc_id == id,
        forall|k: int| 0 <= k < i ==> orcs[k].orc_id != id,
    ensures
        orc_lookup(orcs, id) == Some(orcs[i]),
    decreases i,
{
    if i > 0 {
        assert forall|k: int| 0 <= k < i - 1 implies orcs.drop_first()[k].orc_id != id by {
            assert(orcs.drop_first()[k] == orcs[k + 1]);
        }
        assert(orcs.drop_first()[i - 1] == orcs[i]);
        lemma_orc_lookup_first_match(orcs.drop_first(), id, i - 1);
    }
}

/// Moving by id rewrites exactly the orc at the first matching index.
pub proof fn lemma_orc_move_first_match(
    orcs: Seq<OrcRecord>,
    id: u64,
    position: Vec2Bits,
    rotation: u32,
    i: int,
)
    requires
        0 <= i < orcs.len(),
        orcs[i].orc_id == id,
        forall|k: int| 0 <= k < i ==> orcs[k].orc_id != id,
    ensures
        spec_orc_move(orcs, id, position, rotation) == orcs.update(
            i,
            OrcRecord { orc_id: orcs[i].orc_id, position, rotation },
        ),
    decreases i,
{
    if i == 0 {
        assert(spec_orc_move(orcs, id, position, rotation) =~= orcs.update(
            0,
            OrcRecord { orc_id: orcs[0].orc_id, position, rotation },
        ));
    } else {
        assert forall|k: int| 0 <= k < i - 1 implies orcs.drop_first()[k].orc_id != id by {
            assert(orcs.drop_first()[k] == orcs[k + 1]);
        }
        assert(orcs.drop_first()[i - 1] == orcs[i]);
        lemma_orc_move_first_match(orcs.drop_first(), id, position, rotation, i - 1);
        assert(seq![orcs[0]] + orcs.drop_first().update(
            i - 1,
            OrcRecord { orc_id: orcs[i].orc_id, position, rotation },
        ) =~= orcs.update(i, OrcRecord { orc_id: orcs[i].orc_id, position, rotation }));
    }
}

/// Moving an absent id leaves the table unchanged.
pub proof fn lemma_orc_move_absent(orcs: Seq<OrcRecord>, id: u64, position: Vec2Bits, rotation: u32)
    requires
        !orc_contains(orcs, id),
    ensures
        spec_orc_move(orcs, id, position, rotation) == orcs,
    decreases orcs.len(),
{
    if orcs.len() > 0 {
        lemma_orc_move_absent(orcs.drop_first(), id, position, rotation);
        assert(seq![orcs[0]] + orcs.drop_first() =~= orcs);
    }
}

/// The server's table of live projectiles; unique ids.
pub struct OrcTable {
    orcs: Vec<OrcRecord>,
}

impl View for OrcTable {
    type V = Seq<OrcRecord>;

    closed spec fn view(&self) -> Seq<OrcRecord> {
        self.orcs@
    }
}

impl OrcTable {
    /// Unique ids hold.
    pub open spec fn wf(&self) -> bool {
        distinct_orc_ids(self@)
    }

    /// An empty table.
    pub fn new() -> (r: OrcTable)
        ensures
            r@ == Seq::<OrcRecord>::empty(),
            r.wf(),
    {
        OrcTable { orcs: Vec::new() }
    }

    /// How many projectiles are live.
    pub fn len(&self) -> (n: usize)
        ensures
            n == self@.len(),
    {
        self.orcs.len()
    }

    /// The index of the first orc with the given id.
    fn index_of(&self, id: u64) -> (r: Option<usize>)
        ensures
            match r {
                Some(i) => i < self@.len() && self@[i as int].orc_id == id && orc_lookup(self@, id)
                    == Some(self@[i as int]),
                None => !orc_contains(self@, id),
            },
    {
        let n = self.orcs.len();
        for i in 0..n
            invariant
                n == self@.len(),
                forall|k: int| 0 <= k < i ==> self@[k].orc_id != id,
        {
            if self.orcs[i].orc_id == id {
                proof {
                    lemma_orc_lookup_first_match(self@, id, i as int);
                }
                return Some(i);
            }
        }
        proof {
            lemma_orc_lookup_none_iff(self@, id);
        }
        None
    }

    /// Whether an orc with the given id is live.
    pub fn contains(&self, id: u64) -> (r: bool)
        ensures
            r == orc_contains(self@, id),
    {
        self.index_of(id).is_some()
    }

    /// The transform last announced for the given orc.
    pub fn lookup(&self, id: u64) -> (r: Option<(Vec2Bits, u32)>)
        ensures
            match r {
                Some(t) => orc_lookup(self@, id) matches Some(o) && o.position == t.0 && o.rotation
                    == t.1,
                None => !orc_contains(self@, id),
            },
    {
        match self.index_of(id) {
            Some(i) => {
                let o = self.orcs[i];
                Some((o.position, o.rotation))
            },
            None => None,
        }
    }

    /// A server-side movement of a live orc. The new transform is recorded
    /// and announced to every client only when it differs from the last
    /// announced one; a movement of an unknown orc is dropped.
    pub fn on_orc_transform(&mut self, id: u64, position: Vec2Bits, rotation: u32) -> (out: Vec<
        Directive,
    >)
        requires
            old(self).wf(),
        ensures
            final(self).wf(),
            final(self)@ == spec_orc_move(old(self)@, id, position, rotation),
            directives_view(out@) == spec_orc_move_directives(old(self)@, id, position, rotation),
    {
        let mut out: Vec<Directive> = Vec::new();
        match self.index_of(id) {
            Some(i) => {
                proof {
                    assert forall|k: int| 0 <= k < i as int implies self@[k].orc_id != id by {
                        assert(self@[k].orc_id != self@[i as int].orc_id);
                    }
                    lemma_orc_move_first_match(self@, id, position, rotation, i as int);
                }
                let o = self.orcs[i];
                if o.position == position && o.rotation == rotation {
                    proof {
                        assert(spec_orc_move(old(self)@, id, position, rotation) =~= old(self)@);
                        assert(directives_view(out@) =~= spec_orc_move_directives(
                            old(self)@,
                            id,
                            position,
                            rotation,
                        ));
                    }
                } else {
                    self.orcs.set(i, OrcRecord { orc_id: o.orc_id, position, rotation });
                    out.push(
                        Directive::FanOut {
                            message: ServerMessage::OrcTransformUpdate { id, position, rotation },
                            except: None,
                        },
                    );
                    proof {
                        assert forall|x: int, y: int|
                            0 <= x < y < self@.len() implies self@[x].orc_id != self@[y].orc_id by {
                            assert(old(self)@[x].orc_id != old(self)@[y].orc_id);
                        }
                        assert(directives_view(out@) =~= spec_orc_move_directives(
                            old(self)@,
                            id,
                            position,
                            rotation,
                        ));
                    }
                }
            },
            None => {
                proof {
                    lemma_orc_move_absent(self@, id, position, rotation);
                    assert(directives_view(out@) =~= spec_orc_move_directives(
                        old(self)@,
                        id,
                        position,
                        rotation,
                    ));
                }
            },
        }
        out
    }
}

/// A shoot action reported by a client, under a caller-chosen orc id. The
/// orc spawns at the shooter's roster-cached position and is announced to
/// every client — the shooter included — when the shooter is connected and
/// the id is fresh; a shoot from an unknown client, or under a live id, is
/// dropped.
pub fn on_shoot(
    roster: &Roster,
    orcs: &mut OrcTable,
    shooter: u64,
    direction: u32,
    orc_id: u64,
) -> (out: Vec<Directive>)
    requires
        old(orcs).wf(),
    ensures
        final(orcs).wf(),
        final(orcs)@ == spec_shoot_orcs(roster@, old(orcs)@, shooter, direction, orc_id),
        directives_view(out@) == spec_shoot_directives(roster@, old(orcs)@, shooter, direction, orc_id),
{
    let mut out: Vec<Directive> = Vec::new();
    match roster.lookup(shooter) {
        Some((position, _)) => {
            if !orcs.contains(orc_id) {
                proof {
                    lemma_orc_lookup_none_iff(orcs@, orc_id);
                }
                orcs.orcs.push(OrcRecord { orc_id, position, rotation: direction });
                out.push(
                    Directive::FanOut {
                        message: ServerMessage::SpawnOrc { id: orc_id, position, direction },
                        except: None,
                    },
                );
                proof {
                    assert forall|x: int, y: int|
                        0 <= x < y < orcs@.len() implies orcs@[x].orc_id != orcs@[y].orc_id by {
                        if y < orcs@.len() - 1 {
                            assert(old(orcs)@[x].orc_id != old(orcs)@[y].orc_id);
                        }
                    }
                    assert(directives_view(out@) =~= spec_shoot_directives(
                        roster@,
                        old(orcs)@,
                        shooter,
                        direction,
                        orc_id,
                    ));
                }
            } else {
                proof {
                    assert(directives_view(out@) =~= spec_shoot_directives(
                        roster@,
                        old(orcs)@,
                        shooter,
                        direction,
                        orc_id,
                    ));
                }
            }
        },
        None => {
            proof {
                assert(directives_view(out@) =~= spec_shoot_directives(
                    roster@,
                    old(orcs)@,
                    shooter,
                    direction,
                    orc_id,
                ));
            }
        },
    }
    out
}

/// Relies on `rand::random`: a value sampled from the standard distribution.
/// Nothing is promised of the value.
pub assume_specification<T>[ rand::random::<T> ]() -> (r: T)
    where
        rand::distributions::Standard: rand::distributions::Distribution<T>,
;

/// A shoot action under a freshly drawn random 64-bit orc id. Whatever id
/// the draw produced, the table and the traffic are those of [`on_shoot`]
/// under that id.
pub fn on_shoot_with_fresh_id(
    roster: &Roster,
    orcs: &mut OrcTable,
    shooter: u64,
    direction: u32,
) -> (out: Vec<Directive>)
    requires
        old(orcs).wf(),
    ensures
        final(orcs).wf(),
        exists|orc_id: u64|
            final(orcs)@ == spec_shoot_orcs(roster@, old(orcs)@, shooter, direction, orc_id)
                && directives_view(out@) == spec_shoot_directives(
                roster@,
                old(orcs)@,
                shooter,
                direction,
                orc_id,
            ),
{
    let orc_id = rand::random::<u64>();
    on_shoot(roster, orcs, shooter, direction, orc_id)
}

} // verus!
