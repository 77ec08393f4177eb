//! The agent store: a slot arena of agents plus side tables for the
//! optional roles (leader marker, follower state, tracking count).
//!
//! Slots are stable: despawning clears a slot but never reuses it, so
//! an agent id stays valid for the whole run and a stale reference is
//! detected by the slot being empty.

use vstd::prelude::*;

verus! {

use crate::vec2::Vec2;

/// A live agent: a position and a velocity, both fixed-point.
#[derive(Clone, Copy, PartialEq, Eq, Structural, Debug)]
pub struct Agent {
    pub pos: Vec2,
    pub vel: Vec2,
}

/// What a follower is currently doing.
#[derive(Clone, Copy, PartialEq, Eq, Structural, Debug)]
pub enum PursuitState {
    /// Steer toward the stored leader.
    Idle,
    /// Travel to `target` and linger there, accumulating `progress`
    /// (fixed-point time units) while within follow range.
    Gathering { target: usize, progress: i64 },
}

/// The follower role: the leader this agent was spawned against and
/// its pursuit state. The leader reference is non-owning and is kept
/// while gathering.
#[derive(Clone, Copy, PartialEq, Eq, Structural, Debug)]
pub struct Follower {
    pub leader: usize,
    pub state: PursuitState,
}

/// The agent store. The four columns always have the same length;
/// index `i` of each describes agent `i`.
pub struct AgentStore {
    /// `Some` while the agent is alive, `None` once despawned.
    pub agents: Vec<Option<Agent>>,
    /// The leader marker; leaders carry no further state.
    pub leaders: Vec<bool>,
    /// The follower role, where attached.
    pub followers: Vec<Option<Follower>>,
    /// The tracking count: how many followers currently reference the
    /// agent as their leader. Attached lazily on first reference,
    /// removed when the count reaches zero, never present with zero.
    /// It outlives the agent itself, so a count can still be settled
    /// after its owner despawned.
    pub tracking: Vec<Option<u32>>,
}

/// The mathematical image of a store: the four columns as sequences.
pub struct StoreView {
    pub agents: Seq<Option<Agent>>,
    pub leaders: Seq<bool>,
    pub followers: Seq<Option<Follower>>,
    pub tracking: Seq<Option<u32>>,
}

impl View for AgentStore {
    type V = StoreView;

    open spec fn view(&self) -> StoreView {
        StoreView {
            agents: self.agents@,
            leaders: self.leaders@,
            followers: self.followers@,
            tracking: self.tracking@,
        }
    }
}

impl StoreView {
    pub open spec fn len(self) -> int {
        self.agents.len() as int
    }
}

/// One slot's share of well-formedness: roles only on plausible
/// slots, references within bounds, counts positive where present.
pub open spec fn wf_slot(w: StoreView, i: int) -> bool {
    &&& (w.leaders[i] ==> w.agents[i] is Some && w.followers[i] is None)
    &&& (w.followers[i] matches Some(f) ==> {
        &&& w.agents[i] is Some
        &&& f.leader < w.len()
        &&& w.followers[f.leader as int] is None
        &&& (f.state matches PursuitState::Gathering { target, progress } ==> {
            &&& target < w.len()
            &&& progress >= 0
        })
    })
    &&& (w.tracking[i] matches Some(c) ==> c >= 1)
}

/// Well-formedness of the whole store: equal column lengths and every
/// slot well-formed. Every public operation preserves it.
pub open spec fn wf(w: StoreView) -> bool {
    &&& w.leaders.len() == w.agents.len()
    &&& w.followers.len() == w.agents.len()
    &&& w.tracking.len() == w.agents.len()
    &&& forall|i: int| 0 <= i < w.len() ==> wf_slot(w, i)
}

/// Slot `i` holds no velocity component beyond `b` in magnitude.
pub open spec fn vel_within(w: StoreView, i: int, b: int) -> bool {
    w.agents[i] matches Some(a) ==> -b <= a.vel.x <= b && -b <= a.vel.y <= b
}

/// Every velocity component of the store is bounded by `b`.
pub open spec fn all_vel_le(w: StoreView, b: int) -> bool {
    forall|i: int| 0 <= i < w.len() ==> vel_within(w, i, b)
}

/// Slot `i` holds no coordinate beyond `b` in magnitude.
pub open spec fn pos_within(w: StoreView, i: int, b: int) -> bool {
    w.agents[i] matches Some(a) ==> -b <= a.pos.x <= b && -b <= a.pos.y <= b
}

/// Every coordinate of the store is bounded by `b`.
pub open spec fn all_pos_le(w: StoreView, b: int) -> bool {
    forall|i: int| 0 <= i < w.len() ==> pos_within(w, i, b)
}

/// A velocity bound may always be loosened.
pub proof fn lemma_vel_le_widen(w: StoreView, b1: int, b2: int)
    requires
        b1 <= b2,
        all_vel_le(w, b1),
    ensures
        all_vel_le(w, b2),
{
    assert forall|i: int| 0 <= i < w.len() implies vel_within(w, i, b2) by {
        assert(vel_within(w, i, b1));
    }
}

/// A coordinate bound may always be loosened.
pub proof fn lemma_pos_le_widen(w: StoreView, b1: int, b2: int)
    requires
        b1 <= b2,
        all_pos_le(w, b1),
    ensures
        all_pos_le(w, b2),
{
    assert forall|i: int| 0 <= i < w.len() implies pos_within(w, i, b2) by {
        assert(pos_within(w, i, b1));
    }
}

/// One entry's contribution to a tracking count: one when it is a
/// follower whose stored leader is `l`.
pub open spec fn tracks(e: Option<Follower>, l: int) -> int {
    if e matches Some(f) && f.leader == l {
        1
    } else {
        0
    }
}

/// How many followers in the column reference `l` as their leader.
/// Gather targets are not counted.
pub open spec fn followers_of(fs: Seq<Option<Follower>>, l: int) -> int
    decreases fs.len(),
{
    if fs.len() == 0 {
        0
    } else {
        followers_of(fs.drop_last(), l) + tracks(fs.last(), l)
    }
}

/// The tracking invariant: every count equals the number of followers
/// referencing the slot, and the count is absent exactly when that
/// number is zero. Spawning and the pursuit step preserve it; an
/// external despawn of a follower is the one known leak (the count is
/// then settled only by the despawn path of the pursuit step).
pub open spec fn counts_ok(w: StoreView) -> bool {
    forall|l: int| 0 <= l < w.len() ==> counts_ok_at(w, l)
}

pub open spec fn counts_ok_at(w: StoreView, l: int) -> bool {
    if followers_of(w.followers, l) == 0 {
        w.tracking[l] is None
    } else {
        w.tracking[l] matches Some(c) && c == followers_of(w.followers, l)
    }
}

/// A count never exceeds the number of entries.
pub proof fn lemma_followers_of_le_len(fs: Seq<Option<Follower>>, l: int)
    ensures
        0 <= followers_of(fs, l) <= fs.len(),
    decreases fs.len(),
{
    if fs.len() > 0 {
        lemma_followers_of_le_len(fs.drop_last(), l);
    }
}

/// Appending an entry adds exactly its own contribution to every
/// count.
pub proof fn lemma_followers_of_push(fs: Seq<Option<Follower>>, e: Option<Follower>, l: int)
    ensures
        followers_of(fs.push(e), l) == followers_of(fs, l) + tracks(e, l),
{
    assert(fs.push(e).drop_last() =~= fs);
    assert(fs.push(e).last() == e);
}

/// Replacing an entry shifts every count by the difference of the old
/// and new contributions.
pub proof fn lemma_followers_of_update(
    fs: Seq<Option<Follower>>,
    i: int,
    e: Option<Follower>,
    l: int,
)
    requires
        0 <= i < fs.len(),
    ensures
        followers_of(fs.update(i, e), l) == followers_of(fs, l) - tracks(fs[i], l) + tracks(
            e,
            l,
        ),
    decreases fs.len(),
{
    let fs2 = fs.update(i, e);
    if i == fs.len() - 1 {
        assert(fs2.drop_last() =~= fs.drop_last());
        assert(fs2.last() == e);
    } else {
        assert(fs2.drop_last() =~= fs.drop_last().update(i, e));
        assert(fs2.last() == fs.last());
        lemma_followers_of_update(fs.drop_last(), i, e, l);
    }
}

impl AgentStore {
    /// An empty store.
    pub fn new() -> (s: AgentStore)
        ensures
            s@.len() == 0,
            wf(s@),
            counts_ok(s@),
    {
        AgentStore { agents: Vec::new(), leaders: Vec::new(), followers: Vec::new(), tracking: Vec::new() }
    }

    /// The number of slots ever created, live or not.
    pub fn len(&self) -> (n: usize)
        ensures
            n == self@.len(),
    {
        self.agents.len()
    }

    /// Whether slot `id` currently holds a live agent.
    pub fn is_live(&self, id: usize) -> (b: bool)
        requires
            id < self@.len(),
        ensures
            b == (self@.agents[id as int] is Some),
    {
        self.agents[id].is_some()
    }

    /// The agent in slot `id`, if alive.
    pub fn agent(&self, id: usize) -> (a: Option<Agent>)
        requires
            id < self@.len(),
        ensures
            a == self@.agents[id as int],
    {
        self.agents[id]
    }

    /// Whether slot `id` carries the leader marker.
    pub fn is_leader(&self, id: usize) -> (b: bool)
        requires
            wf(self@),
            id < self@.len(),
        ensures
            b == self@.leaders[id as int],
    {
        self.leaders[id]
    }

    /// The follower role of slot `id`, if attached.
    pub fn follower(&self, id: usize) -> (f: Option<Follower>)
        requires
            wf(self@),
            id < self@.len(),
        ensures
            f == self@.followers[id as int],
    {
        self.followers[id]
    }

    /// The tracking count of slot `id`, if attached.
    pub fn tracking_count(&self, id: usize) -> (c: Option<u32>)
        requires
            wf(self@),
            id < self@.len(),
        ensures
            c == self@.tracking[id as int],
    {
        self.tracking[id]
    }

    /// Spawns a stationary leader at `pos` and returns its id.
    pub fn spawn_leader(&mut self, pos: Vec2) -> (id: usize)
        requires
            wf(old(self)@),
            old(self)@.len() < usize::MAX,
        ensures
            id == old(self)@.len(),
            final(self)@.agents == old(self)@.agents.push(
                Some(Agent { pos, vel: Vec2 { x: 0i64, y: 0i64 } }),
            ),
            final(self)@.leaders == old(self)@.leaders.push(true),
            final(self)@.followers == old(self)@.followers.push(None::<Follower>),
            final(self)@.tracking == old(self)@.tracking.push(None::<u32>),
            wf(final(self)@),
            counts_ok(old(self)@) ==> counts_ok(final(self)@),
    {
        let id = self.agents.len();
        self.agents.push(Some(Agent { pos, vel: Vec2 { x: 0, y: 0 } }));
        self.leaders.push(true);
        self.followers.push(None);
        self.tracking.push(None);
        proof {
            let w0 = old(self)@;
            let w1 = self@;
            assert forall|i: int| 0 <= i < w1.len() implies wf_slot(w1, i) by {
                if i < w0.len() {
                    assert(wf_slot(w0, i));
                }
            }
            if counts_ok(w0) {
                assert forall|l: int| 0 <= l < w1.len() implies counts_ok_at(w1, l) by {
                    lemma_followers_of_push(w0.followers, None::<Follower>, l);
                    if l < w0.len() {
                        assert(counts_ok_at(w0, l));
                    } else {
                        assert forall|i: int| 0 <= i < w0.followers.len() implies tracks(
                            #[trigger] w0.followers[i],
                            l,
                        ) == 0 by {
                            assert(wf_slot(w0, i));
                        }
                        lemma_followers_of_out_of_range(w0.followers, l);
                    }
                }
            }
        }
        id
    }

    /// Spawns a follower against the leader in slot `leader`: a fresh
    /// agent at the leader's position with zero velocity, in the
    /// `Idle` state, and the leader's tracking count incremented, or
    /// created with one on first reference.
    pub fn spawn_follower(&mut self, leader: usize) -> (id: usize)
        requires
            wf(old(self)@),
            old(self)@.len() < 0xffff_ffff,
            leader < old(self)@.len(),
            old(self)@.leaders[leader as int],
            old(self)@.tracking[leader as int] matches Some(c) ==> c < 0xffff_ffffu32,
        ensures
            id == old(self)@.len(),
            final(self)@.agents == old(self)@.agents.push(
                Some(
                    Agent {
                        pos: old(self)@.agents[leader as int]->Some_0.pos,
                        vel: Vec2 { x: 0i64, y: 0i64 },
                    },
                ),
            ),
            final(self)@.leaders == old(self)@.leaders.push(false),
            final(self)@.followers == old(self)@.followers.push(
                Some(Follower { leader, state: PursuitState::Idle }),
            ),
            final(self)@.tracking == old(self)@.tracking.push(None::<u32>).update(
                leader as int,
                Some(
                    (if old(self)@.tracking[leader as int] is Some {
                        old(self)@.tracking[leader as int]->Some_0 + 1
                    } else {
                        1u32 as int
                    }) as u32,
                ),
            ),
            wf(final(self)@),
            counts_ok(old(self)@) ==> counts_ok(final(self)@),
    {
        proof {
            assert(wf_slot(old(self)@, leader as int));
        }
        let id = self.agents.len();
        let lp = self.agents[leader];
        let pos = match lp {
            Some(a) => a.pos,
            None => Vec2 { x: 0, y: 0 },  // unreachable: leaders are alive
        };
        self.agents.push(Some(Agent { pos, vel: Vec2 { x: 0, y: 0 } }));
        self.leaders.push(false);
        self.followers.push(Some(Follower { leader, state: PursuitState::Idle }));
        self.tracking.push(None);
        let c0 = self.tracking[leader];
        let c1: u32 = match c0 {
            Some(c) => c + 1,
            None => 1,
        };
        self.tracking[leader] = Some(c1);
        proof {
            let w0 = old(self)@;
            let w1 = self@;
            assert forall|i: int| 0 <= i < w1.len() implies wf_slot(w1, i) by {
                if i < w0.len() {
                    assert(wf_slot(w0, i));
                }
                assert(wf_slot(w0, leader as int));
            }
            if counts_ok(w0) {
                assert forall|l: int| 0 <= l < w1.len() implies counts_ok_at(w1, l) by {
                    lemma_followers_of_push(
                        w0.followers,
                        Some(Follower { leader, state: PursuitState::Idle }),
                        l,
                    );
                    if l < w0.len() {
                        assert(counts_ok_at(w0, l));
                    } else {
                        assert forall|i: int| 0 <= i < w0.followers.len() implies tracks(
                            #[trigger] w0.followers[i],
                            l,
                        ) == 0 by {
                            assert(wf_slot(w0, i));
                        }
                        lemma_followers_of_out_of_range(w0.followers, l);
                    }
                }
            }
        }
        id
    }

    /// Despawns an agent externally: the slot is emptied and its
    /// roles are removed. Its tracking count, if any, is left in
    /// place so that the pursuit step can still settle it. Note that
    /// despawning a follower this way leaks one reference on its
    /// leader's count: the core defines no decrement path for it.
    pub fn despawn(&mut self, id: usize)
        requires
            wf(old(self)@),
            id < old(self)@.len(),
        ensures
            final(self)@.agents == old(self)@.agents.update(id as int, None::<Agent>),
            final(self)@.leaders == old(self)@.leaders.update(id as int, false),
            final(self)@.followers == old(self)@.followers.update(id as int, None::<Follower>),
            final(self)@.tracking == old(self)@.tracking,
            wf(final(self)@),
            counts_ok(old(self)@) && old(self)@.followers[id as int] is None ==> counts_ok(
                final(self)@,
            ),
    {
        self.agents[id] = None;
        self.leaders[id] = false;
        self.followers[id] = None;
        proof {
            let w0 = old(self)@;
            let w1 = self@;
            assert forall|i: int| 0 <= i < w1.len() implies wf_slot(w1, i) by {
                assert(wf_slot(w0, i));
            }
            if counts_ok(w0) && w0.followers[id as int] is None {
                assert(w1.followers =~= w0.followers);
                assert forall|l: int| 0 <= l < w1.len() implies counts_ok_at(w1, l) by {
                    assert(counts_ok_at(w0, l));
                }
            }
        }
    }

    /// Adds a steering direction to every leader's velocity; the
    /// external input layer supplies the direction once per tick.
    pub fn accelerate(&mut self, dir: Vec2)
        requires
            wf(old(self)@),
            -crate::num::SCALE <= dir.x <= crate::num::SCALE,
            -crate::num::SCALE <= dir.y <= crate::num::SCALE,
            all_vel_le(old(self)@, 4_000_000_000_000_000_000),
        ensures
            final(self)@.leaders == old(self)@.leaders,
            final(self)@.followers == old(self)@.followers,
            final(self)@.tracking == old(self)@.tracking,
            final(self)@.agents.len() == old(self)@.len(),
            forall|i: int| 0 <= i < old(self)@.len() ==> final(self)@.agents[i] == (
            if old(self)@.leaders[i] {
                Some(
                    Agent {
                        pos: old(self)@.agents[i]->Some_0.pos,
                        vel: Vec2 {
                            x: (old(self)@.agents[i]->Some_0.vel.x + dir.x) as i64,
                            y: (old(self)@.agents[i]->Some_0.vel.y + dir.y) as i64,
                        },
                    },
                )
            } else {
                old(self)@.agents[i]
            }),
            wf(final(self)@),
    {
        let ghost w0 = self@;
        let n = self.agents.len();
        let mut i: usize = 0;
        while i < n
            invariant
                wf(w0),
                self@.leaders == w0.leaders,
                self@.followers == w0.followers,
                self@.tracking == w0.tracking,
                self@.agents.len() == w0.len(),
                n == w0.len(),
                i <= n,
                -crate::num::SCALE <= dir.x <= crate::num::SCALE,
                -crate::num::SCALE <= dir.y <= crate::num::SCALE,
                all_vel_le(w0, 4_000_000_000_000_000_000),
                forall|k: int| i <= k < w0.len() ==> self@.agents[k] == w0.agents[k],
                forall|k: int| 0 <= k < i ==> self@.agents[k] == (
                if w0.leaders[k] {
                    Some(
                        Agent {
                            pos: w0.agents[k]->Some_0.pos,
                            vel: Vec2 {
                                x: (w0.agents[k]->Some_0.vel.x + dir.x) as i64,
                                y: (w0.agents[k]->Some_0.vel.y + dir.y) as i64,
                            },
                        },
                    )
                } else {
                    w0.agents[k]
                }),
            decreases n - i,
        {
            if self.leaders[i] {
                proof {
                    assert(wf_slot(w0, i as int));
                    assert(vel_within(w0, i as int, 4_000_000_000_000_000_000));
                    assert(self@.agents[i as int] == w0.agents[i as int]);
                }
                let a = match self.agents[i] {
                    Some(a) => a,
                    None => Agent { pos: Vec2 { x: 0, y: 0 }, vel: Vec2 { x: 0, y: 0 } },
                    // unreachable: leaders are alive
                };
                self.agents[i] = Some(
                    Agent { pos: a.pos, vel: Vec2 { x: a.vel.x + dir.x, y: a.vel.y + dir.y } },
                );
            }
            i = i + 1;
        }
        proof {
            assert forall|i2: int| 0 <= i2 < self@.len() implies wf_slot(self@, i2) by {
                assert(wf_slot(w0, i2));
            }
        }
    }

    /// Puts the follower in slot `id` into the gathering state against
    /// `target`, with no progress yet. The stored leader reference is
    /// kept; tracking counts do not change (gather targets are never
    /// counted).
    pub fn begin_gather(&mut self, id: usize, target: usize)
        requires
            wf(old(self)@),
            id < old(self)@.len(),
            old(self)@.followers[id as int] is Some,
            target < old(self)@.len(),
        ensures
            final(self)@.agents == old(self)@.agents,
            final(self)@.leaders == old(self)@.leaders,
            final(self)@.tracking == old(self)@.tracking,
            final(self)@.followers == old(self)@.followers.update(
                id as int,
                Some(
                    Follower {
                        leader: old(self)@.followers[id as int]->Some_0.leader,
                        state: PursuitState::Gathering { target, progress: 0i64 },
                    },
                ),
            ),
            wf(final(self)@),
            counts_ok(old(self)@) ==> counts_ok(final(self)@),
    {
        let f = match self.followers[id] {
            Some(f) => f,
            None => Follower { leader: 0, state: PursuitState::Idle },  // unreachable
        };
        self.followers[id] = Some(
            Follower { leader: f.leader, state: PursuitState::Gathering { target, progress: 0 } },
        );
        proof {
            let w0 = old(self)@;
            let w1 = self@;
            assert forall|i: int| 0 <= i < w1.len() implies wf_slot(w1, i) by {
                assert(wf_slot(w0, i));
                assert(wf_slot(w0, id as int));
            }
            if counts_ok(w0) {
                assert forall|l: int| 0 <= l < w1.len() implies counts_ok_at(w1, l) by {
                    lemma_followers_of_update(
                        w0.followers,
                        id as int,
                        w1.followers[id as int],
                        l,
                    );
                    assert(counts_ok_at(w0, l));
                }
            }
        }
    }
}

impl AgentStore {
    /// The spawn intent: creates one follower from every current
    /// leader, each at its leader's position, in `Idle` state, and
    /// updates the tracking registry once per leader.
    pub fn spawning(&mut self)
        requires
            wf(old(self)@),
            old(self)@.len() < 0x7fff_ffff,
            tracking_below(old(self)@, 0xffff_fffe),
        ensures
            final(self)@.agents.len() == old(self)@.len() + leader_ids(
                old(self)@.leaders,
                old(self)@.len(),
            ).len(),
            final(self)@.leaders.len() == final(self)@.agents.len(),
            final(self)@.followers.len() == final(self)@.agents.len(),
            final(self)@.tracking.len() == final(self)@.agents.len(),
            forall|i: int|
                0 <= i < old(self)@.len() ==> final(self)@.agents[i] == old(self)@.agents[i]
                    && final(self)@.leaders[i] == old(self)@.leaders[i]
                    && final(self)@.followers[i] == old(self)@.followers[i],
            forall|l: int|
                0 <= l < old(self)@.len() ==> final(self)@.tracking[l] == (
                if old(self)@.leaders[l] {
                    Some(
                        (if old(self)@.tracking[l] is Some {
                            old(self)@.tracking[l]->Some_0 + 1
                        } else {
                            1u32 as int
                        }) as u32,
                    )
                } else {
                    old(self)@.tracking[l]
                }),
            forall|k: int|
                old(self)@.len() <= k < final(self)@.agents.len() ==> !final(self)@.leaders[k]
                    && final(self)@.tracking[k] is None,
            forall|k: int|
                old(self)@.len() <= k < final(self)@.agents.len() ==> {
                    let lid = leader_ids(old(self)@.leaders, old(self)@.len())[k - old(
                        self,
                    )@.len()];
                    &&& #[trigger] final(self)@.agents[k] == Some(
                        Agent {
                            pos: old(self)@.agents[lid]->Some_0.pos,
                            vel: Vec2 { x: 0i64, y: 0i64 },
                        },
                    )
                    &&& final(self)@.followers[k] == Some(
                        Follower { leader: lid as usize, state: PursuitState::Idle },
                    )
                },
            wf(final(self)@),
            counts_ok(old(self)@) ==> counts_ok(final(self)@),
    {
        let ghost w0 = self@;
        let n = self.agents.len();
        let mut idx: usize = 0;
        while idx < n
            invariant
                wf(w0),
                n == w0.len(),
                n < 0x7fff_ffff,
                tracking_below(w0, 0xffff_fffe),
                idx <= n,
                wf(self@),
                self@.agents.len() == n + leader_ids(w0.leaders, idx as int).len(),
                self@.leaders.len() == self@.agents.len(),
                self@.followers.len() == self@.agents.len(),
                self@.tracking.len() == self@.agents.len(),
                forall|i: int|
                    0 <= i < n ==> self@.agents[i] == w0.agents[i] && self@.leaders[i]
                        == w0.leaders[i] && self@.followers[i] == w0.followers[i],
                forall|l: int|
                    0 <= l < n ==> self@.tracking[l] == (
                    if w0.leaders[l] && l < idx {
                        Some(
                            (if w0.tracking[l] is Some {
                                w0.tracking[l]->Some_0 + 1
                            } else {
                                1u32 as int
                            }) as u32,
                        )
                    } else {
                        w0.tracking[l]
                    }),
                forall|k: int|
                    n <= k < self@.agents.len() ==> !self@.leaders[k] && self@.tracking[k]
                        is None,
                forall|k: int|
                    n <= k < self@.agents.len() ==> {
                        let lid = leader_ids(w0.leaders, idx as int)[k - n];
                        &&& #[trigger] self@.agents[k] == Some(
                            Agent {
                                pos: w0.agents[lid]->Some_0.pos,
                                vel: Vec2 { x: 0i64, y: 0i64 },
                            },
                        )
                        &&& self@.followers[k] == Some(
                            Follower { leader: lid as usize, state: PursuitState::Idle },
                        )
                    },
                counts_ok(w0) ==> counts_ok(self@),
            decreases n - idx,
        {
            let ghost gidx = idx as int;
            let ghost lids = leader_ids(w0.leaders, gidx);
            proof {
                lemma_leader_ids_len(w0.leaders, gidx);
            }
            if self.leaders[idx] {
                let ghost wpre = self@;
                proof {
                    assert(self@.tracking[gidx] == w0.tracking[gidx]);
                }
                let _id = self.spawn_follower(idx);
                proof {
                    assert(leader_ids(w0.leaders, gidx + 1) =~= lids + seq![gidx]);
                    assert forall|l: int| 0 <= l < n implies self@.tracking[l] == (
                    if w0.leaders[l] && l < gidx + 1 {
                        Some(
                            (if w0.tracking[l] is Some {
                                w0.tracking[l]->Some_0 + 1
                            } else {
                                1u32 as int
                            }) as u32,
                        )
                    } else {
                        w0.tracking[l]
                    }) by {
                        assert(wpre.tracking[l] == (
                        if w0.leaders[l] && l < gidx {
                            Some(
                                (if w0.tracking[l] is Some {
                                    w0.tracking[l]->Some_0 + 1
                                } else {
                                    1u32 as int
                                }) as u32,
                            )
                        } else {
                            w0.tracking[l]
                        }));
                    }
                    assert forall|k: int|
                        n <= k < self@.agents.len() implies !self@.leaders[k]
                        && self@.tracking[k] is None by {
                        if k < wpre.agents.len() {
                            assert(!wpre.leaders[k] && wpre.tracking[k] is None);
                        }
                    }
                    assert forall|k: int|
                        n <= k < self@.agents.len() implies {
                        let lid = leader_ids(w0.leaders, gidx + 1)[k - n];
                        &&& #[trigger] self@.agents[k] == Some(
                            Agent {
                                pos: w0.agents[lid]->Some_0.pos,
                                vel: Vec2 { x: 0i64, y: 0i64 },
                            },
                        )
                        &&& self@.followers[k] == Some(
                            Follower { leader: lid as usize, state: PursuitState::Idle },
                        )
                    } by {
                        if k - n < lids.len() {
                            assert(leader_ids(w0.leaders, gidx + 1)[k - n] == lids[k - n]);
                            assert(self@.agents[k] == wpre.agents[k]);
                            assert(self@.followers[k] == wpre.followers[k]);
                            assert(wpre.agents[k] == Some(
                                Agent {
                                    pos: w0.agents[lids[k - n]]->Some_0.pos,
                                    vel: Vec2 { x: 0i64, y: 0i64 },
                                },
                            ));
                        } else {
                            assert(leader_ids(w0.leaders, gidx + 1)[k - n] == gidx);
                            assert(k == wpre.agents.len());
                            assert(wpre.agents[gidx] == w0.agents[gidx]);
                        }
                    }
                }
            } else {
                proof {
                    assert(leader_ids(w0.leaders, gidx + 1) =~= lids);
                    assert forall|l: int| 0 <= l < n implies self@.tracking[l] == (
                    if w0.leaders[l] && l < gidx + 1 {
                        Some(
                            (if w0.tracking[l] is Some {
                                w0.tracking[l]->Some_0 + 1
                            } else {
                                1u32 as int
                            }) as u32,
                        )
                    } else {
                        w0.tracking[l]
                    }) by {
                        assert(self@.tracking[l] == (
                        if w0.leaders[l] && l < gidx {
                            Some(
                                (if w0.tracking[l] is Some {
                                    w0.tracking[l]->Some_0 + 1
                                } else {
                                    1u32 as int
                                }) as u32,
                            )
                        } else {
                            w0.tracking[l]
                        }));
                    }
                }
            }
            idx = idx + 1;
        }
    }
}

/// The slots among the first `m` that carry the leader marker, in
/// order.
pub open spec fn leader_ids(ls: Seq<bool>, m: int) -> Seq<int>
    decreases m,
{
    if m <= 0 {
        Seq::empty()
    } else {
        leader_ids(ls, m - 1) + if ls[m - 1] {
            seq![m - 1]
        } else {
            Seq::empty()
        }
    }
}

/// There are never more leaders than slots scanned.
pub proof fn lemma_leader_ids_len(ls: Seq<bool>, m: int)
    requires
        m >= 0,
    ensures
        leader_ids(ls, m).len() <= m,
    decreases m,
{
    if m > 0 {
        lemma_leader_ids_len(ls, m - 1);
    }
}

/// Every tracking count of the store is below `b`.
pub open spec fn tracking_below(w: StoreView, b: int) -> bool {
    forall|l: int|
        0 <= l < w.len() ==> (#[trigger] w.tracking[l] matches Some(c) ==> c < b)
}

/// A column has no followers of a leader index at or beyond its
/// length, provided the column is well-formed bound-wise; stated
/// directly on the sequence: entries referencing `l` contribute only
/// if some entry stores `l`, which a fresh slot id never is.
pub proof fn lemma_followers_of_out_of_range(fs: Seq<Option<Follower>>, l: int)
    requires
        forall|i: int| 0 <= i < fs.len() ==> tracks(#[trigger] fs[i], l) == 0,
    ensures
        followers_of(fs, l) == 0,
    decreases fs.len(),
{
    if fs.len() > 0 {
        assert(fs.last() == fs[fs.len() - 1]);
        assert forall|i: int| 0 <= i < fs.drop_last().len() implies tracks(
            #[trigger] fs.drop_last()[i],
            l,
        ) == 0 by {
            assert(fs.drop_last()[i] == fs[i]);
        }
        lemma_followers_of_out_of_range(fs.drop_last(), l);
    }
}

} // verus!
