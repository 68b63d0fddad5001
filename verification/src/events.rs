//! The event pool: named trigger definitions with a per-event
//! scheduling status, rolled once per simulated turn.

use vstd::prelude::*;
use crate::effects::Effect;
use crate::probability::{Condition, Probability, PROB_SCALE, first_matching_chance};
use crate::state::{State, StateModel};

verus! {

/// At most this many spontaneous events fire per turn; scheduled
/// (queued) events always fire regardless.
pub const MAX_EVENTS_PER_TURN: usize = 5;

/// Scheduling status of an event in the pool.
#[derive(Clone, Copy, PartialEq, Eq, Structural, Debug)]
pub enum Status {
    /// Eligible to fire spontaneously each roll.
    Random,
    /// Scheduled to fire after this many further rolls.
    Queued(usize),
    /// Fired on a previous roll.
    Triggered,
}

/// One slot of the pool: an event with its scheduling status.
#[derive(Clone, PartialEq, Eq, Debug)]
pub struct PoolEntry {
    pub event: Event,
    pub status: Status,
}

/// A choice the player picks from when an event fires.
#[derive(Clone, PartialEq, Eq, Debug)]
pub struct Choice {
    pub effects: Vec<Effect>,
    pub conditions: Vec<Condition>,
}

/// Ghost model of an [`Event`].
#[verifier::ext_equal]
pub ghost struct EventModel {
    pub name: Seq<char>,
    pub id: int,
    pub locked: bool,
    pub local: bool,
    pub region: Option<int>,
    pub repeats: bool,
    pub prob_modifier: int,
    pub probabilities: Seq<Probability>,
    pub choices: Seq<Choice>,
    pub effects: Seq<Effect>,
}

impl EventModel {
    /// The chance this event fires spontaneously in `s`: the first
    /// matching probability plus the event's modifier, clamped to
    /// `[0, PROB_SCALE]`.
    #[verifier::opaque]
    pub open spec fn chance_in(self, s: StateModel) -> int {
        let base = first_matching_chance(self.probabilities, s) as int + self.prob_modifier;
        if base < 0 {
            0
        } else if base > PROB_SCALE as int {
            PROB_SCALE as int
        } else {
            base
        }
    }
}

/// A named, identified trigger definition.
#[derive(Clone, PartialEq, Eq, Debug)]
pub struct Event {
    pub name: String,

    /// Gated until unlocked by an effect.
    pub locked: bool,

    /// Whether this event happens in a region rather than globally.
    pub local: bool,

    /// The region a queued local instance is bound to, set when an
    /// effect schedules the event with a region scope.
    pub region: Option<usize>,

    /// Links this event to its user-facing details.
    pub id: usize,

    /// Whether this event can fire more than once.
    pub repeats: bool,

    /// Additive adjustment to the trigger chance, moved by effects.
    pub prob_modifier: i64,

    /// The candidate probabilities that can trigger this event; the
    /// first whose conditions hold decides.
    pub probabilities: Vec<Probability>,

    /// Choices the player chooses from.
    pub choices: Vec<Choice>,

    /// Effects applied when this event occurs.
    pub effects: Vec<Effect>,
}

impl View for Event {
    type V = EventModel;

    open spec fn view(&self) -> EventModel {
        EventModel {
            name: self.name@,
            id: self.id as int,
            locked: self.locked,
            local: self.local,
            region: match self.region {
                Some(r) => Some(r as int),
                None => None,
            },
            repeats: self.repeats,
            prob_modifier: self.prob_modifier as int,
            probabilities: self.probabilities@,
            choices: self.choices@,
            effects: self.effects@,
        }
    }
}

impl Event {
    /// This event's effective trigger chance in `s`.
    pub fn eval_chance(&self, s: &State) -> (r: u64)
        ensures
            r == self@.chance_in(s@),
            r <= PROB_SCALE,
    {
        proof {
            reveal(EventModel::chance_in);
        }
        let base = crate::probability::eval_probabilities(&self.probabilities, s);
        let adjusted: i128 = base as i128 + self.prob_modifier as i128;
        if adjusted < 0 {
            0
        } else if adjusted > PROB_SCALE as i128 {
            PROB_SCALE
        } else {
            adjusted as u64
        }
    }
}

/// An insertion-ordered pool of events with their scheduling
/// status.
#[derive(Clone, PartialEq, Eq, Debug)]
pub struct EventPool {
    pub events: Vec<PoolEntry>,
}

/// The ghost models of a sequence of pool entries.
pub open spec fn entries_model(s: Seq<PoolEntry>) -> Seq<(EventModel, Status)> {
    s.map_values(|e: PoolEntry| (e.event@, e.status))
}

impl View for EventPool {
    type V = Seq<(EventModel, Status)>;

    open spec fn view(&self) -> Seq<(EventModel, Status)> {
        entries_model(self.events@)
    }
}

/// Whether the pool holds an event with this id.
pub open spec fn pool_has_event(pool: Seq<(EventModel, Status)>, id: int) -> bool {
    exists|i: int| 0 <= i < pool.len() && pool[i].0.id == id
}

/// Whether event ids are unique across the pool.
#[verifier::opaque]
pub open spec fn pool_wf(pool: Seq<(EventModel, Status)>) -> bool {
    forall|i: int, j: int|
        0 <= i < pool.len() && 0 <= j < pool.len() && i != j ==> pool[i].0.id != pool[j].0.id
}

/// The pool with the event addressed by `id` unlocked.
pub open spec fn pool_unlock(pool: Seq<(EventModel, Status)>, id: int) -> Seq<
    (EventModel, Status),
> {
    pool.map_values(
        |e: (EventModel, Status)|
            if e.0.id == id {
                (EventModel { locked: false, ..e.0 }, e.1)
            } else {
                e
            },
    )
}

/// The pool with the event addressed by `id` bound to the given
/// region scope and queued to fire after `turns` further rolls.
pub open spec fn pool_queue(
    pool: Seq<(EventModel, Status)>,
    id: int,
    region: Option<int>,
    turns: int,
) -> Seq<(EventModel, Status)> {
    pool.map_values(
        |e: (EventModel, Status)|
            if e.0.id == id {
                (EventModel { region, ..e.0 }, Status::Queued(turns as usize))
            } else {
                e
            },
    )
}

/// The pool with the trigger-chance modifier of the event addressed
/// by `id` moved by `change`.
pub open spec fn pool_modify_prob(pool: Seq<(EventModel, Status)>, id: int, change: int) -> Seq<
    (EventModel, Status),
> {
    pool.map_values(
        |e: (EventModel, Status)|
            if e.0.id == id {
                (EventModel { prob_modifier: e.0.prob_modifier + change, ..e.0 }, e.1)
            } else {
                e
            },
    )
}

impl EventPool {
    /// An empty pool.
    pub fn new() -> (r: EventPool)
        ensures
            r@ =~= Seq::<(EventModel, Status)>::empty(),
    {
        EventPool { events: Vec::new() }
    }

    /// Add an event with its starting status; well-formedness of
    /// the pool is kept whenever the new id is fresh.
    pub fn add_event(&mut self, event: Event, status: Status)
        ensures
            final(self)@ =~= old(self)@.push((event@, status)),
            pool_wf(old(self)@) && !pool_has_event(old(self)@, event@.id) ==> pool_wf(
                final(self)@,
            ),
    {
        let ghost pre = self@;
        self.events.push(PoolEntry { event, status });
        proof {
            reveal(pool_wf);
            let post = self@;
            assert(post =~= pre.push((event@, status)));
            if pool_wf(pre) && !pool_has_event(pre, event@.id) {
                assert forall|i: int, j: int|
                    0 <= i < post.len() && 0 <= j < post.len() && i != j implies post[i].0.id
                    != post[j].0.id by {
                    if i < pre.len() && j < pre.len() {
                    } else if i == pre.len() {
                        assert(pre[j] == post[j]);
                    } else {
                    }
                }
            }
        }
    }

    /// Unlock the event addressed by `id`; the effect engine calls
    /// this for unlock effects.
    pub fn unlock_event(&mut self, id: usize)
        requires
            pool_has_event(old(self)@, id as int),
        ensures
            final(self)@ =~= pool_unlock(old(self)@, id as int),
    {
        let ghost pre = self@;
        let n = self.events.len();
        let mut i: usize = 0;
        while i < n
            invariant
                0 <= i <= n,
                n == self.events@.len(),
                self@.len() == pre.len(),
                forall|j: int| 0 <= j < i ==> self@[j] == pool_unlock(pre, id as int)[j],
                forall|j: int| i <= j < n ==> self@[j] == pre[j],
            decreases n - i,
        {
            if self.events[i].event.id == id {
                self.events[i].event.locked = false;
            }
            i += 1;
        }
        proof {
            assert(final(self)@ =~= pool_unlock(pre, id as int));
        }
    }

    /// Queue the event addressed by `id` to fire after `turns`
    /// further rolls, bound to the given region scope; the effect
    /// engine calls this when an effect schedules an event.
    pub fn queue_event(&mut self, id: usize, region: Option<usize>, turns: usize)
        requires
            pool_has_event(old(self)@, id as int),
        ensures
            final(self)@ =~= pool_queue(
                old(self)@,
                id as int,
                crate::effects::opt_int(region),
                turns as int,
            ),
    {
        let ghost pre = self@;
        let n = self.events.len();
        let mut i: usize = 0;
        while i < n
            invariant
                0 <= i <= n,
                n == self.events@.len(),
                self@.len() == pre.len(),
                forall|j: int|
                    #![trigger pre[j]]
                    0 <= j < i && pre[j].0.id == id as int ==> self@[j] == (
                    (EventModel { region: crate::effects::opt_int(region), ..pre[j].0 }),
                    Status::Queued(turns),
                    ),
                forall|j: int| 0 <= j < i && pre[j].0.id != id as int ==> self@[j] == pre[j],
                forall|j: int| i <= j < n ==> self@[j] == pre[j],
            decreases n - i,
        {
            proof {
                assert(self@[i as int] == pre[i as int]);
            }
            if self.events[i].event.id == id {
                self.events[i].event.region = region;
                self.events[i].status = Status::Queued(turns);
                proof {
                    assert(self@[i as int] =~= (
                    (EventModel { region: crate::effects::opt_int(region), ..pre[i as int].0 }),
                    Status::Queued(turns),
                    ));
                }
            }
            i += 1;
        }
        proof {
            assert forall|j: int| 0 <= j < pre.len() implies self@[j] == pool_queue(
                pre,
                id as int,
                crate::effects::opt_int(region),
                turns as int,
            )[j] by {
                assert(pool_queue(pre, id as int, crate::effects::opt_int(region), turns as int)[j]
                    == (if pre[j].0.id == id as int {
                    (
                        (EventModel {
                            region: crate::effects::opt_int(region),
                            ..pre[j].0
                        }),
                        Status::Queued(turns as usize),
                    )
                } else {
                    pre[j]
                }));
            }
            assert(final(self)@ =~= pool_queue(
                pre,
                id as int,
                crate::effects::opt_int(region),
                turns as int,
            ));
        }
    }

    /// Move the trigger-chance modifier of the event addressed by
    /// `id` by `change`.
    pub fn modify_event_probability(&mut self, id: usize, change: i64)
        requires
            pool_has_event(old(self)@, id as int),
            forall|j: int|
                0 <= j < old(self)@.len() && old(self)@[j].0.id == id as int
                    ==> i64::MIN <= old(self)@[j].0.prob_modifier + change <= i64::MAX,
        ensures
            final(self)@ =~= pool_modify_prob(old(self)@, id as int, change as int),
    {
        let ghost pre = self@;
        let n = self.events.len();
        let mut i: usize = 0;
        while i < n
            invariant
                0 <= i <= n,
                n == self.events@.len(),
                self@.len() == pre.len(),
                forall|j: int|
                    0 <= j < n && pre[j].0.id == id as int ==> i64::MIN <= pre[j].0.prob_modifier
                        + change <= i64::MAX,
                forall|j: int|
                    #![trigger pre[j]]
                    0 <= j < i && pre[j].0.id == id as int ==> self@[j] == ((EventModel {
                        prob_modifier: pre[j].0.prob_modifier + change,
                        ..pre[j].0
                    }),
                    pre[j].1,
                    ),
                forall|j: int| 0 <= j < i && pre[j].0.id != id as int ==> self@[j] == pre[j],
                forall|j: int| i <= j < n ==> self@[j] == pre[j],
            decreases n - i,
        {
            proof {
                assert(self@[i as int] == pre[i as int]);
            }
            if self.events[i].event.id == id {
                let pm = self.events[i].event.prob_modifier;
                self.events[i].event.prob_modifier = pm + change;
                proof {
                    assert(self@[i as int] =~= ((EventModel {
                        prob_modifier: pre[i as int].0.prob_modifier + change,
                        ..pre[i as int].0
                    }),
                    pre[i as int].1,
                    ));
                }
            }
            i += 1;
        }
        proof {
            assert forall|j: int| 0 <= j < pre.len() implies self@[j] == pool_modify_prob(
                pre,
                id as int,
                change as int,
            )[j] by {
                assert(pool_modify_prob(pre, id as int, change as int)[j] == (
                if pre[j].0.id == id as int {
                    ((EventModel { prob_modifier: pre[j].0.prob_modifier + change, ..pre[j].0 }),
                    pre[j].1,
                    )
                } else {
                    pre[j]
                }));
            }
            assert(final(self)@ =~= pool_modify_prob(pre, id as int, change as int));
        }
    }
}


/// Whether an entry survives the cleanup at the start of a roll:
/// events already fired from the queue, and non-repeating events
/// already triggered, are dropped.
pub open spec fn survives_cleanup(e: (EventModel, Status)) -> bool {
    !(e.1 == Status::Queued(0usize) || (e.1 == Status::Triggered && !e.0.repeats))
}

/// Whether an entry is scheduled to fire on this roll.
pub open spec fn is_queued_due(e: (EventModel, Status)) -> bool {
    e.1 == Status::Queued(1usize)
}

/// Whether an entry is a spontaneous candidate this roll: random,
/// or a repeating event that already triggered.
pub open spec fn is_spont_candidate(e: (EventModel, Status)) -> bool {
    e.1 == Status::Random || (e.1 == Status::Triggered && e.0.repeats)
}

/// Whether an entry can appear in a roll's result at all.
pub open spec fn fireable(e: (EventModel, Status), s: StateModel) -> bool {
    is_queued_due(e) || (is_spont_candidate(e) && e.0.chance_in(s) > 0)
}

/// An entry after one roll: a queued countdown decrements, and a
/// spontaneous candidate ends the roll triggered or reset to
/// random.
pub open spec fn rolled_entry(e: (EventModel, Status), fired: bool) -> (EventModel, Status) {
    match e.1 {
        Status::Queued(n) => (e.0, Status::Queued((n - 1) as usize)),
        _ => (
            e.0,
            if fired {
                Status::Triggered
            } else {
                Status::Random
            },
        ),
    }
}

/// Whether the roll result holds this event id.
pub open spec fn fired_contains(f: Seq<usize>, id: int) -> bool {
    exists|k: int| 0 <= k < f.len() && f[k] as int == id
}

/// Every id in the roll result `f` belongs to a fireable entry of
/// `pool` at or beyond slot `lo`.
#[verifier::opaque]
pub open spec fn fired_within(
    f: Seq<usize>,
    pool: Seq<(EventModel, Status)>,
    lo: int,
    state: StateModel,
) -> bool {
    forall|k: int|
        #![trigger f[k]]
        0 <= k < f.len() ==> exists|j: int|
            lo <= j < pool.len() && pool[j].0.id == f[k] as int && fireable(pool[j], state)
}

/// The entries of `km` are exactly the survivors of `p0`: each
/// `km` slot holds a surviving `p0` entry, and every surviving
/// `p0` entry appears in `km`.
#[verifier::opaque]
pub open spec fn kept_matches(
    p0: Seq<(EventModel, Status)>,
    km: Seq<(EventModel, Status)>,
) -> bool {
    &&& (forall|j: int|
        #![trigger km[j]]
        0 <= j < km.len() ==> survives_cleanup(km[j]) && (exists|i: int|
            0 <= i < p0.len() && p0[i] == km[j]))
    &&& (forall|i: int|
        #![trigger p0[i]]
        0 <= i < p0.len() && survives_cleanup(p0[i]) ==> km.contains(p0[i]))
}

/// What the roll's scan establishes for a processed entry: its
/// slot was rewritten by `rolled_entry`, a queued countdown fired
/// exactly when it hit zero, and a spontaneous firing had a
/// positive chance.
#[verifier::opaque]
pub open spec fn scan_done(
    pre: (EventModel, Status),
    post: (EventModel, Status),
    f: Seq<usize>,
    st: StateModel,
) -> bool {
    &&& post == rolled_entry(pre, fired_contains(f, pre.0.id))
    &&& (pre.1 matches Status::Queued(nq) ==> (fired_contains(f, pre.0.id) <==> nq == 1))
    &&& (is_spont_candidate(pre) && fired_contains(f, pre.0.id) ==> pre.0.chance_in(st) > 0)
}

/// Every slot of `sq` was processed into the opposite slot of
/// `fin` by the scan.
#[verifier::opaque]
pub open spec fn scan_records(
    sq: Seq<(EventModel, Status)>,
    fin: Seq<(EventModel, Status)>,
    f: Seq<usize>,
    state: StateModel,
) -> bool {
    forall|j: int|
        #![trigger sq[j]]
        0 <= j < sq.len() ==> scan_done(sq[j], fin[sq.len() - 1 - j], f, state)
}

/// Whether no entry of the pool is scheduled to fire on this roll.
#[verifier::opaque]
pub open spec fn all_unqueued(pool: Seq<(EventModel, Status)>) -> bool {
    forall|j: int| #![trigger pool[j]] 0 <= j < pool.len() ==> !is_queued_due(pool[j])
}

/// Every spontaneous candidate of `sq` whose chance is the whole
/// scale is in the roll's result.
#[verifier::opaque]
pub open spec fn guaranteed_fired(
    sq: Seq<(EventModel, Status)>,
    f: Seq<usize>,
    state: StateModel,
) -> bool {
    forall|j: int|
        #![trigger sq[j]]
        0 <= j < sq.len() && is_spont_candidate(sq[j]) && sq[j].0.chance_in(state)
            == PROB_SCALE as int ==> fired_contains(f, sq[j].0.id)
}

/// Keeping one more surviving entry preserves the cleanup
/// bookkeeping: ids stay unique and membership matches the
/// surviving suffix.
#[verifier::rlimit(100)]
#[verifier::spinoff_prover]
proof fn lemma_keep_push(
    p0: Seq<(EventModel, Status)>,
    km: Seq<(EventModel, Status)>,
    em: (EventModel, Status),
    rem: int,
)
    requires
        pool_wf(p0),
        1 <= rem <= p0.len(),
        em == p0[rem - 1],
        survives_cleanup(em),
        pool_wf(km),
        forall|j: int|
            #![trigger km[j]]
            0 <= j < km.len() ==> survives_cleanup(km[j]) && exists|i: int|
                rem <= i < p0.len() && p0[i] == km[j],
        forall|i: int|
            #![trigger p0[i]]
            rem <= i < p0.len() && survives_cleanup(p0[i]) ==> km.contains(p0[i]),
    ensures
        pool_wf(km.push(em)),
        forall|j: int|
            #![trigger km.push(em)[j]]
            0 <= j < km.push(em).len() ==> survives_cleanup(km.push(em)[j]) && exists|i: int|
                rem - 1 <= i < p0.len() && p0[i] == km.push(em)[j],
        forall|i: int|
            #![trigger p0[i]]
            rem - 1 <= i < p0.len() && survives_cleanup(p0[i]) ==> km.push(em).contains(p0[i]),
{
    reveal(pool_wf);
    let kp = km.push(em);
    assert forall|j: int, j2: int|
        0 <= j < kp.len() && 0 <= j2 < kp.len() && j != j2 implies kp[j].0.id != kp[j2].0.id by {
        let a = if j < km.len() as int {
            j
        } else {
            j2
        };
        let b = if j < km.len() as int {
            j2
        } else {
            j
        };
        if b == km.len() as int && a < km.len() as int {
            assert(kp[a] == km[a]);
            let ia = choose|ia: int| rem <= ia < p0.len() && p0[ia] == km[a];
            assert(p0[ia].0.id != p0[rem - 1].0.id);
        } else {
            assert(kp[j] == km[j]);
            assert(kp[j2] == km[j2]);
        }
    }
    assert forall|j: int|
        #![trigger kp[j]]
        0 <= j < kp.len() implies survives_cleanup(kp[j]) && exists|i: int|
        rem - 1 <= i < p0.len() && p0[i] == kp[j] by {
        if j < km.len() as int {
            assert(kp[j] == km[j]);
            let i = choose|i: int| rem <= i < p0.len() && p0[i] == km[j];
            assert(rem - 1 <= i < p0.len() && p0[i] == kp[j]);
        } else {
            assert(kp[j] == em);
            assert(p0[rem - 1] == kp[j]);
        }
    }
    assert forall|i: int|
        #![trigger p0[i]]
        rem - 1 <= i < p0.len() && survives_cleanup(p0[i]) implies kp.contains(p0[i]) by {
        if i == rem - 1 {
            assert(kp[km.len() as int] == em);
        } else {
            assert(km.contains(p0[i]));
            let jj = choose|jj: int| 0 <= jj < km.len() && km[jj] == p0[i];
            assert(kp[jj] == p0[i]);
        }
    }
}

/// The shared premises of the roll's closing argument: the
/// shuffled survivors trace back to the pool, and every slot was
/// processed by the scan.
spec fn roll_finish_pre(
    p0: Seq<(EventModel, Status)>,
    sq: Seq<(EventModel, Status)>,
    fin: Seq<(EventModel, Status)>,
    f: Seq<usize>,
    state: StateModel,
) -> bool {
    &&& pool_wf(p0)
    &&& pool_wf(sq)
    &&& fin.len() == sq.len()
    &&& kept_matches(p0, sq)
    &&& scan_records(sq, fin, f, state)
    &&& fired_within(f, sq, 0, state)
}

/// Every surviving entry of the pool landed in some slot of the
/// scanned pool with its rolled status, firing from the queue
/// exactly at zero and spontaneously only with a positive chance.
#[verifier::rlimit(100)]
#[verifier::spinoff_prover]
proof fn lemma_finish_surviving(
    p0: Seq<(EventModel, Status)>,
    sq: Seq<(EventModel, Status)>,
    fin: Seq<(EventModel, Status)>,
    f: Seq<usize>,
    state: StateModel,
)
    requires
        roll_finish_pre(p0, sq, fin, f, state),
    ensures
        forall|i: int|
            #![trigger p0[i]]
            0 <= i < p0.len() && survives_cleanup(p0[i]) ==> (exists|j: int|
                0 <= j < fin.len() && fin[j] == rolled_entry(
                    p0[i],
                    fired_contains(f, p0[i].0.id),
                )) && (p0[i].1 matches Status::Queued(nq) ==> (fired_contains(f, p0[i].0.id)
                <==> nq == 1)) && (is_spont_candidate(p0[i]) && fired_contains(f, p0[i].0.id)
                ==> p0[i].0.chance_in(state) > 0),
{
    reveal(scan_done);
    reveal(scan_records);
    reveal(kept_matches);
    assert forall|i: int|
        #![trigger p0[i]]
        0 <= i < p0.len() && survives_cleanup(p0[i]) implies (exists|j: int|
        0 <= j < fin.len() && fin[j] == rolled_entry(p0[i], fired_contains(f, p0[i].0.id))) && (
    p0[i].1 matches Status::Queued(nq) ==> (fired_contains(f, p0[i].0.id) <==> nq == 1)) && (
    is_spont_candidate(p0[i]) && fired_contains(f, p0[i].0.id) ==> p0[i].0.chance_in(state)
        > 0) by {
        let e = p0[i];
        assert(sq.contains(e));
        let j = choose|j: int| 0 <= j < sq.len() && sq[j] == e;
        assert(scan_done(sq[j], fin[sq.len() - 1 - j], f, state));
        assert(fin[sq.len() - 1 - j] == rolled_entry(e, fired_contains(f, e.0.id)));
    }
}

/// A removed entry is gone for good: its id is neither in the
/// scanned pool nor in the roll's result.
#[verifier::rlimit(100)]
#[verifier::spinoff_prover]
proof fn lemma_finish_removed(
    p0: Seq<(EventModel, Status)>,
    sq: Seq<(EventModel, Status)>,
    fin: Seq<(EventModel, Status)>,
    f: Seq<usize>,
    state: StateModel,
)
    requires
        roll_finish_pre(p0, sq, fin, f, state),
    ensures
        forall|i: int|
            #![trigger p0[i]]
            0 <= i < p0.len() && !survives_cleanup(p0[i]) ==> !pool_has_event(fin, p0[i].0.id)
                && !fired_contains(f, p0[i].0.id),
{
    reveal(pool_wf);
    reveal(kept_matches);
    assert forall|i: int|
        #![trigger p0[i]]
        0 <= i < p0.len() && !survives_cleanup(p0[i]) implies !pool_has_event(fin, p0[i].0.id)
        && !fired_contains(f, p0[i].0.id) by {
        reveal(scan_done);
        reveal(scan_records);
        reveal(fired_within);
        let e = p0[i];
        assert forall|j: int| 0 <= j < fin.len() implies fin[j].0.id != e.0.id by {
            assert(scan_done(sq[fin.len() - 1 - j], fin[j], f, state));
            assert(fin[j].0 == sq[fin.len() - 1 - j].0);
            let i2 = choose|i2: int| 0 <= i2 < p0.len() && p0[i2] == sq[fin.len() - 1 - j];
            if p0[i2].0.id == e.0.id {
                assert(i2 == i);
            }
        }
        if fired_contains(f, e.0.id) {
            let k = choose|k: int| 0 <= k < f.len() && f[k] as int == e.0.id;
            let j = choose|j: int|
                0 <= j < sq.len() && sq[j].0.id == f[k] as int && fireable(sq[j], state);
            let i2 = choose|i2: int| 0 <= i2 < p0.len() && p0[i2] == sq[j];
            assert(i2 == i);
            assert(false);
        }
    }
}

/// Every slot of the scanned pool carries an event that was in the
/// pool before the roll and survived cleanup; ids stay unique.
#[verifier::rlimit(100)]
#[verifier::spinoff_prover]
proof fn lemma_finish_pool(
    p0: Seq<(EventModel, Status)>,
    sq: Seq<(EventModel, Status)>,
    fin: Seq<(EventModel, Status)>,
    f: Seq<usize>,
    state: StateModel,
)
    requires
        roll_finish_pre(p0, sq, fin, f, state),
    ensures
        pool_wf(fin),
        forall|j: int|
            #![trigger fin[j]]
            0 <= j < fin.len() ==> exists|i: int|
                0 <= i < p0.len() && p0[i] == (fin[j].0, p0[i].1) && survives_cleanup(p0[i]),
{
    reveal(scan_done);
    reveal(scan_records);
    reveal(kept_matches);
    reveal(pool_wf);
    assert forall|j: int|
        #![trigger fin[j]]
        0 <= j < fin.len() implies exists|i: int|
        0 <= i < p0.len() && p0[i] == (fin[j].0, p0[i].1) && survives_cleanup(p0[i]) by {
        assert(scan_done(sq[fin.len() - 1 - j], fin[j], f, state));
        let i2 = choose|i2: int| 0 <= i2 < p0.len() && p0[i2] == sq[fin.len() - 1 - j];
        assert(p0[i2] == (fin[j].0, p0[i2].1));
    }
    assert forall|a: int, b: int|
        0 <= a < fin.len() && 0 <= b < fin.len() && a != b implies fin[a].0.id != fin[b].0.id by {
        assert(scan_done(sq[fin.len() - 1 - a], fin[a], f, state));
        assert(scan_done(sq[fin.len() - 1 - b], fin[b], f, state));
    }
}

/// A pool with nothing scheduled keeps nothing scheduled among its
/// survivors.
#[verifier::spinoff_prover]
proof fn lemma_unqueued_transfer(p0: Seq<(EventModel, Status)>, sq: Seq<(EventModel, Status)>)
    requires
        kept_matches(p0, sq),
        forall|i: int| #![trigger p0[i]] 0 <= i < p0.len() ==> !is_queued_due(p0[i]),
    ensures
        all_unqueued(sq),
{
    reveal(all_unqueued);
    reveal(kept_matches);
    assert(kept_matches(p0, sq));
    assert forall|j: int| #![trigger sq[j]] 0 <= j < sq.len() implies !is_queued_due(sq[j]) by {
        let i2 = choose|i2: int| 0 <= i2 < p0.len() && p0[i2] == sq[j];
    }
    assert(all_unqueued(sq));
}

/// Shuffling the cleaned pool keeps its bookkeeping: the same
/// entries are present, so survival and provenance carry over.
#[verifier::rlimit(100)]
#[verifier::spinoff_prover]
proof fn lemma_shuffle_transfer(
    p0: Seq<(EventModel, Status)>,
    km: Seq<(EventModel, Status)>,
    sq: Seq<(EventModel, Status)>,
)
    requires
        pool_wf(p0),
        kept_matches(p0, km),
        sq.to_multiset() == km.to_multiset(),
    ensures
        kept_matches(p0, sq),
{
    broadcast use vstd::seq_lib::group_to_multiset_ensures;

    reveal(kept_matches);

    assert forall|j: int|
        #![trigger sq[j]]
        0 <= j < sq.len() implies survives_cleanup(sq[j]) && (exists|i: int|
        0 <= i < p0.len() && p0[i] == sq[j]) by {
        assert(sq.to_multiset().count(sq[j]) > 0);
        assert(km.to_multiset().count(sq[j]) > 0);
        assert(km.contains(sq[j]));
        let jj = choose|jj: int| 0 <= jj < km.len() && km[jj] == sq[j];
        assert(km[jj] == sq[j]);
    }
    assert forall|i: int|
        #![trigger p0[i]]
        0 <= i < p0.len() && survives_cleanup(p0[i]) implies sq.contains(p0[i]) by {
        assert(km.contains(p0[i]));
        assert(km.to_multiset().count(p0[i]) > 0);
        assert(sq.to_multiset().count(p0[i]) > 0);
    }
}

/// Assemble the roll's contract from the scan's slot facts and the
/// shuffle's provenance.
#[verifier::rlimit(100)]
#[verifier::spinoff_prover]
proof fn lemma_roll_ensures(
    p0: Seq<(EventModel, Status)>,
    sq: Seq<(EventModel, Status)>,
    fin: Seq<(EventModel, Status)>,
    f: Seq<usize>,
    state: StateModel,
)
    requires
        roll_finish_pre(p0, sq, fin, f, state),
        sq.len() <= p0.len(),
        f.len() <= sq.len(),
        sq.len() <= MAX_EVENTS_PER_TURN ==> guaranteed_fired(sq, f, state),
    ensures
        pool_wf(fin),
        forall|i: int|
            #![trigger p0[i]]
            0 <= i < p0.len() ==> {
                let e = p0[i];
                &&& (!survives_cleanup(e) ==> !pool_has_event(fin, e.0.id) && !fired_contains(
                    f,
                    e.0.id,
                ))
                &&& (survives_cleanup(e) ==> exists|j: int|
                    0 <= j < fin.len() && fin[j] == rolled_entry(e, fired_contains(f, e.0.id)))
                &&& (e.1 matches Status::Queued(nq) ==> (fired_contains(f, e.0.id) <==> nq == 1))
                &&& (is_spont_candidate(e) && fired_contains(f, e.0.id) ==> e.0.chance_in(state)
                    > 0)
            },
        forall|j: int|
            #![trigger fin[j]]
            0 <= j < fin.len() ==> exists|i: int|
                0 <= i < p0.len() && p0[i] == (fin[j].0, p0[i].1) && survives_cleanup(p0[i]),
        p0.len() <= MAX_EVENTS_PER_TURN ==> forall|i: int|
            #![trigger p0[i]]
            0 <= i < p0.len() && is_spont_candidate(p0[i]) && p0[i].0.chance_in(state)
                == PROB_SCALE as int ==> fired_contains(f, p0[i].0.id),
{
    lemma_finish_surviving(p0, sq, fin, f, state);
    lemma_finish_removed(p0, sq, fin, f, state);
    lemma_finish_pool(p0, sq, fin, f, state);
    assert forall|i: int|
        #![trigger p0[i]]
        0 <= i < p0.len() implies {
        let e = p0[i];
        &&& (!survives_cleanup(e) ==> !pool_has_event(fin, e.0.id) && !fired_contains(f, e.0.id))
        &&& (survives_cleanup(e) ==> exists|j: int|
            0 <= j < fin.len() && fin[j] == rolled_entry(e, fired_contains(f, e.0.id)))
        &&& (e.1 matches Status::Queued(nq) ==> (fired_contains(f, e.0.id) <==> nq == 1))
        &&& (is_spont_candidate(e) && fired_contains(f, e.0.id) ==> e.0.chance_in(state) > 0)
    } by {
        if !survives_cleanup(p0[i]) {
            assert(!fired_contains(f, p0[i].0.id));
        }
    }
    if p0.len() <= MAX_EVENTS_PER_TURN {
        reveal(kept_matches);
        reveal(guaranteed_fired);
        assert forall|ii: int|
            #![trigger p0[ii]]
            0 <= ii < p0.len() && is_spont_candidate(p0[ii]) && p0[ii].0.chance_in(state)
                == PROB_SCALE as int implies fired_contains(f, p0[ii].0.id) by {
            assert(survives_cleanup(p0[ii]));
            assert(sq.contains(p0[ii]));
            let j = choose|j: int| 0 <= j < sq.len() && sq[j] == p0[ii];
        }
    }
}


/// Whether this entry survives the cleanup at the start of a roll.
fn survives(e: &PoolEntry) -> (r: bool)
    ensures
        r == survives_cleanup((e.event@, e.status)),
{
    match e.status {
        Status::Queued(n) => n != 0,
        Status::Triggered => e.event.repeats,
        Status::Random => true,
    }
}

/// Process one surviving entry of the roll scan: decrement a
/// queued countdown and fire it exactly at zero; reset a repeating
/// triggered event; and let a spontaneous candidate fire on its
/// evaluated chance while the cap leaves room.
fn scan_entry(e: PoolEntry, cap_reached: bool, state: &State, rng: &mut rand::rngs::StdRng) -> (r:
    (PoolEntry, bool))
    requires
        survives_cleanup((e.event@, e.status)),
    ensures
        ({
            let pre = (e.event@, e.status);
            let post = (r.0.event@, r.0.status);
            let fired_now = r.1;
            &&& post == rolled_entry(pre, fired_now)
            &&& (pre.1 matches Status::Queued(nq) ==> (fired_now <==> nq == 1))
            &&& (is_spont_candidate(pre) ==> (fired_now ==> pre.0.chance_in(state@) > 0))
            &&& (is_spont_candidate(pre) && !cap_reached && pre.0.chance_in(state@)
                == PROB_SCALE as int ==> fired_now)
            &&& (fired_now ==> fireable(pre, state@))
            &&& (is_spont_candidate(pre) && cap_reached ==> !fired_now)
        }),
{
    match e.status {
        Status::Queued(nq) => {
            let fired_now = nq == 1;
            (PoolEntry { event: e.event, status: Status::Queued(nq - 1) }, fired_now)
        },
        Status::Random | Status::Triggered => {
            let mut st = if e.event.repeats {
                Status::Random
            } else {
                e.status
            };
            let mut fired_now = false;
            if !cap_reached {
                let prob = e.event.eval_chance(state);
                let draw = crate::rng::draw_chance(rng);
                if draw < prob {
                    st = Status::Triggered;
                    fired_now = true;
                }
            }
            (PoolEntry { event: e.event, status: st }, fired_now)
        },
    }
}

/// Drop the entries that do not survive a roll's cleanup: events
/// already fired from the queue and non-repeating events already
/// triggered.
#[verifier::spinoff_prover]
fn cleanup_pool(events: &mut Vec<PoolEntry>)
    requires
        pool_wf(entries_model(old(events)@)),
    ensures
        pool_wf(entries_model(final(events)@)),
        final(events)@.len() <= old(events)@.len(),
        kept_matches(entries_model(old(events)@), entries_model(final(events)@)),
{
    let ghost p0 = entries_model(events@);
    let ghost n0 = p0.len();
    let mut kept: Vec<PoolEntry> = Vec::new();
    proof {
        reveal(pool_wf);
        assert(p0.take(n0 as int) =~= p0);
        assert(pool_wf(entries_model(kept@)));
    }
    while events.len() > 0
        invariant
            p0 == entries_model(old(events)@),
            n0 == p0.len(),
            pool_wf(p0),
            events@.len() <= n0,
            entries_model(events@) == p0.take(events@.len() as int),
            pool_wf(entries_model(kept@)),
            forall|j: int|
                #![trigger entries_model(kept@)[j]]
                0 <= j < kept@.len() ==> survives_cleanup(entries_model(kept@)[j]) && exists|
                    i: int,
                |
                    events@.len() <= i < n0 && p0[i] == entries_model(kept@)[j],
            forall|i: int|
                #![trigger p0[i]]
                events@.len() <= i < n0 && survives_cleanup(p0[i]) ==> entries_model(
                    kept@,
                ).contains(p0[i]),
            kept@.len() + events@.len() <= n0,
        decreases events@.len(),
    {
        let ghost rem = events@.len() as int;
        let ghost km = entries_model(kept@);
        let e = events.pop().unwrap();
        let ghost em = (e.event@, e.status);
        proof {
            assert(p0.take(rem).drop_last() =~= p0.take(rem - 1));
            assert(entries_model(events@) =~= p0.take(rem - 1));
            assert(em == p0.take(rem).last());
            assert(em == p0[rem - 1]);
        }
        if survives(&e) {
            kept.push(e);
            proof {
                assert(entries_model(kept@) =~= km.push(em));
                lemma_keep_push(p0, km, em, rem);
            }
        } else {
            proof {
                assert forall|i: int|
                    #![trigger p0[i]]
                    rem - 1 <= i < n0 && survives_cleanup(p0[i]) implies km.contains(p0[i]) by {}
            }
        }
    }
    proof {
        assert(events@.len() == 0);
        assert forall|j: int|
            #![trigger entries_model(kept@)[j]]
            0 <= j < kept@.len() implies survives_cleanup(entries_model(kept@)[j]) && exists|
            i: int,
        | 0 <= i < n0 && p0[i] == entries_model(kept@)[j] by {
            let i = choose|i: int| events@.len() <= i < n0 && p0[i] == entries_model(kept@)[j];
            assert(0 <= i < n0 && p0[i] == entries_model(kept@)[j]);
        }
        reveal(kept_matches);
        assert(kept_matches(p0, entries_model(kept@)));
    }
    *events = kept;
}

/// One scan step keeps the processed slots' records intact: the
/// fired list only ever gains the id of the entry at hand, whose
/// id no earlier slot shares.
#[verifier::rlimit(100)]
#[verifier::spinoff_prover]
proof fn lemma_scan_push(
    sq: Seq<(EventModel, Status)>,
    state: StateModel,
    f_pre: Seq<usize>,
    f_post: Seq<usize>,
    dm: Seq<(EventModel, Status)>,
    dm_post: Seq<(EventModel, Status)>,
    rem: int,
    n0: int,
)
    requires
        pool_wf(sq),
        n0 == sq.len(),
        1 <= rem <= n0,
        dm.len() == n0 - rem,
        dm_post.len() == dm.len() + 1,
        forall|j: int| 0 <= j < dm.len() ==> dm_post[j] == dm[j],
        forall|j: int|
            #![trigger dm[j]]
            0 <= j < dm.len() ==> scan_done(sq[n0 - 1 - j], dm[j], f_pre, state),
        scan_done(sq[rem - 1], dm_post[dm.len() as int], f_post, state),
        fired_within(f_pre, sq, rem, state),
        f_post == f_pre || (f_post.len() == f_pre.len() + 1 && f_post[f_pre.len() as int] as int
            == sq[rem - 1].0.id && fireable(sq[rem - 1], state) && f_post.take(
            f_pre.len() as int,
        ) == f_pre),
    ensures
        forall|j: int|
            #![trigger dm_post[j]]
            0 <= j < dm_post.len() ==> scan_done(sq[n0 - 1 - j], dm_post[j], f_post, state),
        fired_within(f_post, sq, rem - 1, state),
{
    reveal(pool_wf);
    reveal(scan_done);
    reveal(fired_within);
    assert forall|k: int|
        #![trigger f_post[k]]
        0 <= k < f_post.len() implies exists|j: int|
        rem - 1 <= j < n0 && sq[j].0.id == f_post[k] as int && fireable(sq[j], state) by {
        assert(fired_within(f_pre, sq, rem, state));
        if k < f_pre.len() {
            if f_post != f_pre {
                assert(f_post.take(f_pre.len() as int)[k] == f_post[k]);
            }
            assert(f_post[k] == f_pre[k]);
            let j = choose|j: int|
                rem <= j < n0 && sq[j].0.id == f_pre[k] as int && fireable(sq[j], state);
            assert(rem - 1 <= j < n0 && sq[j].0.id == f_post[k] as int && fireable(sq[j], state));
        } else {
            assert(f_post[k] as int == sq[rem - 1].0.id);
            assert(rem - 1 <= rem - 1 < n0 && sq[rem - 1].0.id == f_post[k] as int && fireable(
                sq[rem - 1],
                state,
            ));
        }
    }
    assert forall|j: int|
        #![trigger dm_post[j]]
        0 <= j < dm_post.len() implies scan_done(sq[n0 - 1 - j], dm_post[j], f_post, state) by {
        if j < dm.len() {
            assert(dm_post[j] == dm[j]);
            assert(scan_done(sq[n0 - 1 - j], dm[j], f_pre, state));
            let jj = n0 - 1 - j;
            assert(rem <= jj < n0);
            assert(fired_contains(f_post, sq[jj].0.id) == fired_contains(f_pre, sq[jj].0.id)) by {
                if f_post != f_pre {
                    assert(sq[jj].0.id != sq[rem - 1].0.id);
                    if fired_contains(f_post, sq[jj].0.id) {
                        let k = choose|k: int|
                            0 <= k < f_post.len() && f_post[k] as int == sq[jj].0.id;
                        assert(k < f_pre.len());
                        assert(f_post.take(f_pre.len() as int)[k] == f_post[k]);
                        assert(f_pre[k] == f_post[k]);
                    }
                    if fired_contains(f_pre, sq[jj].0.id) {
                        let k = choose|k: int|
                            0 <= k < f_pre.len() && f_pre[k] as int == sq[jj].0.id;
                        assert(f_post.take(f_pre.len() as int)[k] == f_post[k]);
                        assert(f_post[k] == f_pre[k]);
                    }
                }
            }
        }
    }
}

/// Scan the shuffled survivors once: decrement queued countdowns,
/// fire them at zero regardless of the cap, reset repeating
/// triggered events, and fire spontaneous candidates on their
/// chance while the cap leaves room.
#[verifier::rlimit(100)]
#[verifier::spinoff_prover]
fn scan_pool(events: &mut Vec<PoolEntry>, state: &State, rng: &mut rand::rngs::StdRng) -> (fired:
    Vec<usize>)
    requires
        pool_wf(entries_model(old(events)@)),
        forall|j: int|
            #![trigger entries_model(old(events)@)[j]]
            0 <= j < old(events)@.len() ==> survives_cleanup(entries_model(old(events)@)[j]),
    ensures
        ({
            let sq = entries_model(old(events)@);
            let fin = entries_model(final(events)@);
            &&& fin.len() == sq.len()
            &&& fired@.len() <= sq.len()
            &&& scan_records(sq, fin, fired@, state@)
            &&& fired_within(fired@, sq, 0, state@)
            &&& (all_unqueued(sq) ==> fired@.len() <= MAX_EVENTS_PER_TURN)
            &&& (sq.len() <= MAX_EVENTS_PER_TURN ==> guaranteed_fired(sq, fired@, state@))
        }),
{
    let ghost sq = entries_model(events@);
    let ghost n0 = sq.len();
    let mut fired: Vec<usize> = Vec::new();
    let mut done: Vec<PoolEntry> = Vec::new();
    proof {
        assert(sq.take(n0 as int) =~= sq);
        reveal(fired_within);
        assert(fired_within(fired@, sq, n0 as int, state@));
    }
    while events.len() > 0
        invariant
            sq == entries_model(old(events)@),
            n0 == sq.len(),
            pool_wf(sq),
            events@.len() + done@.len() == n0,
            entries_model(events@) == sq.take(events@.len() as int),
            forall|j: int|
                #![trigger sq[j]]
                0 <= j < n0 ==> survives_cleanup(sq[j]),
            forall|j: int|
                #![trigger entries_model(done@)[j]]
                0 <= j < done@.len() ==> scan_done(
                    sq[n0 - 1 - j],
                    entries_model(done@)[j],
                    fired@,
                    state@,
                ),
            fired_within(fired@, sq, events@.len() as int, state@),
            fired@.len() <= done@.len(),
            all_unqueued(sq) ==> fired@.len() <= MAX_EVENTS_PER_TURN,
            sq.len() <= MAX_EVENTS_PER_TURN ==> forall|j: int|
                #![trigger sq[j]]
                events@.len() <= j < n0 && is_spont_candidate(sq[j]) && sq[j].0.chance_in(state@)
                    == PROB_SCALE as int ==> fired_contains(fired@, sq[j].0.id),
        decreases events@.len(),
    {
        let ghost rem = events@.len() as int;
        let ghost f_pre = fired@;
        let ghost dm = entries_model(done@);
        let e = events.pop().unwrap();
        let ghost em = (e.event@, e.status);
        proof {
            assert(sq.take(rem).drop_last() =~= sq.take(rem - 1));
            assert(entries_model(events@) =~= sq.take(rem - 1));
            assert(em == sq.take(rem).last());
            assert(em == sq[rem - 1]);
            assert(survives_cleanup(em));
        }
        let cap_reached = fired.len() >= MAX_EVENTS_PER_TURN;
        proof {
            if sq.len() <= MAX_EVENTS_PER_TURN {
                assert(fired@.len() <= done@.len() < n0 <= MAX_EVENTS_PER_TURN);
                assert(!cap_reached);
            }
        }
        let pr = scan_entry(e, cap_reached, state, rng);
        let e2 = pr.0;
        let fired_now = pr.1;
        if fired_now {
            let id = e2.event.id;
            fired.push(id);
            proof {
                assert((e2.event@, e2.status).0 == em.0);
                assert(fired@[f_pre.len() as int] as int == em.0.id);
                assert(fired_contains(fired@, em.0.id));
                assert(fired@.take(f_pre.len() as int) =~= f_pre);
            }
        } else {
            proof {
                reveal(pool_wf);
                reveal(fired_within);
                if fired_contains(fired@, em.0.id) {
                    let k = choose|k: int| 0 <= k < fired@.len() && fired@[k] as int == em.0.id;
                    let j = choose|j: int|
                        rem <= j < n0 && sq[j].0.id == fired@[k] as int && fireable(
                            sq[j],
                            state@,
                        );
                    assert(sq[j].0.id != sq[rem - 1].0.id);
                    assert(false);
                }
            }
        }
        done.push(e2);
        proof {
            reveal(scan_done);
            assert(entries_model(done@) =~= dm.push((e2.event@, e2.status)));
            assert(fired_contains(fired@, em.0.id) == fired_now);
            assert(entries_model(done@)[dm.len() as int] == rolled_entry(em, fired_now));
            assert(scan_done(sq[rem - 1], entries_model(done@)[dm.len() as int], fired@, state@));
            lemma_scan_push(sq, state@, f_pre, fired@, dm, entries_model(done@), rem, n0 as int);
            if all_unqueued(sq) {
                reveal(all_unqueued);
                assert(!is_queued_due(em));
            }
        }
    }
    proof {
        assert(entries_model(done@).len() == n0);
        assert forall|j: int|
            #![trigger sq[j]]
            0 <= j < n0 implies scan_done(
            sq[j],
            entries_model(done@)[n0 - 1 - j],
            fired@,
            state@,
        ) by {
            assert(scan_done(
                sq[n0 - 1 - (n0 - 1 - j)],
                entries_model(done@)[n0 - 1 - j],
                fired@,
                state@,
            ));
        }
        reveal(scan_records);
        assert(scan_records(sq, entries_model(done@), fired@, state@));
        if sq.len() <= MAX_EVENTS_PER_TURN {
            reveal(guaranteed_fired);
            assert(guaranteed_fired(sq, fired@, state@));
        }
    }
    *events = done;
    fired
}

impl EventPool {
    /// Roll which events fire this turn, and return their ids.
    ///
    /// First the pool is cleaned of events that already fired from
    /// the queue and of non-repeating events already triggered.
    /// The rest are shuffled so no position is favoured, then
    /// scanned: a queued countdown decrements and fires exactly
    /// when it reaches zero, regardless of the per-turn cap;
    /// repeating triggered events reset to random; and each
    /// remaining candidate fires with its evaluated chance while
    /// the cap leaves room, so the cap throttles only spontaneous
    /// firings. Scheduled events always land on their turn even
    /// when the turn is already full of random content.
    #[verifier::rlimit(100)]
    #[verifier::spinoff_prover]
    pub fn roll(&mut self, state: &State, rng: &mut rand::rngs::StdRng) -> (fired: Vec<usize>)
        requires
            pool_wf(old(self)@),
        ensures
            pool_wf(final(self)@),
            final(self)@.len() <= old(self)@.len(),
            forall|i: int|
                #![trigger old(self)@[i]]
                0 <= i < old(self)@.len() ==> {
                    let e = old(self)@[i];
                    &&& (!survives_cleanup(e) ==> !pool_has_event(final(self)@, e.0.id)
                        && !fired_contains(fired@, e.0.id))
                    &&& (survives_cleanup(e) ==> exists|j: int|
                        0 <= j < final(self)@.len() && final(self)@[j] == rolled_entry(
                            e,
                            fired_contains(fired@, e.0.id),
                        ))
                    &&& (e.1 matches Status::Queued(n) ==> (fired_contains(
                        fired@,
                        e.0.id,
                    ) <==> n == 1))
                    &&& (is_spont_candidate(e) && fired_contains(fired@, e.0.id)
                        ==> e.0.chance_in(state@) > 0)
                },
            forall|j: int|
                #![trigger final(self)@[j]]
                0 <= j < final(self)@.len() ==> exists|i: int|
                    0 <= i < old(self)@.len() && old(self)@[i] == (
                    final(self)@[j].0,
                    old(self)@[i].1,
                    ) && survives_cleanup(old(self)@[i]),
            (forall|i: int|
                #![trigger old(self)@[i]]
                0 <= i < old(self)@.len() ==> !is_queued_due(old(self)@[i])) ==> fired@.len()
                <= MAX_EVENTS_PER_TURN,
            old(self)@.len() <= MAX_EVENTS_PER_TURN ==> forall|i: int|
                #![trigger old(self)@[i]]
                0 <= i < old(self)@.len() && is_spont_candidate(old(self)@[i])
                    && old(self)@[i].0.chance_in(state@) == PROB_SCALE as int ==> fired_contains(
                    fired@,
                    old(self)@[i].0.id,
                ),
    {
        cleanup_pool(&mut self.events);
        let ghost km = self@;
        crate::rng::shuffle_entries(&mut self.events, rng);
        let ghost sq = self@;
        proof {
            lemma_shuffle_transfer(old(self)@, km, sq);
            reveal(kept_matches);
            assert forall|j: int|
                #![trigger entries_model(self.events@)[j]]
                0 <= j < self.events@.len() implies survives_cleanup(
                entries_model(self.events@)[j],
            ) by {
                assert(sq[j] == entries_model(self.events@)[j]);
            }
        }
        let fired = scan_pool(&mut self.events, state, rng);
        proof {
            lemma_roll_ensures(old(self)@, sq, self@, fired@, state@);
            if forall|i: int|
                #![trigger old(self)@[i]]
                0 <= i < old(self)@.len() ==> !is_queued_due(old(self)@[i]) {
                lemma_unqueued_transfer(old(self)@, sq);
                assert(fired@.len() <= MAX_EVENTS_PER_TURN);
            }
        }
        fired
    }
}

} // verus!
