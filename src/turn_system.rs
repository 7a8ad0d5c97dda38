use vstd::prelude::*;

use crate::component::{ActiveTurn, Entity, TurnState};
use crate::world::EntityRecord;

verus! {

/// The scheduler's queue for the current pass: `(priority, entity)` pairs in
/// ascending priority, consumed from the end.
pub struct PendingMoves {
    list: Vec<(u8, Entity)>,
}

impl View for PendingMoves {
    type V = Seq<(u8, Entity)>;

    closed spec fn view(&self) -> Seq<(u8, Entity)> {
        self.list@
    }
}

impl PendingMoves {
    pub fn new() -> (p: PendingMoves)
        ensures
            p@.len() == 0,
    {
        PendingMoves { list: Vec::new() }
    }

    /// No entries are left in the current pass.
    pub fn is_empty(&self) -> (r: bool)
        ensures
            r == (self@.len() == 0),
    {
        self.list.len() == 0
    }
}

/// The entries are in ascending order of priority.
pub open spec fn sorted_by_priority(q: Seq<(u8, Entity)>) -> bool {
    forall|i: int, j: int| 0 <= i < j < q.len() ==> (#[trigger] q[i]).0 <= (#[trigger] q[j]).0
}

/// Relies on std's `slice::sort_by_key`: it only reorders the elements, into
/// ascending order of the key (here the priority).
#[verifier::external_body]
fn sort_by_priority(v: &mut Vec<(u8, Entity)>)
    ensures
        final(v)@.to_multiset() == old(v)@.to_multiset(),
        sorted_by_priority(final(v)@),
{
    v.sort_by_key(|k| k.0)
}

/// `q`, with an entry for `g` put back on its end, is the whole cohort of
/// `es` in ascending priority: the queue left after a refill hands out `g`.
pub open spec fn refilled(q: Seq<(u8, Entity)>, g: Entity, es: Seq<EntityRecord>) -> bool {
    exists|p: u8|
        sorted_by_priority(#[trigger] q.push((p, g))) && q.push((p, g)).to_multiset() == cohort(
            es,
        ).to_multiset()
}

/// The index of the first record at or after `k` that holds the turn, or the
/// length if there is none.
pub open spec fn first_tagged_from(es: Seq<EntityRecord>, k: int) -> int
    decreases es.len() - k,
{
    if k < 0 || k >= es.len() {
        es.len() as int
    } else if es[k].active_turn is Some {
        k
    } else {
        first_tagged_from(es, k + 1)
    }
}

pub open spec fn first_tagged(es: Seq<EntityRecord>) -> int {
    first_tagged_from(es, 0)
}

/// Some entity holds the turn and has not finished it.
pub open spec fn still_active(es: Seq<EntityRecord>) -> bool {
    let t = first_tagged(es);
    t < es.len() && es[t].active_turn.unwrap().state != TurnState::DONE
}

/// At most one entity holds the turn.
pub open spec fn at_most_one_tagged(es: Seq<EntityRecord>) -> bool {
    forall|j: int, k: int|
        0 <= j < es.len() && 0 <= k < es.len() && (#[trigger] es[j]).active_turn is Some && (
        #[trigger] es[k]).active_turn is Some ==> j == k
}

/// The turn-eligible entities with their priorities, in record order.
pub open spec fn cohort(es: Seq<EntityRecord>) -> Seq<(u8, Entity)>
    decreases es.len(),
{
    if es.len() == 0 {
        Seq::empty()
    } else if es.last().priority is Some {
        cohort(es.drop_last()).push((es.last().priority.unwrap().value, es.last().entity))
    } else {
        cohort(es.drop_last())
    }
}

pub open spec fn with_turn(e: EntityRecord, turn: Option<ActiveTurn>) -> EntityRecord {
    EntityRecord { active_turn: turn, ..e }
}

/// The records with the first turn holder's token taken away.
pub open spec fn released(es: Seq<EntityRecord>) -> Seq<EntityRecord> {
    let t = first_tagged(es);
    if t < es.len() {
        es.update(t, with_turn(es[t], None))
    } else {
        es
    }
}

/// The index of the first record at or after `k` for entity `g`, or the
/// length if there is none.
pub open spec fn find_entity_from(es: Seq<EntityRecord>, g: Entity, k: int) -> int
    decreases es.len() - k,
{
    if k < 0 || k >= es.len() {
        es.len() as int
    } else if es[k].entity == g {
        k
    } else {
        find_entity_from(es, g, k + 1)
    }
}

/// The records with a fresh, pending turn token given to entity `g` (when
/// it is still there).
pub open spec fn granted_to(es: Seq<EntityRecord>, g: Entity) -> Seq<EntityRecord> {
    let j = find_entity_from(es, g, 0);
    if j < es.len() {
        es.update(j, with_turn(es[j], Some(ActiveTurn { state: TurnState::PENDING })))
    } else {
        es
    }
}

pub proof fn lemma_first_tagged(es: Seq<EntityRecord>, k: int)
    requires
        0 <= k <= es.len(),
    ensures
        k <= first_tagged_from(es, k) <= es.len(),
        first_tagged_from(es, k) < es.len() ==> es[first_tagged_from(es, k)].active_turn is Some,
        forall|j: int| k <= j < first_tagged_from(es, k) ==> (#[trigger] es[j]).active_turn is None,
    decreases es.len() - k,
{
    if k < es.len() && es[k].active_turn is None {
        lemma_first_tagged(es, k + 1);
    }
}

pub proof fn lemma_find_entity(es: Seq<EntityRecord>, g: Entity, k: int)
    requires
        0 <= k <= es.len(),
    ensures
        k <= find_entity_from(es, g, k) <= es.len(),
        find_entity_from(es, g, k) < es.len() ==> es[find_entity_from(es, g, k)].entity == g,
        forall|j: int| k <= j < find_entity_from(es, g, k) ==> (#[trigger] es[j]).entity != g,
    decreases es.len() - k,
{
    if k < es.len() && es[k].entity != g {
        lemma_find_entity(es, g, k + 1);
    }
}

/// One tick of the scheduler. If an entity holds the turn and has not set
/// it `DONE`, nothing happens and `None` is returned. Otherwise the finished
/// holder (if any) loses its token; when the queue is empty it is refilled
/// with every entity that has a priority, in ascending priority; the entry
/// at the end of the queue (a highest priority) is taken off, that entity
/// receives a `PENDING` token, and it is returned.
pub fn turn_system(pending: &mut PendingMoves, entities: &mut Vec<EntityRecord>) -> (granted:
    Option<Entity>)
    requires
        still_active(old(entities)@) || old(pending)@.len() > 0 || cohort(old(entities)@).len()
            > 0,
    ensures
        still_active(old(entities)@) ==> granted is None && final(pending)@ == old(pending)@
            && final(entities)@ == old(entities)@,
        !still_active(old(entities)@) ==> granted is Some && final(entities)@ == granted_to(
            released(old(entities)@),
            granted.unwrap(),
        ),
        !still_active(old(entities)@) && old(pending)@.len() > 0 ==> final(pending)@ == old(pending)@.drop_last() && granted.unwrap() == old(pending)@.last().1,
        !still_active(old(entities)@) && old(pending)@.len() == 0 ==> refilled(
            final(pending)@,
            granted.unwrap(),
            old(entities)@,
        ),
        at_most_one_tagged(old(entities)@) ==> at_most_one_tagged(final(entities)@),
{
    let ghost es0 = entities@;
    let mut t: usize = 0;
    proof {
        lemma_first_tagged(es0, 0);
    }
    while t < entities.len() && entities[t].active_turn.is_none()
        invariant
            entities@ == es0,
            t <= es0.len(),
            forall|j: int| 0 <= j < t ==> (#[trigger] es0[j]).active_turn is None,
            first_tagged(es0) >= t,
            first_tagged(es0) == first_tagged_from(es0, t as int),
        decreases es0.len() - t,
    {
        t = t + 1;
        proof {
            lemma_first_tagged(es0, t as int);
        }
    }
    proof {
        lemma_first_tagged(es0, t as int);
    }
    if t < entities.len() {
        let turn = entities[t].active_turn.unwrap();
        if turn.state != TurnState::DONE {
            return None;
        }
    }
    if pending.list.len() == 0 {
        let mut priority_tuple: Vec<(u8, Entity)> = Vec::new();
        let mut k: usize = 0;
        while k < entities.len()
            invariant
                entities@ == es0,
                k <= es0.len(),
                priority_tuple@ == cohort(es0.take(k as int)),
            decreases es0.len() - k,
        {
            proof {
                assert(es0.take(k + 1).drop_last() =~= es0.take(k as int));
            }
            match entities[k].priority {
                Some(priority) => priority_tuple.push((priority.value, entities[k].entity)),
                None => {},
            }
            k = k + 1;
        }
        proof {
            assert(es0.take(es0.len() as int) =~= es0);
        }
        let ghost unsorted = priority_tuple@;
        sort_by_priority(&mut priority_tuple);
        proof {
            unsorted.to_multiset_ensures();
            priority_tuple@.to_multiset_ensures();
        }
        pending.list = priority_tuple;
        assert(sorted_by_priority(pending.list@));
        assert(pending.list@.to_multiset() =~= cohort(es0).to_multiset());
    }
    let ghost es1 = released(es0);
    if t < entities.len() {
        entities[t].active_turn = None;
    }
    assert(entities@ =~= es1);
    let ghost full = pending.list@;
    let next = pending.list.pop().unwrap();
    proof {
        assert(pending.list@.push((next.0, next.1)) =~= full);
        if old(pending)@.len() == 0 {
            assert(sorted_by_priority(pending@.push((next.0, next.1))));
            assert(pending@.push((next.0, next.1)).to_multiset() == cohort(es0).to_multiset());
            assert(refilled(pending@, next.1, es0));
        }
    }
    let mut j: usize = 0;
    proof {
        lemma_find_entity(es1, next.1, 0);
    }
    while j < entities.len() && entities[j].entity != next.1
        invariant
            entities@ == es1,
            j <= es1.len(),
            find_entity_from(es1, next.1, 0) >= j,
            find_entity_from(es1, next.1, 0) == find_entity_from(es1, next.1, j as int),
        decreases es1.len() - j,
    {
        j = j + 1;
        proof {
            lemma_find_entity(es1, next.1, j as int);
        }
    }
    proof {
        lemma_find_entity(es1, next.1, j as int);
    }
    if j < entities.len() {
        entities[j].active_turn = Some(ActiveTurn { state: TurnState::PENDING });
    }
    assert(entities@ =~= granted_to(es1, next.1));
    proof {
        if at_most_one_tagged(es0) {
            assert forall|a: int, b: int|
                0 <= a < entities@.len() && 0 <= b < entities@.len() && (
                #[trigger] entities@[a]).active_turn is Some && (
                #[trigger] entities@[b]).active_turn is Some implies a == b by {
                assert(a == j);
                assert(b == j);
            }
        }
    }
    Some(next.1)
}

/// From the second tick on, each tick hands out the entry at the end of the
/// queue and leaves the rest.
pub open spec fn pops_in_order(qs: Seq<Seq<(u8, Entity)>>, granted: Seq<(u8, Entity)>) -> bool {
    forall|k: int|
        #![trigger granted[k]]
        1 <= k < granted.len() ==> qs[k].len() > 0 && granted[k] == qs[k].last() && qs[k + 1]
            == qs[k].drop_last()
}

proof fn lemma_queue_prefix(
    qs: Seq<Seq<(u8, Entity)>>,
    granted: Seq<(u8, Entity)>,
    full: Seq<(u8, Entity)>,
    i: int,
)
    requires
        full.len() == granted.len(),
        qs.len() == granted.len() + 1,
        full == qs[1].push(granted[0]),
        1 <= i <= granted.len(),
        pops_in_order(qs, granted),
    ensures
        qs[i] == full.take(full.len() - i),
    decreases i,
{
    if i == 1 {
        assert(qs[1] =~= full.take(full.len() - 1));
    } else {
        lemma_queue_prefix(qs, granted, full, i - 1);
        assert(granted[i - 1] == qs[i - 1].last());
        assert(qs[i] =~= full.take(full.len() - i));
    }
}

/// One pass of the scheduler, in which every turn holder finishes before
/// the next tick: starting from an empty queue, the first tick refills it
/// with the cohort and each later tick takes the next entry from its end.
/// Over as many ticks as the cohort has entities, every entity receives
/// exactly one turn, and the turns come in order of non-increasing priority.
pub proof fn lemma_cohort_pass(
    es: Seq<EntityRecord>,
    qs: Seq<Seq<(u8, Entity)>>,
    granted: Seq<(u8, Entity)>,
)
    requires
        granted.len() == cohort(es).len(),
        granted.len() >= 1,
        qs.len() == granted.len() + 1,
        qs[0].len() == 0,
        sorted_by_priority(qs[1].push(granted[0])),
        qs[1].push(granted[0]).to_multiset() == cohort(es).to_multiset(),
        pops_in_order(qs, granted),
    ensures
        granted.to_multiset() == cohort(es).to_multiset(),
        forall|i: int, j: int| 0 <= i < j < granted.len() ==> (#[trigger] granted[i]).0 >= (
        #[trigger] granted[j]).0,
{
    let full = qs[1].push(granted[0]);
    let n = granted.len() as int;
    full.to_multiset_ensures();
    cohort(es).to_multiset_ensures();
    assert(full.len() == n);
    assert forall|k: int| 0 <= k < n implies #[trigger] granted[k] == full[n - 1 - k] by {
        if k >= 1 {
            lemma_queue_prefix(qs, granted, full, k);
        }
    }
    assert(granted =~= full.reverse());
    full.lemma_reverse_to_multiset();
}

} // verus!
