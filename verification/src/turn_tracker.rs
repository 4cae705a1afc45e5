use crate::components::EntityId;
use std::cmp::Ordering;
use vstd::prelude::*;

verus! {

/// One participant's rolled initiative for the current round.
#[derive(PartialEq, Eq, Structural, Copy, Clone, Debug)]
pub struct Combatant {
    pub init: i32,
    pub priority: i32,
    pub entity: EntityId,
}

/// `a` comes before `b` in the turn order: it rolled the higher initiative,
/// or the same initiative with the higher priority.
pub open spec fn acts_before(a: Combatant, b: Combatant) -> bool {
    a.init > b.init || (a.init == b.init && a.priority > b.priority)
}

/// No combatant is listed behind one that it comes before.
pub open spec fn is_descending(s: Seq<Combatant>) -> bool {
    forall|i: int, j: int| 0 <= i < j < s.len() ==> !acts_before(s[j], s[i])
}

/// `s`, which is in turn order, with `c` added behind every combatant that
/// `c` does not come before.
pub open spec fn sorted_insert(s: Seq<Combatant>, c: Combatant) -> Seq<Combatant>
    decreases s.len(),
{
    if s.len() == 0 {
        seq![c]
    } else if acts_before(c, s.last()) {
        sorted_insert(s.drop_last(), c).push(s.last())
    } else {
        s.push(c)
    }
}

/// The combatants of `s` in turn order; those of equal initiative and
/// priority keep the order they have in `s`.
pub open spec fn initiative_order(s: Seq<Combatant>) -> Seq<Combatant>
    decreases s.len(),
{
    if s.len() == 0 {
        s
    } else {
        sorted_insert(initiative_order(s.drop_last()), s.last())
    }
}

impl Combatant {
    /// `Less` where `self` comes before `other` in the turn order, `Greater`
    /// where it comes after, `Equal` where neither holds.
    pub fn compare_init(&self, other: &Combatant) -> (o: Ordering)
        ensures
            (o == Ordering::Less) == acts_before(*self, *other),
            (o == Ordering::Greater) == acts_before(*other, *self),
            (o == Ordering::Equal) == (self.init == other.init && self.priority == other.priority),
    {
        if self.init > other.init {
            Ordering::Less
        } else if self.init < other.init {
            Ordering::Greater
        } else if self.priority > other.priority {
            Ordering::Less
        } else if self.priority < other.priority {
            Ordering::Greater
        } else {
            Ordering::Equal
        }
    }

    /// Whether `self` comes before `other` in the turn order.
    pub fn precedes(&self, other: &Combatant) -> (before: bool)
        ensures
            before == acts_before(*self, *other),
    {
        match self.compare_init(other) {
            Ordering::Less => true,
            _ => false,
        }
    }
}

#[derive(PartialEq, Eq, Structural, Copy, Clone, Debug)]
pub enum TurnState {
    StartOfRound,
    DeclarePhase,
    ResolvePhase,
}

/// The phase and cursor that follow phase `state` with the cursor at
/// `cursor`, among `count` combatants.
pub open spec fn next_phase(state: TurnState, cursor: int, count: int) -> (TurnState, int) {
    match state {
        TurnState::StartOfRound => (TurnState::DeclarePhase, count - 1),
        TurnState::DeclarePhase => if cursor > 0 {
            (TurnState::DeclarePhase, cursor - 1)
        } else {
            (TurnState::ResolvePhase, 0)
        },
        TurnState::ResolvePhase => if cursor < count - 1 {
            (TurnState::ResolvePhase, cursor + 1)
        } else {
            (TurnState::StartOfRound, cursor)
        },
    }
}

/// Some record of `s` belongs to `entity`.
pub open spec fn holds_entity(s: Seq<Combatant>, entity: EntityId) -> bool {
    exists|i: int| 0 <= i < s.len() && #[trigger] s[i].entity == entity
}

/// `i` is the position of the first record of `s` that belongs to `entity`.
pub open spec fn is_first_position(s: Seq<Combatant>, entity: EntityId, i: int) -> bool {
    &&& 0 <= i < s.len()
    &&& s[i].entity == entity
    &&& forall|k: int| 0 <= k < i ==> #[trigger] s[k].entity != entity
}

/// The list after `c` has been recorded: `c` replaces the first record of
/// its entity, or joins at the end where the entity has none.
pub open spec fn with_roll(s: Seq<Combatant>, c: Combatant) -> Seq<Combatant> {
    if holds_entity(s, c.entity) {
        s.update(choose|i: int| is_first_position(s, c.entity, i), c)
    } else {
        s.push(c)
    }
}

/// No two records belong to the same entity.
pub open spec fn distinct_entities(s: Seq<Combatant>) -> bool {
    forall|i: int, j: int| 0 <= i < j < s.len() ==> s[i].entity != s[j].entity
}

/// The turn state machine: the phase, the combatants, and the cursor that
/// points at the combatant whose turn it is.
#[derive(PartialEq, Clone, Debug)]
pub struct TurnTracker {
    pub turn_state: TurnState,
    pub current_combatant: usize,
    pub combatants: Vec<Combatant>,
}

/// A turn tracker as a mathematical value.
pub struct TurnView {
    pub turn_state: TurnState,
    pub cursor: int,
    pub combatants: Seq<Combatant>,
}

impl View for TurnTracker {
    type V = TurnView;

    open spec fn view(&self) -> TurnView {
        TurnView {
            turn_state: self.turn_state,
            cursor: self.current_combatant as int,
            combatants: self.combatants@,
        }
    }
}

/// One step of the state machine. Leaving the start of a round puts the
/// combatants in turn order; every step moves the phase and the cursor as
/// `next_phase` says.
pub open spec fn step(v: TurnView) -> TurnView {
    let next = next_phase(v.turn_state, v.cursor, v.combatants.len() as int);
    TurnView {
        turn_state: next.0,
        cursor: next.1,
        combatants: if v.turn_state == TurnState::StartOfRound {
            initiative_order(v.combatants)
        } else {
            v.combatants
        },
    }
}

/// `n` steps of the state machine, one after the other.
pub open spec fn steps(v: TurnView, n: nat) -> TurnView
    decreases n,
{
    if n == 0 {
        v
    } else {
        step(steps(v, (n - 1) as nat))
    }
}

/// The list after the roll `c` has been registered in phase `state`: at the
/// start of a round the record is only stored, in any other phase the list
/// is put back in turn order as well.
pub open spec fn registered(state: TurnState, s: Seq<Combatant>, c: Combatant) -> Seq<Combatant> {
    if state == TurnState::StartOfRound {
        with_roll(s, c)
    } else {
        initiative_order(with_roll(s, c))
    }
}

impl TurnTracker {
    /// The cursor points at a combatant, or rests at zero while there is
    /// none.
    pub open spec fn wf(&self) -> bool {
        self.current_combatant == 0 || self.current_combatant < self.combatants@.len()
    }

    /// A tracker at the start of a round, with no combatants yet.
    pub fn new() -> (tracker: TurnTracker)
        ensures
            tracker.wf(),
            tracker.turn_state == TurnState::StartOfRound,
            tracker.current_combatant == 0,
            tracker.combatants@ == Seq::<Combatant>::empty(),
    {
        TurnTracker {
            turn_state: TurnState::StartOfRound,
            current_combatant: 0,
            combatants: Vec::new(),
        }
    }

    /// Puts the combatants in turn order.
    fn order_combatants(&mut self)
        ensures
            final(self).combatants@ == initiative_order(old(self).combatants@),
            final(self).turn_state == old(self).turn_state,
            final(self).current_combatant == old(self).current_combatant,
    {
        let n = self.combatants.len();
        let ghost unsorted = self.combatants@;
        let mut i: usize = 0;
        assert(unsorted.subrange(0, 0) =~= Seq::<Combatant>::empty());
        while i < n
            invariant
                i <= n,
                n == self.combatants@.len(),
                n == unsorted.len(),
                self.combatants@.subrange(0, i as int) == initiative_order(
                    unsorted.subrange(0, i as int),
                ),
                forall|k: int| i <= k < n ==> self.combatants@[k] == unsorted[k],
                self.turn_state == old(self).turn_state,
                self.current_combatant == old(self).current_combatant,
            decreases n - i,
        {
            let c = self.combatants[i];
            let ghost prefix = self.combatants@.subrange(0, i as int);
            let mut j: usize = i;
            while j > 0 && c.precedes(&self.combatants[j - 1])
                invariant
                    j <= i < n,
                    n == self.combatants@.len(),
                    prefix.len() == i,
                    forall|k: int| 0 <= k < j ==> self.combatants@[k] == prefix[k],
                    forall|k: int| j < k <= i ==> self.combatants@[k] == prefix[k - 1],
                    forall|k: int| i < k < n ==> self.combatants@[k] == unsorted[k],
                    forall|k: int| j <= k < i ==> acts_before(c, prefix[k]),
                    self.turn_state == old(self).turn_state,
                    self.current_combatant == old(self).current_combatant,
                decreases j,
            {
                let prev = self.combatants[j - 1];
                self.combatants.set(j, prev);
                j -= 1;
            }
            self.combatants.set(j, c);
            proof {
                lemma_sorted_insert_at(prefix, c, j as int);
                assert(self.combatants@.subrange(0, i + 1) =~= prefix.insert(j as int, c));
                assert(unsorted.subrange(0, i + 1).drop_last() =~= unsorted.subrange(0, i as int));
                assert(unsorted.subrange(0, i + 1).last() == c);
            }
            i += 1;
        }
        assert(self.combatants@.subrange(0, n as int) =~= self.combatants@);
        assert(unsorted.subrange(0, n as int) =~= unsorted);
    }

    /// Moves the cursor to the combatant that acts last.
    fn jump_to_last_combatant(&mut self)
        requires
            old(self).combatants@.len() > 0,
        ensures
            final(self).current_combatant == old(self).combatants@.len() - 1,
            final(self).combatants == old(self).combatants,
            final(self).turn_state == old(self).turn_state,
    {
        self.current_combatant = self.combatants.len() - 1;
    }

    /// Moves the cursor to the combatant that acts first.
    fn jump_to_first_combatant(&mut self)
        ensures
            final(self).current_combatant == 0,
            final(self).combatants == old(self).combatants,
            final(self).turn_state == old(self).turn_state,
    {
        self.current_combatant = 0;
    }

    /// Takes one step of the state machine. At the start of a round the
    /// combatants are put in turn order and the last of them declares
    /// first; declarations then run backwards to the first combatant, and
    /// resolution runs forwards from the first to the last, after which the
    /// next round starts.
    pub fn next_turn(&mut self)
        requires
            old(self).wf(),
            old(self).combatants@.len() > 0,
        ensures
            final(self)@ == step(old(self)@),
            final(self)@ == after_event(old(self)@, TrackerEvent::Stepped),
            final(self).wf(),
            final(self).combatants@.len() == old(self).combatants@.len(),
            final(self).current_combatant < final(self).combatants@.len(),
            final(self).combatants@.to_multiset() == old(self).combatants@.to_multiset(),
            old(self).turn_state == TurnState::StartOfRound ==> is_descending(
                final(self).combatants@,
            ),
            distinct_entities(old(self).combatants@) ==> distinct_entities(final(self).combatants@),
    {
        proof {
            lemma_turn_order(self.combatants@);
            if distinct_entities(self.combatants@) {
                lemma_order_keeps_distinct_entities(self.combatants@);
            }
        }
        match self.turn_state {
            TurnState::StartOfRound => {
                self.order_combatants();
                self.jump_to_last_combatant();
                self.turn_state = TurnState::DeclarePhase;
            },
            TurnState::DeclarePhase => {
                if self.current_combatant > 0 {
                    self.current_combatant -= 1;
                } else {
                    self.turn_state = TurnState::ResolvePhase;
                    self.jump_to_first_combatant();
                }
            },
            TurnState::ResolvePhase => {
                if self.current_combatant < self.combatants.len() - 1 {
                    self.current_combatant += 1;
                } else {
                    self.turn_state = TurnState::StartOfRound;
                }
            },
        }
    }

    /// Records the roll of `entity` for this round: its record is
    /// overwritten, or added where it has none. Outside the start of a
    /// round the list is put back in turn order at once; the cursor keeps
    /// its position, not its combatant.
    pub fn register_combatant(&mut self, entity: &EntityId, init: i32, priority: i32)
        requires
            old(self).wf(),
        ensures
            final(self)@ == after_event(
                old(self)@,
                TrackerEvent::Registered((Combatant { init, priority, entity: *entity })),
            ),
            final(self).wf(),
            final(self).turn_state == old(self).turn_state,
            final(self).current_combatant == old(self).current_combatant,
            final(self).combatants@ == registered(
                old(self).turn_state,
                old(self).combatants@,
                (Combatant { init, priority, entity: *entity }),
            ),
            final(self).combatants@.len() == if holds_entity(old(self).combatants@, *entity) {
                old(self).combatants@.len()
            } else {
                old(self).combatants@.len() + 1
            },
            final(self).combatants@.contains((Combatant { init, priority, entity: *entity })),
            distinct_entities(old(self).combatants@) ==> distinct_entities(final(self).combatants@),
    {
        let record = Combatant { init, priority, entity: *entity };
        proof {
            lemma_registered_holds_record(self.turn_state, self.combatants@, record);
            if distinct_entities(self.combatants@) {
                lemma_register_keeps_distinct_entities(self.turn_state, self.combatants@, record);
            }
        }
        let ghost before = self.combatants@;
        let n = self.combatants.len();
        let mut i: usize = 0;
        while i < n && self.combatants[i].entity != *entity
            invariant
                i <= n,
                n == self.combatants@.len(),
                self.combatants@ == before,
                forall|k: int| 0 <= k < i ==> #[trigger] before[k].entity != *entity,
            decreases n - i,
        {
            i += 1;
        }
        if i < n {
            proof {
                assert(is_first_position(before, *entity, i as int));
                let chosen = choose|k: int| is_first_position(before, *entity, k);
                assert(chosen == i);
            }
            self.combatants.set(i, record);
        } else {
            self.combatants.push(record);
        }
        assert(self.combatants@ == with_roll(before, record));
        proof {
            lemma_order_keeps_length(self.combatants@);
        }
        if self.turn_state != TurnState::StartOfRound {
            self.order_combatants();
        }
    }

    /// The combatant whose turn it is.
    pub fn get_current_combatant(&self) -> (current: Combatant)
        requires
            self.current_combatant < self.combatants@.len(),
        ensures
            current == self.combatants@[self.current_combatant as int],
    {
        self.combatants[self.current_combatant]
    }
}

/// Where `c` comes before every combatant of `s` from position `j` on, and
/// not before the one in front of `j`, adding `c` in order puts it at `j`.
proof fn lemma_sorted_insert_at(s: Seq<Combatant>, c: Combatant, j: int)
    requires
        0 <= j <= s.len(),
        forall|k: int| j <= k < s.len() ==> acts_before(c, s[k]),
        j > 0 ==> !acts_before(c, s[j - 1]),
    ensures
        sorted_insert(s, c) == s.insert(j, c),
    decreases s.len(),
{
    if s.len() == 0 {
        assert(seq![c] =~= s.insert(j, c));
    } else if j == s.len() {
        assert(s.push(c) =~= s.insert(j, c));
    } else {
        lemma_sorted_insert_at(s.drop_last(), c, j);
        assert(s.drop_last().insert(j, c).push(s.last()) =~= s.insert(j, c));
    }
}

/// The position at which `sorted_insert` puts `c`: behind every combatant
/// that `c` does not come before, in front of the run of those it does.
pub proof fn lemma_insert_position(s: Seq<Combatant>, c: Combatant) -> (j: int)
    ensures
        0 <= j <= s.len(),
        sorted_insert(s, c) == s.insert(j, c),
        forall|k: int| j <= k < s.len() ==> acts_before(c, s[k]),
        j > 0 ==> !acts_before(c, s[j - 1]),
    decreases s.len(),
{
    if s.len() == 0 {
        assert(seq![c] =~= s.insert(0, c));
        0
    } else if acts_before(c, s.last()) {
        let j = lemma_insert_position(s.drop_last(), c);
        assert(s.drop_last().insert(j, c).push(s.last()) =~= s.insert(j, c));
        assert forall|k: int| j <= k < s.len() implies acts_before(c, s[k]) by {
            if k < s.len() - 1 {
                assert(s[k] == s.drop_last()[k]);
            }
        }
        j
    } else {
        assert(s.push(c) =~= s.insert(s.len() as int, c));
        s.len() as int
    }
}

/// Turn order is a rearrangement: it is in descending order, and it holds
/// each combatant as often as the list it was made from.
pub proof fn lemma_turn_order(s: Seq<Combatant>)
    ensures
        is_descending(initiative_order(s)),
        initiative_order(s).to_multiset() == s.to_multiset(),
        initiative_order(s).len() == s.len(),
        forall|c: Combatant| initiative_order(s).contains(c) <==> s.contains(c),
    decreases s.len(),
{
    broadcast use vstd::seq_lib::group_to_multiset_ensures;

    let r = initiative_order(s);
    if s.len() > 0 {
        let rest = initiative_order(s.drop_last());
        let c = s.last();
        lemma_turn_order(s.drop_last());
        let j = lemma_insert_position(rest, c);
        assert(r == rest.insert(j, c));
        assert(s =~= s.drop_last().push(c));
        assert(r.to_multiset() =~= s.to_multiset());
        assert forall|a: int, b: int| 0 <= a < b < r.len() implies !acts_before(r[b], r[a]) by {
            if a < j && b > j {
                assert(r[a] == rest[a] && r[b] == rest[b - 1]);
            } else if b < j {
                assert(r[a] == rest[a] && r[b] == rest[b]);
            } else if a > j {
                assert(r[a] == rest[a - 1] && r[b] == rest[b - 1]);
            } else if a == j {
                assert(r[b] == rest[b - 1]);
            } else {
                assert(b == j && r[a] == rest[a]);
                if a < j - 1 {
                    assert(!acts_before(rest[j - 1], rest[a]));
                }
            }
        }
    }
    assert forall|c: Combatant| r.contains(c) <==> s.contains(c) by {
        assert(r.to_multiset().count(c) == s.to_multiset().count(c));
    }
}

/// Having the initiative and the priority of `c`, as a predicate on
/// combatants.
pub open spec fn same_rank(c: Combatant) -> spec_fn(Combatant) -> bool {
    |other: Combatant| other.init == c.init && other.priority == c.priority
}

/// Turn order is stable: the combatants that share a rank stand in turn
/// order as they stand in the list it was made from.
pub proof fn lemma_turn_order_is_stable(s: Seq<Combatant>, c: Combatant)
    ensures
        initiative_order(s).filter(same_rank(c)) == s.filter(same_rank(c)),
    decreases s.len(),
{
    if s.len() > 0 {
        let pred = same_rank(c);
        let front = s.drop_last();
        let rest = initiative_order(front);
        let last = s.last();
        lemma_turn_order_is_stable(front, c);
        let j = lemma_insert_position(rest, last);
        let (head, tail) = (rest.take(j), rest.skip(j));
        assert(rest.insert(j, last) =~= head.push(last) + tail);
        assert(head + tail =~= rest);
        assert(front.push(last) =~= s);
        Seq::filter_distributes_over_add(head.push(last), tail, pred);
        Seq::filter_distributes_over_add(head, tail, pred);
        head.lemma_filter_push(last, pred);
        front.lemma_filter_push(last, pred);
        if pred(last) {
            assert forall|k: int| 0 <= k < tail.len() implies !pred(#[trigger] tail[k]) by {
                assert(acts_before(last, rest[j + k]));
            }
            lemma_filter_none(tail, pred);
            assert(head.filter(pred) + Seq::<Combatant>::empty() =~= head.filter(pred));
            assert(head.filter(pred).push(last) + Seq::<Combatant>::empty() =~= head.filter(
                pred,
            ).push(last));
        }
    }
}

/// Filtering a list of which no member passes leaves nothing.
proof fn lemma_filter_none(s: Seq<Combatant>, pred: spec_fn(Combatant) -> bool)
    requires
        forall|i: int| 0 <= i < s.len() ==> !pred(#[trigger] s[i]),
    ensures
        s.filter(pred) == Seq::<Combatant>::empty(),
{
    let kept = s.filter(pred);
    if kept.len() > 0 {
        s.lemma_filter_pred(pred, 0);
        assert(kept.contains(kept[0]));
        s.lemma_filter_contains_rev(pred, kept[0]);
        let at = choose|at: int| 0 <= at < s.len() && s[at] == kept[0];
        assert(!pred(s[at]));
    }
    assert(kept =~= Seq::<Combatant>::empty());
}

/// A list that is already in descending order is its own turn order.
pub proof fn lemma_order_of_descending(s: Seq<Combatant>)
    requires
        is_descending(s),
    ensures
        initiative_order(s) == s,
    decreases s.len(),
{
    if s.len() > 0 {
        let front = s.drop_last();
        assert(is_descending(front));
        lemma_order_of_descending(front);
        if front.len() > 0 {
            assert(front.last() == s[s.len() - 2]);
            assert(!acts_before(s[s.len() - 1], s[s.len() - 2]));
        }
        assert(front.push(s.last()) =~= s);
    }
}

/// Putting a list in turn order twice is the same as doing it once.
pub proof fn lemma_order_is_idempotent(s: Seq<Combatant>)
    ensures
        initiative_order(initiative_order(s)) == initiative_order(s),
{
    lemma_turn_order(s);
    lemma_order_of_descending(initiative_order(s));
}

/// No two combatants of `s` have both the same initiative and the same
/// priority.
pub open spec fn distinct_ranks(s: Seq<Combatant>) -> bool {
    forall|i: int, j: int|
        0 <= i < j < s.len() ==> !(s[i].init == s[j].init && s[i].priority == s[j].priority)
}

/// Turn order keeps the ranks apart: where no two combatants of `s` share
/// a rank, none of its turn order do.
pub proof fn lemma_order_keeps_distinct_ranks(s: Seq<Combatant>)
    requires
        distinct_ranks(s),
    ensures
        distinct_ranks(initiative_order(s)),
    decreases s.len(),
{
    let r = initiative_order(s);
    if s.len() > 0 {
        let front = s.drop_last();
        let rest = initiative_order(front);
        let c = s.last();
        assert(distinct_ranks(front)) by {
            assert forall|i: int, j: int| 0 <= i < j < front.len() implies !(front[i].init
                == front[j].init && front[i].priority == front[j].priority) by {
                assert(front[i] == s[i] && front[j] == s[j]);
            }
        }
        lemma_order_keeps_distinct_ranks(front);
        lemma_turn_order(front);
        let j = lemma_insert_position(rest, c);
        assert forall|k: int| 0 <= k < rest.len() implies !(rest[k].init == c.init
            && rest[k].priority == c.priority) by {
            assert(rest.contains(rest[k]));
            assert(front.contains(rest[k]));
            let m = choose|m: int| 0 <= m < front.len() && front[m] == rest[k];
            assert(s[m] == rest[k] && s[s.len() - 1] == c);
        }
        assert forall|a: int, b: int| 0 <= a < b < r.len() implies !(r[a].init == r[b].init
            && r[a].priority == r[b].priority) by {
            if a < j && b > j {
                assert(r[a] == rest[a] && r[b] == rest[b - 1]);
            } else if b < j {
                assert(r[a] == rest[a] && r[b] == rest[b]);
            } else if a > j {
                assert(r[a] == rest[a - 1] && r[b] == rest[b - 1]);
            } else if a == j {
                assert(r[b] == rest[b - 1]);
            } else {
                assert(b == j && r[a] == rest[a]);
            }
        }
    }
}

/// Where no two combatants share a rank, the turn order made when a round
/// starts is strictly descending: each combatant comes before every one
/// listed behind it, so the first has the greatest initiative, and among
/// those with that initiative the greatest priority.
pub proof fn lemma_turn_order_strict(s: Seq<Combatant>)
    requires
        distinct_ranks(s),
    ensures
        forall|i: int, j: int|
            0 <= i < j < s.len() ==> acts_before(
                #[trigger] initiative_order(s)[i],
                #[trigger] initiative_order(s)[j],
            ),
        forall|k: int|
            0 <= k < s.len() ==> initiative_order(s)[0].init >= (#[trigger] s[k]).init,
        forall|k: int|
            0 <= k < s.len() && s[k].init == initiative_order(s)[0].init ==> initiative_order(
                s,
            )[0].priority >= (#[trigger] s[k]).priority,
{
    let r = initiative_order(s);
    lemma_turn_order(s);
    lemma_order_keeps_distinct_ranks(s);
    assert forall|i: int, j: int| 0 <= i < j < s.len() implies acts_before(
        #[trigger] r[i],
        #[trigger] r[j],
    ) by {
        assert(!acts_before(r[j], r[i]));
        assert(!(r[i].init == r[j].init && r[i].priority == r[j].priority));
    }
    assert forall|k: int| 0 <= k < s.len() implies r[0].init >= (#[trigger] s[k]).init && (s[k].init
        == r[0].init ==> r[0].priority >= s[k].priority) by {
        assert(s.contains(s[k]));
        assert(r.contains(s[k]));
        let m = choose|m: int| 0 <= m < r.len() && r[m] == s[k];
        if m > 0 {
            assert(!acts_before(r[m], r[0]));
        }
    }
}

/// Turn order keeps the entities apart: where no entity has two records in
/// `s`, none has two in its turn order.
pub proof fn lemma_order_keeps_distinct_entities(s: Seq<Combatant>)
    requires
        distinct_entities(s),
    ensures
        distinct_entities(initiative_order(s)),
    decreases s.len(),
{
    let r = initiative_order(s);
    if s.len() > 0 {
        let front = s.drop_last();
        let rest = initiative_order(front);
        let c = s.last();
        assert(distinct_entities(front)) by {
            assert forall|i: int, j: int| 0 <= i < j < front.len() implies front[i].entity
                != front[j].entity by {
                assert(front[i] == s[i] && front[j] == s[j]);
            }
        }
        lemma_order_keeps_distinct_entities(front);
        lemma_turn_order(front);
        let j = lemma_insert_position(rest, c);
        assert forall|k: int| 0 <= k < rest.len() implies rest[k].entity != c.entity by {
            assert(rest.contains(rest[k]));
            assert(front.contains(rest[k]));
            let m = choose|m: int| 0 <= m < front.len() && front[m] == rest[k];
            assert(s[m] == rest[k] && s[s.len() - 1] == c);
        }
        assert forall|a: int, b: int| 0 <= a < b < r.len() implies r[a].entity != r[b].entity by {
            if a < j && b > j {
                assert(r[a] == rest[a] && r[b] == rest[b - 1]);
            } else if b < j {
                assert(r[a] == rest[a] && r[b] == rest[b]);
            } else if a > j {
                assert(r[a] == rest[a - 1] && r[b] == rest[b - 1]);
            } else if a == j {
                assert(r[b] == rest[b - 1]);
            } else {
                assert(b == j && r[a] == rest[a]);
            }
        }
    }
}

/// An entity that has a record has a first one.
pub proof fn lemma_first_position_exists(s: Seq<Combatant>, entity: EntityId) -> (first: int)
    requires
        holds_entity(s, entity),
    ensures
        is_first_position(s, entity, first),
    decreases s.len(),
{
    let some = choose|i: int| 0 <= i < s.len() && #[trigger] s[i].entity == entity;
    if s[0].entity == entity {
        0
    } else {
        let rest = s.skip(1);
        assert(rest[some - 1].entity == entity);
        let first = lemma_first_position_exists(rest, entity);
        assert forall|k: int| 0 <= k < first + 1 implies #[trigger] s[k].entity != entity by {
            if k > 0 {
                assert(rest[k - 1].entity != entity);
            }
        }
        first + 1
    }
}

/// After a roll has been registered, the list holds its record.
pub proof fn lemma_registered_holds_record(state: TurnState, s: Seq<Combatant>, c: Combatant)
    ensures
        registered(state, s, c).contains(c),
        registered(state, s, c).len() == if holds_entity(s, c.entity) {
            s.len()
        } else {
            s.len() + 1
        },
{
    let w = with_roll(s, c);
    if holds_entity(s, c.entity) {
        lemma_first_position_exists(s, c.entity);
        let i = choose|i: int| is_first_position(s, c.entity, i);
        assert(w[i] == c);
    } else {
        assert(w[s.len() as int] == c);
    }
    assert(w.contains(c));
    lemma_turn_order(w);
}

/// Registering a roll keeps the entities apart: a list with at most one
/// record per entity still has at most one per entity afterwards.
pub proof fn lemma_register_keeps_distinct_entities(
    state: TurnState,
    s: Seq<Combatant>,
    c: Combatant,
)
    requires
        distinct_entities(s),
    ensures
        distinct_entities(registered(state, s, c)),
{
    let w = with_roll(s, c);
    if holds_entity(s, c.entity) {
        lemma_first_position_exists(s, c.entity);
    } else {
        assert forall|a: int, b: int| 0 <= a < b < w.len() implies w[a].entity != w[b].entity by {
            if b == s.len() {
                assert(s[a].entity != c.entity);
            }
        }
    }
    if state != TurnState::StartOfRound {
        lemma_order_keeps_distinct_entities(w);
    }
}

/// What can happen to a turn tracker: a roll is registered, the state
/// machine takes a step, or an encounter begins anew.
pub enum TrackerEvent {
    Registered(Combatant),
    Stepped,
    Restarted,
}

/// The tracker that every history begins with: the start of a round, with
/// no combatants.
pub open spec fn initial_view() -> TurnView {
    TurnView { turn_state: TurnState::StartOfRound, cursor: 0, combatants: Seq::empty() }
}

/// The tracker `v` after `event`.
pub open spec fn after_event(v: TurnView, event: TrackerEvent) -> TurnView {
    match event {
        TrackerEvent::Registered(c) => TurnView {
            turn_state: v.turn_state,
            cursor: v.cursor,
            combatants: registered(v.turn_state, v.combatants, c),
        },
        TrackerEvent::Stepped => step(v),
        TrackerEvent::Restarted => TurnView {
            turn_state: TurnState::StartOfRound,
            cursor: v.cursor,
            combatants: v.combatants,
        },
    }
}

/// The tracker `v` after the events of `history`, in order.
pub open spec fn after_history(v: TurnView, history: Seq<TrackerEvent>) -> TurnView
    decreases history.len(),
{
    if history.len() == 0 {
        v
    } else {
        after_event(after_history(v, history.drop_last()), history.last())
    }
}

/// Every step of `history` is taken while there are combatants.
pub open spec fn steps_have_combatants(v: TurnView, history: Seq<TrackerEvent>) -> bool
    decreases history.len(),
{
    history.len() == 0 || {
        &&& steps_have_combatants(v, history.drop_last())
        &&& history.last() is Stepped ==> after_history(v, history.drop_last()).combatants.len()
            > 0
    }
}

/// The cursor is in bounds in every state that can be reached: whatever is
/// registered, however often the machine steps while there are combatants,
/// and whenever an encounter begins anew, the cursor points at a combatant,
/// or rests at zero while there is none.
pub proof fn lemma_reachable_cursor_in_bounds(history: Seq<TrackerEvent>)
    requires
        steps_have_combatants(initial_view(), history),
    ensures
        ({
            let reached = after_history(initial_view(), history);
            &&& reached.combatants.len() > 0 ==> 0 <= reached.cursor < reached.combatants.len()
            &&& reached.combatants.len() == 0 ==> reached.cursor == 0
        }),
    decreases history.len(),
{
    if history.len() > 0 {
        let before = after_history(initial_view(), history.drop_last());
        lemma_reachable_cursor_in_bounds(history.drop_last());
        match history.last() {
            TrackerEvent::Registered(c) => {
                lemma_registered_holds_record(before.turn_state, before.combatants, c);
            },
            TrackerEvent::Stepped => {
                lemma_order_keeps_length(before.combatants);
            },
            TrackerEvent::Restarted => {},
        }
    }
}

/// The list is in turn order in every state that can be reached outside
/// the start of a round: the step that leaves the start of a round sorts
/// it, the later steps of the round leave it alone, and a roll registered
/// during the round sorts it again.
pub proof fn lemma_reachable_list_in_order(history: Seq<TrackerEvent>)
    ensures
        ({
            let reached = after_history(initial_view(), history);
            reached.turn_state != TurnState::StartOfRound ==> is_descending(reached.combatants)
        }),
    decreases history.len(),
{
    if history.len() > 0 {
        let before = after_history(initial_view(), history.drop_last());
        lemma_reachable_list_in_order(history.drop_last());
        match history.last() {
            TrackerEvent::Registered(c) => {
                lemma_turn_order(with_roll(before.combatants, c));
            },
            TrackerEvent::Stepped => {
                lemma_turn_order(before.combatants);
            },
            TrackerEvent::Restarted => {},
        }
    }
}

/// While there are combatants, a well-formed tracker's cursor points at
/// one of them.
pub proof fn lemma_cursor_in_bounds(tracker: &TurnTracker)
    requires
        tracker.wf(),
        tracker.combatants@.len() > 0,
    ensures
        0 <= tracker.current_combatant < tracker.combatants@.len(),
{
}

/// Steps never change how many combatants there are, and from the first
/// step on the cursor points at one of them.
pub proof fn lemma_steps_keep_cursor_in_bounds(v: TurnView, n: nat)
    requires
        v.combatants.len() > 0,
        0 <= v.cursor < v.combatants.len(),
    ensures
        steps(v, n).combatants.len() == v.combatants.len(),
        0 <= steps(v, n).cursor < v.combatants.len(),
    decreases n,
{
    if n > 0 {
        let before = steps(v, (n - 1) as nat);
        lemma_steps_keep_cursor_in_bounds(v, (n - 1) as nat);
        lemma_order_keeps_length(before.combatants);
    }
}

/// Taking `a` steps and then `b` more is taking `a + b` steps.
pub proof fn lemma_steps_add(v: TurnView, a: nat, b: nat)
    ensures
        steps(steps(v, a), b) == steps(v, a + b),
    decreases b,
{
    if b > 0 {
        lemma_steps_add(v, a, (b - 1) as nat);
        assert(a + b - 1 == a + (b - 1));
    }
}

/// The phase cycle. With `count` combatants, the first step of a round
/// opens the declare phase at the last combatant. From there the tracker is
/// still declaring after fewer than `count` steps, each having moved the
/// cursor back by one, and enters the resolve phase at the first combatant
/// with step number `count`. From there it is still resolving after fewer
/// than `count` steps, each having moved the cursor on by one, and returns
/// to the start of a round with step number `count`.
pub proof fn lemma_phase_cycle(v: TurnView, k: nat)
    requires
        v.combatants.len() > 0,
        k <= v.combatants.len(),
    ensures
        v.turn_state == TurnState::StartOfRound ==> ({
            &&& step(v).turn_state == TurnState::DeclarePhase
            &&& step(v).cursor == v.combatants.len() - 1
        }),
        v.turn_state == TurnState::DeclarePhase && v.cursor == v.combatants.len() - 1 ==> ({
            &&& k < v.combatants.len() ==> steps(v, k).turn_state == TurnState::DeclarePhase
                && steps(v, k).cursor == v.combatants.len() - 1 - k
            &&& k == v.combatants.len() ==> steps(v, k).turn_state == TurnState::ResolvePhase
                && steps(v, k).cursor == 0
            &&& steps(v, k).combatants == v.combatants
        }),
        v.turn_state == TurnState::ResolvePhase && v.cursor == 0 ==> ({
            &&& k < v.combatants.len() ==> steps(v, k).turn_state == TurnState::ResolvePhase
                && steps(v, k).cursor == k
            &&& k == v.combatants.len() ==> steps(v, k).turn_state == TurnState::StartOfRound
            &&& steps(v, k).combatants == v.combatants
        }),
    decreases k,
{
    if k > 0 {
        lemma_phase_cycle(v, (k - 1) as nat);
    }
}

/// A whole round: from the start of a round with `count` combatants, one
/// step to open the declare phase, `count` steps to declare and `count`
/// steps to resolve lead back to the start of a round, with the combatants
/// in turn order.
pub proof fn lemma_round_trip(v: TurnView)
    requires
        v.turn_state == TurnState::StartOfRound,
        v.combatants.len() > 0,
    ensures
        steps(v, 1 + v.combatants.len()).turn_state == TurnState::ResolvePhase,
        steps(v, 1 + v.combatants.len()).cursor == 0,
        steps(v, 1 + 2 * v.combatants.len()).turn_state == TurnState::StartOfRound,
        steps(v, 1 + 2 * v.combatants.len()).combatants == initiative_order(v.combatants),
{
    let n = v.combatants.len();
    let declaring = steps(v, 1);
    assert(declaring == step(v)) by {
        assert(steps(v, 0) == v);
    }
    lemma_order_keeps_length(v.combatants);
    lemma_phase_cycle(declaring, n);
    let resolving = steps(declaring, n);
    lemma_steps_add(v, 1, n);
    lemma_phase_cycle(resolving, n);
    lemma_steps_add(v, 1 + n, n);
    assert(1 + n + n == 1 + 2 * n);
}

/// Adding a combatant in order makes the list one longer.
pub proof fn lemma_insert_adds_one(s: Seq<Combatant>, c: Combatant)
    ensures
        sorted_insert(s, c).len() == s.len() + 1,
    decreases s.len(),
{
    if s.len() > 0 && acts_before(c, s.last()) {
        lemma_insert_adds_one(s.drop_last(), c);
    }
}

/// Putting a list in turn order keeps its length.
pub proof fn lemma_order_keeps_length(s: Seq<Combatant>)
    ensures
        initiative_order(s).len() == s.len(),
    decreases s.len(),
{
    if s.len() > 0 {
        lemma_order_keeps_length(s.drop_last());
        lemma_insert_adds_one(initiative_order(s.drop_last()), s.last());
    }
}

} // verus!
