//! Weighted pools and the sampler that draws one identifier from them.
//!
//! A pool lists its entries by ascending identifier. Each entry owns as many
//! consecutive tickets as its weight says, in that order; a draw is the owner
//! of one ticket. A pool whose weights are all zero is drawn from uniformly.

use rand::Rng;
use vstd::prelude::*;

verus! {

/// A pair of odds, in thousandths.
#[derive(Clone, Copy, Debug, PartialEq, Eq, Structural)]
pub struct Chance {
    pub success: u32,
    pub failure: u32,
}

/// What a weighting decides.
#[derive(Clone, Copy, Debug, PartialEq, Eq, Structural)]
pub enum ChanceKind {
    DEFAULT,
    LOOT,
    ENEMY,
    BACKGROUND,
}

/// One entry of a pool: an identifier and its relative weight.
#[derive(Clone, Copy, Debug, PartialEq, Eq, Structural)]
pub struct PoolEntry {
    pub id: usize,
    pub weight: u64,
}

/// Whether the identifiers strictly ascend, so that none occurs twice.
pub open spec fn ascending(s: Seq<PoolEntry>) -> bool {
    forall|i: int, j: int| 0 <= i < j < s.len() ==> s[i].id < s[j].id
}

/// Whether some entry carries the identifier.
pub open spec fn has_id(s: Seq<PoolEntry>, id: usize) -> bool {
    exists|i: int| 0 <= i < s.len() && s[i].id == id
}

/// Sum of the weights of the first `n` entries.
pub open spec fn weight_before(s: Seq<PoolEntry>, n: int) -> nat
    decreases n,
{
    if n <= 0 {
        0
    } else {
        weight_before(s, n - 1) + s[n - 1].weight as nat
    }
}

/// Sum of all weights.
pub open spec fn total_weight(s: Seq<PoolEntry>) -> nat {
    weight_before(s, s.len() as int)
}

/// Number of tickets a draw chooses among: the total weight, or the number
/// of entries where the total weight is zero.
pub open spec fn spec_span(s: Seq<PoolEntry>) -> nat {
    if total_weight(s) > 0 {
        total_weight(s)
    } else {
        s.len()
    }
}

/// Whether the ticket lies in the slice of tickets of entry `i`, the slices
/// being laid end to end in listing order.
pub open spec fn holds_ticket(s: Seq<PoolEntry>, i: int, ticket: nat) -> bool {
    0 <= i < s.len() && weight_before(s, i) <= ticket < weight_before(s, i + 1)
}

/// Index of the first entry at or after `from` whose running total exceeds
/// the ticket; the length where there is none.
pub open spec fn owner_from(s: Seq<PoolEntry>, ticket: nat, from: int) -> int
    decreases s.len() - from,
{
    if from >= s.len() {
        s.len() as int
    } else if ticket < weight_before(s, from + 1) {
        from
    } else {
        owner_from(s, ticket, from + 1)
    }
}

/// Index of the entry that owns the ticket.
pub open spec fn owner(s: Seq<PoolEntry>, ticket: nat) -> int {
    owner_from(s, ticket, 0)
}

/// The identifier drawn for a ticket. Tickets beyond the span wrap around.
pub open spec fn spec_draw(s: Seq<PoolEntry>, ticket: nat) -> Option<usize> {
    if s.len() == 0 {
        None
    } else if total_weight(s) == 0 {
        Some(s[(ticket % s.len()) as int].id)
    } else {
        Some(s[owner(s, ticket % total_weight(s))].id)
    }
}

/// Index of the first entry at or after `from` whose identifier is not below
/// `id`; the length where there is none.
pub open spec fn slot_from(s: Seq<PoolEntry>, id: usize, from: int) -> int
    decreases s.len() - from,
{
    if from >= s.len() {
        s.len() as int
    } else if s[from].id >= id {
        from
    } else {
        slot_from(s, id, from + 1)
    }
}

/// The weight listed for an identifier.
pub open spec fn spec_get(s: Seq<PoolEntry>, id: usize) -> Option<u64> {
    let k = slot_from(s, id, 0);
    if k < s.len() && s[k].id == id {
        Some(s[k].weight)
    } else {
        None
    }
}

/// The listing after `id` has been given `weight`: its entry is replaced
/// where it exists and put in its place where it does not.
pub open spec fn spec_insert(s: Seq<PoolEntry>, id: usize, weight: u64) -> Seq<PoolEntry> {
    let k = slot_from(s, id, 0);
    let entry = PoolEntry { id, weight };
    if k < s.len() && s[k].id == id {
        s.update(k, entry)
    } else {
        s.insert(k, entry)
    }
}

/// A running total never exceeds the largest weight times the number of
/// entries summed.
pub proof fn lemma_weight_bound(s: Seq<PoolEntry>, n: int)
    requires
        0 <= n <= s.len(),
    ensures
        weight_before(s, n) <= n * u64::MAX,
    decreases n,
{
    if n > 0 {
        lemma_weight_bound(s, n - 1);
        assert((n - 1) * u64::MAX + u64::MAX == n * u64::MAX) by (nonlinear_arith);
    }
}

/// Running totals never decrease.
pub proof fn lemma_weight_monotone(s: Seq<PoolEntry>, i: int, j: int)
    requires
        0 <= i <= j <= s.len(),
    ensures
        weight_before(s, i) <= weight_before(s, j),
    decreases j - i,
{
    if i < j {
        lemma_weight_monotone(s, i, j - 1);
    }
}

/// The slot found for an identifier lies in range, every entry before it has
/// a smaller identifier and the entry at it none.
pub proof fn lemma_slot(s: Seq<PoolEntry>, id: usize, from: int)
    requires
        0 <= from <= s.len(),
        forall|j: int| 0 <= j < from ==> s[j].id < id,
    ensures
        from <= slot_from(s, id, from) <= s.len(),
        forall|j: int| 0 <= j < slot_from(s, id, from) ==> s[j].id < id,
        slot_from(s, id, from) < s.len() ==> s[slot_from(s, id, from)].id >= id,
    decreases s.len() - from,
{
    if from < s.len() && s[from].id < id {
        lemma_slot(s, id, from + 1);
    }
}

/// Every ticket below the total weight has exactly one owner: the entry
/// whose slice of tickets, laid end to end in listing order, holds it.
pub proof fn lemma_owner_slice(s: Seq<PoolEntry>, ticket: nat, from: int)
    requires
        0 <= from <= s.len(),
        weight_before(s, from) <= ticket < total_weight(s),
    ensures
        from <= owner_from(s, ticket, from),
        holds_ticket(s, owner_from(s, ticket, from), ticket),
        forall|i: int| #[trigger] holds_ticket(s, i, ticket) ==> i == owner_from(s, ticket, from),
    decreases s.len() - from,
{
    if from < s.len() && ticket >= weight_before(s, from + 1) {
        lemma_owner_slice(s, ticket, from + 1);
    }
    let k = owner_from(s, ticket, from);
    assert forall|i: int| #[trigger] holds_ticket(s, i, ticket) implies i == k by {
        if i < k {
            lemma_weight_monotone(s, i + 1, k);
        } else if i > k {
            lemma_weight_monotone(s, k + 1, i);
        }
    }
}

/// A drawn identifier is always one of the pool's.
pub proof fn lemma_draw_is_listed(s: Seq<PoolEntry>, ticket: nat)
    ensures
        spec_draw(s, ticket) is None <==> s.len() == 0,
        spec_draw(s, ticket) matches Some(id) ==> has_id(s, id),
{
    if s.len() > 0 {
        if total_weight(s) == 0 {
            let i = (ticket % s.len()) as int;
            assert(0 <= i < s.len());
            assert(s[i].id == spec_draw(s, ticket)->0);
        } else {
            let t = ticket % total_weight(s);
            lemma_owner_slice(s, t, 0);
            let i = owner(s, t);
            assert(s[i].id == spec_draw(s, ticket)->0);
        }
    }
}

/// Among entries of one positive weight every entry owns the same number of
/// tickets: ticket `t` falls to entry `t / weight`. So a uniformly chosen
/// ticket draws each of the `N` identifiers with the same probability.
pub proof fn lemma_equal_weights_draw_evenly(s: Seq<PoolEntry>, weight: u64, ticket: nat)
    requires
        weight > 0,
        forall|i: int| 0 <= i < s.len() ==> s[i].weight == weight,
        ticket < s.len() * weight,
    ensures
        total_weight(s) == s.len() * weight,
        spec_draw(s, ticket) == Some(s[ticket as int / weight as int].id),
{
    lemma_equal_weights_total(s, weight, s.len() as int);
    let k = ticket as int / weight as int;
    assert(0 <= k < s.len() && k * weight <= ticket < (k + 1) * weight) by (nonlinear_arith)
        requires
            weight > 0,
            ticket < s.len() * weight,
            k == ticket as int / weight as int,
    ;
    lemma_equal_weights_total(s, weight, k);
    lemma_equal_weights_total(s, weight, k + 1);
    assert(ticket % total_weight(s) == ticket) by (nonlinear_arith)
        requires
            ticket < total_weight(s),
    ;
    lemma_owner_slice(s, ticket, 0);
    assert(holds_ticket(s, k, ticket));
}

/// Among entries of one weight the running total is that weight times the
/// number of entries summed.
pub proof fn lemma_equal_weights_total(s: Seq<PoolEntry>, weight: u64, n: int)
    requires
        0 <= n <= s.len(),
        forall|i: int| 0 <= i < s.len() ==> s[i].weight == weight,
    ensures
        weight_before(s, n) == n * weight,
    decreases n,
{
    if n > 0 {
        lemma_equal_weights_total(s, weight, n - 1);
        assert(s[n - 1].weight == weight);
        assert((n - 1) * weight + weight == n * weight) by (nonlinear_arith);
    } else {
        assert(n * weight == 0) by (nonlinear_arith)
            requires
                n == 0,
        ;
    }
}

/// A pool of weighted identifiers, listed by ascending identifier.
#[derive(Debug)]
pub struct Pool {
    entries: Vec<PoolEntry>,
}

impl View for Pool {
    type V = Seq<PoolEntry>;

    closed spec fn view(&self) -> Seq<PoolEntry> {
        self.entries@
    }
}

impl Pool {
    #[verifier::type_invariant]
    spec fn listed_in_order(self) -> bool {
        ascending(self.entries@)
    }

    /// A pool without entries.
    pub fn new() -> (pool: Pool)
        ensures
            pool@ == Seq::<PoolEntry>::empty(),
    {
        Pool { entries: Vec::new() }
    }

    /// Number of entries.
    pub fn len(&self) -> (n: usize)
        ensures
            n == self@.len(),
    {
        self.entries.len()
    }

    /// Whether the pool has no entry.
    pub fn is_empty(&self) -> (empty: bool)
        ensures
            empty == (self@.len() == 0),
    {
        self.entries.len() == 0
    }

    /// The entry at a place of the listing.
    pub fn entry(&self, index: usize) -> (entry: Option<PoolEntry>)
        ensures
            entry == if index < self@.len() {
                Some(self@[index as int])
            } else {
                None
            },
    {
        if index < self.entries.len() {
            Some(self.entries[index])
        } else {
            None
        }
    }

    fn slot(&self, id: usize) -> (k: usize)
        ensures
            k == slot_from(self@, id, 0),
            k <= self@.len(),
    {
        let mut k: usize = 0;
        while k < self.entries.len() && self.entries[k].id < id
            invariant
                k <= self.entries@.len(),
                slot_from(self.entries@, id, k as int) == slot_from(self.entries@, id, 0),
            decreases self.entries@.len() - k,
        {
            k += 1;
        }
        k
    }

    /// The weight listed for an identifier.
    pub fn get(&self, id: usize) -> (weight: Option<u64>)
        ensures
            weight == spec_get(self@, id),
            weight is Some <==> has_id(self@, id),
    {
        let k = self.slot(id);
        proof {
            use_type_invariant(self);
            lemma_slot(self@, id, 0);
            if k < self@.len() && self@[k as int].id == id {
                assert(has_id(self@, id));
            } else if has_id(self@, id) {
                let i = choose|i: int| 0 <= i < self@.len() && self@[i].id == id;
                assert(i >= k);
            }
        }
        if k < self.entries.len() && self.entries[k].id == id {
            Some(self.entries[k].weight)
        } else {
            None
        }
    }

    /// Gives `id` the weight `weight` and returns the weight it had.
    pub fn insert(&mut self, id: usize, weight: u64) -> (previous: Option<u64>)
        ensures
            final(self)@ == spec_insert(old(self)@, id, weight),
            previous == spec_get(old(self)@, id),
            ascending(final(self)@),
            has_id(final(self)@, id),
            forall|other: usize|
                other != id ==> (has_id(final(self)@, other) <==> has_id(old(self)@, other)),
    {
        let k = self.slot(id);
        let n = self.entries.len();
        let entry = PoolEntry { id, weight };
        let replaces = k < n && self.entries[k].id == id;
        let previous = if replaces {
            Some(self.entries[k].weight)
        } else {
            None
        };
        let rest = if replaces {
            k + 1
        } else {
            k
        };
        let ghost before = self@;
        let ghost after = spec_insert(before, id, weight);
        let mut entries: Vec<PoolEntry> = Vec::new();
        let mut i: usize = 0;
        while i < k
            invariant
                i <= k <= n,
                n == self.entries@.len(),
                entries@ == self.entries@.take(i as int),
            decreases k - i,
        {
            entries.push(self.entries[i]);
            i += 1;
        }
        entries.push(entry);
        let mut j: usize = rest;
        while j < n
            invariant
                rest <= j <= n,
                k <= rest <= k + 1,
                n == self.entries@.len(),
                entries@ == self.entries@.take(k as int).push(entry) + self.entries@.subrange(
                    rest as int,
                    j as int,
                ),
            decreases n - j,
        {
            entries.push(self.entries[j]);
            j += 1;
        }
        proof {
            use_type_invariant(&*self);
            lemma_slot(before, id, 0);
            assert(entries@ =~= after);
            assert(after[k as int].id == id);
            assert(ascending(after)) by {
                assert forall|a: int, b: int| 0 <= a < b < after.len() implies after[a].id
                    < after[b].id by {
                    let from_a = if a <= k {
                        a
                    } else {
                        a - (k + 1 - rest)
                    };
                    let from_b = if b <= k {
                        b
                    } else {
                        b - (k + 1 - rest)
                    };
                    if a != k && b != k {
                        assert(before[from_a].id < before[from_b].id);
                    }
                }
            }
            assert forall|other: usize| other != id implies (has_id(after, other) <==> has_id(
                before,
                other,
            )) by {
                if has_id(after, other) {
                    let a = choose|a: int| 0 <= a < after.len() && after[a].id == other;
                    let from_a = if a <= k {
                        a
                    } else {
                        a - (k + 1 - rest)
                    };
                    assert(before[from_a].id == other);
                }
                if has_id(before, other) {
                    let a = choose|a: int| 0 <= a < before.len() && before[a].id == other;
                    let to_a = if a < k {
                        a
                    } else {
                        a + (k + 1 - rest)
                    };
                    assert(after[to_a].id == other);
                }
            }
        }
        self.entries = entries;
        previous
    }

    /// Sum of all weights.
    pub fn total(&self) -> (sum: u128)
        ensures
            sum == total_weight(self@),
    {
        let mut sum: u128 = 0;
        let mut i: usize = 0;
        while i < self.entries.len()
            invariant
                i <= self.entries@.len(),
                sum == weight_before(self.entries@, i as int),
            decreases self.entries@.len() - i,
        {
            proof {
                lemma_weight_bound(self.entries@, i as int + 1);
                assert((i as int + 1) * u64::MAX <= u128::MAX) by (nonlinear_arith)
                    requires
                        0 <= i as int + 1 <= u64::MAX,
                ;
            }
            sum = sum + self.entries[i].weight as u128;
            i += 1;
        }
        sum
    }

    /// Number of tickets a draw chooses among; zero for an empty pool only.
    pub fn span(&self) -> (tickets: u128)
        ensures
            tickets == spec_span(self@),
            tickets == 0 <==> self@.len() == 0,
    {
        let total = self.total();
        if total > 0 {
            total
        } else {
            self.entries.len() as u128
        }
    }

    /// Draws the owner of a ticket: `None` from an empty pool, else the
    /// identifier whose slice of tickets holds `ticket`, wrapped into the
    /// span.
    pub fn draw(&self, ticket: u128) -> (drawn: Option<usize>)
        ensures
            drawn == spec_draw(self@, ticket as nat),
            drawn is None <==> self@.len() == 0,
            drawn matches Some(id) ==> has_id(self@, id),
    {
        proof {
            lemma_draw_is_listed(self@, ticket as nat);
        }
        let n = self.entries.len();
        if n == 0 {
            return None;
        }
        let total = self.total();
        if total == 0 {
            let i = (ticket % (n as u128)) as usize;
            return Some(self.entries[i].id);
        }
        let wrapped = ticket % total;
        let mut i: usize = 0;
        let mut seen: u128 = 0;
        while i < n
            invariant
                n == self.entries@.len(),
                i <= n,
                total == total_weight(self.entries@),
                wrapped == ticket % total,
                wrapped < total,
                seen == weight_before(self.entries@, i as int),
                seen <= wrapped,
                owner_from(self.entries@, wrapped as nat, i as int) == owner(
                    self.entries@,
                    wrapped as nat,
                ),
            decreases n - i,
        {
            proof {
                lemma_weight_monotone(self.entries@, i as int + 1, n as int);
            }
            let reach = seen + self.entries[i].weight as u128;
            assert(reach == weight_before(self.entries@, i as int + 1));
            if wrapped < reach {
                assert(owner_from(self.entries@, wrapped as nat, i as int) == i);
                return Some(self.entries[i].id);
            }
            seen = reach;
            i += 1;
        }
        proof {
            assert(false);
        }
        None
    }
}

impl Clone for Pool {
    fn clone(&self) -> (copy: Self)
        ensures
            copy@ == self@,
    {
        let mut entries: Vec<PoolEntry> = Vec::new();
        let mut i: usize = 0;
        while i < self.entries.len()
            invariant
                i <= self.entries@.len(),
                entries@ == self.entries@.take(i as int),
            decreases self.entries@.len() - i,
        {
            entries.push(self.entries[i]);
            i += 1;
        }
        proof {
            use_type_invariant(self);
            assert(entries@ == self.entries@);
        }
        Pool { entries }
    }
}

impl Default for Pool {
    fn default() -> (pool: Pool)
        ensures
            pool@ == Seq::<PoolEntry>::empty(),
    {
        Pool::new()
    }
}

/// What a weighting holds, as plain values.
pub struct WeightingView {
    pub kind: ChanceKind,
    pub chance: Chance,
    pub pool: Seq<PoolEntry>,
}

/// A pool tagged with what it decides.
#[derive(Debug)]
pub struct Weighting {
    pub kind: ChanceKind,
    pub chance: Chance,
    pub pool: Pool,
}

impl View for Weighting {
    type V = WeightingView;

    open spec fn view(&self) -> WeightingView {
        WeightingView { kind: self.kind, chance: self.chance, pool: self.pool@ }
    }
}

/// Draws a ticket below `span` from the thread's random generator: the call
/// `rand::thread_rng().gen_range(0..span)`, which panics on an empty range
/// and returns a value of the range otherwise. Nothing is claimed of which
/// value comes.
#[verifier::external_body]
fn roll(span: u128) -> (ticket: u128)
    requires
        span > 0,
    ensures
        ticket < span,
{
    rand::thread_rng().gen_range(0..span)
}

impl Weighting {
    pub fn new(success: u32, failure: u32, kind: ChanceKind, pool: Pool) -> (weighting: Self)
        ensures
            weighting@ == (WeightingView { kind, chance: Chance { success, failure }, pool: pool@ }),
    {
        Self { kind, chance: Chance { success, failure }, pool }
    }

    /// Draws one identifier with a ticket from the thread's random generator:
    /// `None` from an empty pool, else the owner of some ticket of the span.
    pub fn weigh(&self) -> (drawn: Option<usize>)
        ensures
            drawn is None <==> self@.pool.len() == 0,
            drawn matches Some(id) ==> has_id(self@.pool, id),
            drawn is Some ==> exists|ticket: u128|
                ticket < spec_span(self@.pool) && drawn == spec_draw(self@.pool, ticket as nat),
    {
        let span = self.pool.span();
        if span == 0 {
            return None;
        }
        let ticket = roll(span);
        self.weigh_with(ticket)
    }

    /// Draws the identifier that owns the given ticket.
    pub fn weigh_with(&self, ticket: u128) -> (drawn: Option<usize>)
        ensures
            drawn == spec_draw(self@.pool, ticket as nat),
            drawn is None <==> self@.pool.len() == 0,
            drawn matches Some(id) ==> has_id(self@.pool, id),
    {
        self.pool.draw(ticket)
    }
}

impl Clone for Weighting {
    fn clone(&self) -> (copy: Self)
        ensures
            copy@ == self@,
    {
        Weighting { kind: self.kind, chance: self.chance, pool: self.pool.clone() }
    }
}

impl Default for Weighting {
    fn default() -> (weighting: Self)
        ensures
            weighting@ == (WeightingView {
                kind: ChanceKind::DEFAULT,
                chance: Chance { success: 0, failure: 0 },
                pool: Seq::empty(),
            }),
    {
        Weighting {
            kind: ChanceKind::DEFAULT,
            chance: Chance { success: 0, failure: 0 },
            pool: Pool::new(),
        }
    }
}

/// The weightings of an area, in the order they were configured.
#[derive(Debug)]
pub struct Weightings(pub Vec<Weighting>);

impl View for Weightings {
    type V = Seq<WeightingView>;

    open spec fn view(&self) -> Seq<WeightingView> {
        Seq::new(self.0@.len(), |i: int| self.0@[i]@)
    }
}

impl Weightings {
    /// Index of the first weighting that decides an encounter, which is one
    /// of loot or of enemies.
    pub open spec fn spec_encounter_index(s: Seq<WeightingView>, from: int) -> int
        decreases s.len() - from,
    {
        if from >= s.len() {
            s.len() as int
        } else if s[from].kind == ChanceKind::LOOT || s[from].kind == ChanceKind::ENEMY {
            from
        } else {
            Self::spec_encounter_index(s, from + 1)
        }
    }

    /// The first weighting that decides an encounter.
    pub fn encounter_weighting(&self) -> (found: Option<&Weighting>)
        ensures
            match found {
                Some(w) => {
                    let k = Self::spec_encounter_index(self@, 0);
                    &&& 0 <= k < self@.len()
                    &&& w@ == self@[k]
                    &&& w.kind == ChanceKind::LOOT || w.kind == ChanceKind::ENEMY
                },
                None => Self::spec_encounter_index(self@, 0) == self@.len(),
            },
    {
        let mut i: usize = 0;
        while i < self.0.len()
            invariant
                i <= self.0@.len(),
                Self::spec_encounter_index(self@, i as int) == Self::spec_encounter_index(self@, 0),
            decreases self.0@.len() - i,
        {
            let kind = self.0[i].kind;
            if kind == ChanceKind::LOOT || kind == ChanceKind::ENEMY {
                return Some(&self.0[i]);
            }
            i += 1;
        }
        None
    }
}

impl Clone for Weightings {
    fn clone(&self) -> (copy: Self)
        ensures
            copy@ == self@,
    {
        let mut list: Vec<Weighting> = Vec::new();
        let mut i: usize = 0;
        while i < self.0.len()
            invariant
                i <= self.0@.len(),
                list@.len() == i,
                forall|j: int| 0 <= j < i ==> list@[j]@ == self.0@[j]@,
            decreases self.0@.len() - i,
        {
            list.push(self.0[i].clone());
            i += 1;
        }
        let copy = Weightings(list);
        assert(copy@ =~= self@);
        copy
    }
}

impl Default for Weightings {
    fn default() -> (weightings: Self)
        ensures
            weightings@ == Seq::<WeightingView>::empty(),
    {
        let weightings = Weightings(Vec::new());
        assert(weightings@ =~= Seq::<WeightingView>::empty());
        weightings
    }
}

} // verus!
