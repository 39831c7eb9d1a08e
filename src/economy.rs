use vstd::prelude::*;
use vstd::arithmetic::div_mod::lemma_fundamental_div_mod_converse;

verus! {

/// Food units that a nest spends on one new ant.
pub const ANT_COST: u16 = 5;

/// Food units a freshly placed nest starts with.
pub const NEST_START_FOOD: u16 = 50;

/// Food units a freshly placed food source holds.
pub const SOURCE_START_FOOD: u16 = 5;

/// Food units one feed signal adds to a nest.
pub const FEED_AMOUNT: u16 = 1;

/// A depletable amount of food, held by nests, food sources and ants.
#[derive(Clone, Copy, Debug, PartialEq, Eq, Structural)]
pub struct FoodStore(pub u16);

/// What a spawn request asks to create.
#[derive(Clone, Copy, Debug, PartialEq, Eq, Structural)]
pub enum SpawnKind {
    Ant,
    Food,
    Nest,
}

/// A request to create an agent at `position`, realised at the end of a tick.
#[derive(Clone, Copy, Debug)]
pub struct SpawnEvent<P> {
    pub kind: SpawnKind,
    pub position: P,
}

impl<P: Copy> SpawnEvent<P> {
    pub fn new(kind: SpawnKind, position: P) -> (r: Self)
        ensures
            r.kind == kind,
            r.position == position,
    {
        SpawnEvent { kind, position }
    }

    /// Where the new agent is placed.
    pub fn pos(&self) -> (r: P)
        ensures
            r == self.position,
    {
        self.position
    }
}

/// The request for one ant at `position`.
pub open spec fn ant_event<P>(position: P) -> SpawnEvent<P> {
    SpawnEvent { kind: SpawnKind::Ant, position }
}

/// A fixed-position food source holding a depletable reserve.
#[derive(Clone, Copy, Debug)]
pub struct Food<P> {
    pub store: FoodStore,
    pub position: P,
}

impl<P: Copy> Food<P> {
    /// A food source at `position` holding the starting reserve.
    pub fn new(position: P) -> (r: Self)
        ensures
            r.store == FoodStore(SOURCE_START_FOOD),
            r.position == position,
    {
        Food { store: FoodStore(SOURCE_START_FOOD), position }
    }
}

/// A fixed-position food accumulator that turns stored food into ants.
#[derive(Clone, Copy, Debug)]
pub struct Nest<P> {
    pub store: FoodStore,
    pub position: P,
}

impl<P: Copy> Nest<P> {
    /// A nest at `position` holding the starting amount of food.
    pub fn new(position: P) -> (r: Self)
        ensures
            r.store == FoodStore(NEST_START_FOOD),
            r.position == position,
    {
        Nest { store: FoodStore(NEST_START_FOOD), position }
    }

    /// Adds `amount` units of food to the nest.
    pub fn feed(&mut self, amount: u16)
        requires
            old(self).store.0 + amount <= u16::MAX,
        ensures
            final(self).store.0 == old(self).store.0 + amount,
            final(self).position == old(self).position,
    {
        self.store = FoodStore(self.store.0 + amount);
    }

    /// Spends the stored food on as many ants as it pays for, `cost` units
    /// each, appending one ant request at the nest's position per ant.
    pub fn spawn_ants(&mut self, cost: u16, requests: &mut Vec<SpawnEvent<P>>)
        requires
            cost > 0,
        ensures
            final(self).store.0 == old(self).store.0 % cost,
            final(self).position == old(self).position,
            final(requests)@.len() == old(requests)@.len() + old(self).store.0 / cost,
            final(requests)@.subrange(0, old(requests)@.len() as int) == old(requests)@,
            forall|i: int|
                old(requests)@.len() <= i < final(requests)@.len() ==> #[trigger] final(requests)@[i]
                    == ant_event(old(self).position),
    {
        let ghost start = self.store.0;
        let ghost base = requests@.len();
        while self.store.0 >= cost
            invariant
                cost > 0,
                self.position == old(self).position,
                start == old(self).store.0,
                base == old(requests)@.len(),
                requests@.len() >= base,
                start == (requests@.len() - base) * cost + self.store.0,
                requests@.subrange(0, base as int) == old(requests)@,
                forall|i: int|
                    base <= i < requests@.len() ==> #[trigger] requests@[i] == ant_event(old(self).position),
            decreases self.store.0,
        {
            let ghost made = (requests@.len() - base) as int;
            self.store = FoodStore(self.store.0 - cost);
            requests.push(SpawnEvent { kind: SpawnKind::Ant, position: self.position });
            proof {
                assert((made + 1) * cost == made * cost + cost) by (nonlinear_arith);
                assert(requests@.subrange(0, base as int) =~= old(requests)@);
            }
        }
        proof {
            lemma_fundamental_div_mod_converse(
                start as int,
                cost as int,
                (requests@.len() - base) as int,
                self.store.0 as int,
            );
        }
    }
}

/// The ant requests the first `k` nests emit in one spawn pass, in nest order.
pub open spec fn nest_events<P>(nests: Seq<Nest<P>>, cost: int, k: int) -> Seq<SpawnEvent<P>>
    decreases k,
{
    if k <= 0 {
        Seq::empty()
    } else {
        nest_events(nests, cost, k - 1) + Seq::new(
            (nests[k - 1].store.0 as int / cost) as nat,
            |i: int| ant_event(nests[k - 1].position),
        )
    }
}

/// Lets every nest spend its stored food on ants, `cost` units each,
/// appending their requests nest by nest.
pub fn spawn_from_nests<P: Copy>(nests: &mut Vec<Nest<P>>, cost: u16, requests: &mut Vec<SpawnEvent<P>>)
    requires
        cost > 0,
    ensures
        final(nests)@.len() == old(nests)@.len(),
        forall|i: int|
            0 <= i < old(nests)@.len() ==> (#[trigger] final(nests)@[i]).store.0 == old(nests)@[i].store.0
                % cost && final(nests)@[i].position == old(nests)@[i].position,
        final(requests)@ == old(requests)@ + nest_events(old(nests)@, cost as int, old(nests)@.len() as int),
{
    let ghost nests0 = nests@;
    let ghost requests0 = requests@;
    let mut i: usize = 0;
    while i < nests.len()
        invariant
            cost > 0,
            nests@.len() == nests0.len(),
            i <= nests0.len(),
            forall|j: int|
                0 <= j < i ==> (#[trigger] nests@[j]).store.0 == nests0[j].store.0 % cost
                    && nests@[j].position == nests0[j].position,
            forall|j: int| i <= j < nests0.len() ==> #[trigger] nests@[j] == nests0[j],
            requests@ == requests0 + nest_events(nests0, cost as int, i as int),
        decreases nests0.len() - i,
    {
        let mut nest = nests[i];
        let ghost mid = requests@;
        nest.spawn_ants(cost, requests);
        nests.set(i, nest);
        proof {
            let made = Seq::new(
                (nests0[i as int].store.0 as int / cost as int) as nat,
                |k: int| ant_event(nests0[i as int].position),
            );
            assert(requests@ =~= mid + made);
            assert(requests@ =~= requests0 + nest_events(nests0, cost as int, i + 1));
        }
        i = i + 1;
    }
}

/// Adds `amount` units of food to every nest.
pub fn feed_nests<P: Copy>(nests: &mut Vec<Nest<P>>, amount: u16)
    requires
        forall|i: int| 0 <= i < old(nests)@.len() ==> (#[trigger] old(nests)@[i]).store.0 + amount <= u16::MAX,
    ensures
        final(nests)@.len() == old(nests)@.len(),
        forall|i: int|
            0 <= i < old(nests)@.len() ==> (#[trigger] final(nests)@[i]).store.0 == old(nests)@[i].store.0
                + amount && final(nests)@[i].position == old(nests)@[i].position,
{
    let ghost nests0 = nests@;
    let mut i: usize = 0;
    while i < nests.len()
        invariant
            nests@.len() == nests0.len(),
            i <= nests0.len(),
            forall|j: int| 0 <= j < nests0.len() ==> (#[trigger] nests0[j]).store.0 + amount <= u16::MAX,
            forall|j: int|
                0 <= j < i ==> (#[trigger] nests@[j]).store.0 == nests0[j].store.0 + amount
                    && nests@[j].position == nests0[j].position,
            forall|j: int| i <= j < nests0.len() ==> #[trigger] nests@[j] == nests0[j],
        decreases nests0.len() - i,
    {
        let mut nest = nests[i];
        nest.feed(amount);
        nests.set(i, nest);
        i = i + 1;
    }
}

/// Whether food source `s` overlaps consumer `c` in the overlap table.
pub open spec fn overlaps(table: Seq<Vec<bool>>, s: int, c: int) -> bool {
    0 <= s < table.len() && 0 <= c < table[s]@.len() && table[s]@[c]
}

/// The first consumer at or after `c`, below `n`, that source `s` overlaps.
pub open spec fn first_overlap_from(table: Seq<Vec<bool>>, s: int, n: int, c: int) -> Option<int>
    decreases n - c,
{
    if c >= n {
        None
    } else if overlaps(table, s, c) {
        Some(c)
    } else {
        first_overlap_from(table, s, n, c + 1)
    }
}

/// The consumer that takes source `s`'s food, if any: the first of the `n`
/// consumers that it overlaps, provided the source still holds food.
pub open spec fn taker(sources: Seq<FoodStore>, table: Seq<Vec<bool>>, n: int, s: int) -> Option<
    int,
> {
    if sources[s].0 == 0 {
        None
    } else {
        first_overlap_from(table, s, n, 0)
    }
}

/// Food that consumer `c` receives from the first `k` sources.
pub open spec fn gained(
    sources: Seq<FoodStore>,
    table: Seq<Vec<bool>>,
    n: int,
    c: int,
    k: int,
) -> nat
    decreases k,
{
    if k <= 0 {
        0
    } else {
        gained(sources, table, n, c, k - 1) + if taker(sources, table, n, k - 1) == Some(c) {
            sources[k - 1].0 as nat
        } else {
            0
        }
    }
}

/// Indices, in increasing order, of the first `k` sources that overlap one
/// of the `n` consumers: the sources a consumption pass removes.
pub open spec fn consumed(table: Seq<Vec<bool>>, n: int, k: int) -> Seq<usize>
    decreases k,
{
    if k <= 0 {
        Seq::empty()
    } else if first_overlap_from(table, k - 1, n, 0) is Some {
        consumed(table, n, k - 1).push((k - 1) as usize)
    } else {
        consumed(table, n, k - 1)
    }
}

/// A source's store once a consumption pass has run.
pub open spec fn store_after(sources: Seq<FoodStore>, table: Seq<Vec<bool>>, n: int, s: int) -> FoodStore {
    if taker(sources, table, n, s).is_some() {
        FoodStore(0)
    } else {
        sources[s]
    }
}

/// Whether every consumer can take what a pass hands it without overflow.
pub open spec fn consumption_fits(
    consumers: Seq<FoodStore>,
    sources: Seq<FoodStore>,
    table: Seq<Vec<bool>>,
) -> bool {
    forall|c: int|
        0 <= c < consumers.len() ==> consumers[c].0 + #[trigger] gained(
            sources,
            table,
            consumers.len() as int,
            c,
            sources.len() as int,
        ) <= u16::MAX
}

proof fn lemma_gained_monotonic(
    sources: Seq<FoodStore>,
    table: Seq<Vec<bool>>,
    n: int,
    c: int,
    j: int,
    k: int,
)
    requires
        j <= k,
    ensures
        gained(sources, table, n, c, j) <= gained(sources, table, n, c, k),
    decreases k - j,
{
    if j < k {
        lemma_gained_monotonic(sources, table, n, c, j, k - 1);
    }
}

/// Finds the first of the `n` consumers that source `s` overlaps.
fn first_overlap(table: &Vec<Vec<bool>>, s: usize, n: usize) -> (r: Option<usize>)
    ensures
        r matches Some(c) ==> c < n && first_overlap_from(table@, s as int, n as int, 0) == Some(
            c as int,
        ),
        r is None ==> first_overlap_from(table@, s as int, n as int, 0) is None,
{
    if s >= table.len() {
        let ghost t = table@;
        assert forall|c: int| 0 <= c <= n implies first_overlap_from(t, s as int, n as int, c) is None by {
            lemma_no_overlap_from(t, s as int, n as int, c);
        }
        return None;
    }
    let row = &table[s];
    let mut c: usize = 0;
    while c < n
        invariant
            s < table@.len(),
            row == &table@[s as int],
            c <= n,
            first_overlap_from(table@, s as int, n as int, 0) == first_overlap_from(
                table@,
                s as int,
                n as int,
                c as int,
            ),
        decreases n - c,
    {
        if c < row.len() && row[c] {
            return Some(c);
        }
        c = c + 1;
    }
    None
}

proof fn lemma_no_overlap_from(table: Seq<Vec<bool>>, s: int, n: int, c: int)
    requires
        !(0 <= s < table.len()),
    ensures
        first_overlap_from(table, s, n, c) is None,
    decreases n - c,
{
    if c < n {
        lemma_no_overlap_from(table, s, n, c + 1);
    }
}

/// Moves the food of every source that overlaps a consumer into the first
/// consumer it overlaps (`table[s][c]` says whether source `s` overlaps
/// consumer `c`), leaving the source empty. Returns the indices of all the
/// sources that overlap a consumer, which are due for removal; one that is
/// already empty hands on nothing, so no food moves twice.
pub fn consume_food(
    consumers: &mut Vec<FoodStore>,
    sources: &mut Vec<FoodStore>,
    table: &Vec<Vec<bool>>,
) -> (removed: Vec<usize>)
    requires
        consumption_fits(old(consumers)@, old(sources)@, table@),
    ensures
        final(consumers)@.len() == old(consumers)@.len(),
        forall|c: int|
            0 <= c < old(consumers)@.len() ==> #[trigger] final(consumers)@[c].0 == old(
                consumers,
            )@[c].0 + gained(
                old(sources)@,
                table@,
                old(consumers)@.len() as int,
                c,
                old(sources)@.len() as int,
            ),
        final(sources)@.len() == old(sources)@.len(),
        forall|s: int|
            0 <= s < old(sources)@.len() ==> #[trigger] final(sources)@[s] == store_after(
                old(sources)@,
                table@,
                old(consumers)@.len() as int,
                s,
            ),
        removed@ == consumed(table@, old(consumers)@.len() as int, old(sources)@.len() as int),
{
    let ghost cons0 = consumers@;
    let ghost src0 = sources@;
    let n = consumers.len();
    let mut removed: Vec<usize> = Vec::new();
    let mut s: usize = 0;
    while s < sources.len()
        invariant
            consumption_fits(cons0, src0, table@),
            n == cons0.len(),
            consumers@.len() == n,
            sources@.len() == src0.len(),
            s <= src0.len(),
            forall|c: int|
                0 <= c < n ==> #[trigger] consumers@[c].0 == cons0[c].0 + gained(
                    src0,
                    table@,
                    n as int,
                    c,
                    s as int,
                ),
            forall|j: int| 0 <= j < s ==> #[trigger] sources@[j] == store_after(src0, table@, n as int, j),
            forall|j: int| s <= j < src0.len() ==> #[trigger] sources@[j] == src0[j],
            removed@ == consumed(table@, n as int, s as int),
        decreases src0.len() - s,
    {
        let amount = sources[s].0;
        match first_overlap(table, s, n) {
            Some(c) => {
                if amount > 0 {
                    proof {
                        assert(taker(src0, table@, n as int, s as int) == Some(c as int));
                        lemma_gained_monotonic(src0, table@, n as int, c as int, s as int + 1, src0.len() as int);
                        assert(cons0[c as int].0 + gained(src0, table@, n as int, c as int, src0.len() as int) <= u16::MAX);
                    }
                    let total = consumers[c].0 + amount;
                    consumers.set(c, FoodStore(total));
                    sources.set(s, FoodStore(0));
                }
                removed.push(s);
            }
            None => {}
        }
        s = s + 1;
    }
    removed
}

/// Whether a consumption pass fits: no consumer would hold more than a store
/// can count.
pub fn can_consume(consumers: &Vec<FoodStore>, sources: &Vec<FoodStore>, table: &Vec<Vec<bool>>) -> (r:
    bool)
    ensures
        r == consumption_fits(consumers@, sources@, table@),
{
    let n = consumers.len();
    let mut totals: Vec<u16> = Vec::new();
    let mut c: usize = 0;
    while c < n
        invariant
            n == consumers@.len(),
            c <= n,
            totals@.len() == c,
            forall|i: int| 0 <= i < c ==> #[trigger] totals@[i] == consumers@[i].0,
        decreases n - c,
    {
        totals.push(consumers[c].0);
        c = c + 1;
    }
    let mut s: usize = 0;
    while s < sources.len()
        invariant
            n == consumers@.len(),
            totals@.len() == n,
            s <= sources@.len(),
            forall|i: int|
                0 <= i < n ==> #[trigger] totals@[i] == consumers@[i].0 + gained(
                    sources@,
                    table@,
                    n as int,
                    i,
                    s as int,
                ),
        decreases sources@.len() - s,
    {
        let amount = sources[s].0;
        if amount > 0 {
            match first_overlap(table, s, n) {
                Some(c) => {
                    if totals[c] > u16::MAX - amount {
                        proof {
                            lemma_gained_monotonic(sources@, table@, n as int, c as int, s as int + 1, sources@.len() as int);
                            assert(consumers@[c as int].0 + gained(sources@, table@, n as int, c as int, sources@.len() as int) > u16::MAX);
                        }
                        return false;
                    }
                    let total = totals[c] + amount;
                    totals.set(c, total);
                }
                None => {}
            }
        }
        s = s + 1;
    }
    assert forall|i: int| 0 <= i < n implies consumers@[i].0 + #[trigger] gained(
        sources@,
        table@,
        n as int,
        i,
        sources@.len() as int,
    ) <= u16::MAX by {
        assert(totals@[i] == consumers@[i].0 + gained(sources@, table@, n as int, i, s as int));
    }
    true
}

/// Consumption happens once: a second pass over the sources as a first pass
/// left them, against the same overlaps, moves no food into any consumer and
/// leaves every source as it is.
pub proof fn lemma_consume_once(
    sources: Seq<FoodStore>,
    table: Seq<Vec<bool>>,
    n: int,
    after: Seq<FoodStore>,
)
    requires
        after.len() == sources.len(),
        forall|s: int| 0 <= s < sources.len() ==> #[trigger] after[s] == store_after(sources, table, n, s),
    ensures
        forall|c: int| #[trigger] gained(after, table, n, c, after.len() as int) == 0,
        forall|s: int| 0 <= s < after.len() ==> #[trigger] store_after(after, table, n, s) == after[s],
{
    assert forall|s: int| 0 <= s < after.len() implies #[trigger] taker(after, table, n, s) is None by {
        assert(after[s] == store_after(sources, table, n, s));
    }
    assert forall|c: int| #[trigger] gained(after, table, n, c, after.len() as int) == 0 by {
        lemma_nothing_gained(after, table, n, c, after.len() as int);
    }
}

proof fn lemma_nothing_gained(sources: Seq<FoodStore>, table: Seq<Vec<bool>>, n: int, c: int, k: int)
    requires
        k <= sources.len(),
        forall|s: int| 0 <= s < sources.len() ==> #[trigger] taker(sources, table, n, s) is None,
    ensures
        gained(sources, table, n, c, k) == 0,
    decreases k,
{
    if k > 0 {
        assert(taker(sources, table, n, k - 1) is None);
        lemma_nothing_gained(sources, table, n, c, k - 1);
    }
}

/// Total food held in `stores`.
pub open spec fn total(stores: Seq<FoodStore>) -> nat
    decreases stores.len(),
{
    if stores.len() == 0 {
        0
    } else {
        total(stores.drop_last()) + stores.last().0 as nat
    }
}

/// Food handed on by the first `k` sources, to whichever consumer takes it.
pub open spec fn handed_on(sources: Seq<FoodStore>, table: Seq<Vec<bool>>, n: int, k: int) -> nat
    decreases k,
{
    if k <= 0 {
        0
    } else {
        handed_on(sources, table, n, k - 1) + if taker(sources, table, n, k - 1) is Some {
            sources[k - 1].0 as nat
        } else {
            0
        }
    }
}

/// Food that the first `m` consumers receive from the first `k` sources.
pub open spec fn gained_by_first(
    sources: Seq<FoodStore>,
    table: Seq<Vec<bool>>,
    n: int,
    m: int,
    k: int,
) -> nat
    decreases m,
{
    if m <= 0 {
        0
    } else {
        gained_by_first(sources, table, n, m - 1, k) + gained(sources, table, n, m - 1, k)
    }
}

proof fn lemma_first_overlap_below(table: Seq<Vec<bool>>, s: int, n: int, c: int)
    ensures
        first_overlap_from(table, s, n, c) matches Some(d) ==> c <= d < n,
    decreases n - c,
{
    if c < n {
        lemma_first_overlap_below(table, s, n, c + 1);
    }
}

/// What one source adds to the first `m` consumers: its food if its taker is
/// among them.
proof fn lemma_one_source_to_first(
    sources: Seq<FoodStore>,
    table: Seq<Vec<bool>>,
    n: int,
    m: int,
    k: int,
)
    requires
        k >= 1,
    ensures
        gained_by_first(sources, table, n, m, k) == gained_by_first(sources, table, n, m, k - 1)
            + if taker(sources, table, n, k - 1) matches Some(c) && 0 <= c < m {
            sources[k - 1].0 as nat
        } else {
            0
        },
    decreases m,
{
    if m > 0 {
        lemma_one_source_to_first(sources, table, n, m - 1, k);
    }
}

proof fn lemma_gained_by_all(sources: Seq<FoodStore>, table: Seq<Vec<bool>>, n: int, k: int)
    requires
        n >= 0,
    ensures
        gained_by_first(sources, table, n, n, k) == handed_on(sources, table, n, k),
    decreases k,
{
    if k <= 0 {
        lemma_nothing_by_first(sources, table, n, n, k);
    } else {
        lemma_gained_by_all(sources, table, n, k - 1);
        lemma_one_source_to_first(sources, table, n, n, k);
        if sources[k - 1].0 != 0 {
            lemma_first_overlap_below(table, k - 1, n, 0);
        }
    }
}

proof fn lemma_nothing_by_first(sources: Seq<FoodStore>, table: Seq<Vec<bool>>, n: int, m: int, k: int)
    requires
        k <= 0,
    ensures
        gained_by_first(sources, table, n, m, k) == 0,
    decreases m,
{
    if m > 0 {
        lemma_nothing_by_first(sources, table, n, m - 1, k);
    }
}

proof fn lemma_total_consumers(
    before: Seq<FoodStore>,
    after: Seq<FoodStore>,
    sources: Seq<FoodStore>,
    table: Seq<Vec<bool>>,
    n: int,
    m: int,
)
    requires
        0 <= m <= before.len(),
        before.len() == after.len(),
        forall|c: int|
            0 <= c < before.len() ==> #[trigger] after[c].0 == before[c].0 + gained(
                sources,
                table,
                n,
                c,
                sources.len() as int,
            ),
    ensures
        total(after.subrange(0, m)) == total(before.subrange(0, m)) + gained_by_first(
            sources,
            table,
            n,
            m,
            sources.len() as int,
        ),
    decreases m,
{
    if m > 0 {
        lemma_total_consumers(before, after, sources, table, n, m - 1);
        assert(after.subrange(0, m).drop_last() =~= after.subrange(0, m - 1));
        assert(before.subrange(0, m).drop_last() =~= before.subrange(0, m - 1));
    }
}

proof fn lemma_total_sources(
    sources: Seq<FoodStore>,
    after: Seq<FoodStore>,
    table: Seq<Vec<bool>>,
    n: int,
    k: int,
)
    requires
        0 <= k <= sources.len(),
        sources.len() == after.len(),
        forall|s: int| 0 <= s < sources.len() ==> #[trigger] after[s] == store_after(sources, table, n, s),
    ensures
        total(sources.subrange(0, k)) == total(after.subrange(0, k)) + handed_on(sources, table, n, k),
    decreases k,
{
    if k > 0 {
        lemma_total_sources(sources, after, table, n, k - 1);
        assert(after.subrange(0, k).drop_last() =~= after.subrange(0, k - 1));
        assert(sources.subrange(0, k).drop_last() =~= sources.subrange(0, k - 1));
        assert(after[k - 1] == store_after(sources, table, n, k - 1));
    }
}

/// Consumption moves food and never makes or loses any: the food held by
/// consumers and sources together is the same after a pass as before it.
pub proof fn lemma_consume_conserves(
    consumers: Seq<FoodStore>,
    sources: Seq<FoodStore>,
    table: Seq<Vec<bool>>,
    consumers_after: Seq<FoodStore>,
    sources_after: Seq<FoodStore>,
)
    requires
        consumers_after.len() == consumers.len(),
        forall|c: int|
            0 <= c < consumers.len() ==> #[trigger] consumers_after[c].0 == consumers[c].0 + gained(
                sources,
                table,
                consumers.len() as int,
                c,
                sources.len() as int,
            ),
        sources_after.len() == sources.len(),
        forall|s: int|
            0 <= s < sources.len() ==> #[trigger] sources_after[s] == store_after(
                sources,
                table,
                consumers.len() as int,
                s,
            ),
    ensures
        total(consumers_after) + total(sources_after) == total(consumers) + total(sources),
{
    let n = consumers.len() as int;
    lemma_total_consumers(consumers, consumers_after, sources, table, n, n);
    lemma_total_sources(sources, sources_after, table, n, sources.len() as int);
    lemma_gained_by_all(sources, table, n, sources.len() as int);
    assert(consumers.subrange(0, n) =~= consumers);
    assert(consumers_after.subrange(0, n) =~= consumers_after);
    assert(sources.subrange(0, sources.len() as int) =~= sources);
    assert(sources_after.subrange(0, sources.len() as int) =~= sources_after);
}

} // verus!
