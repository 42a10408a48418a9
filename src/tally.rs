use vstd::prelude::*;
use crate::fields::MONEY_BOUND;

verus! {

/// No row adds more than this to any one sum (one fee may add two fields).
pub const ROW_BOUND: i128 = 2 * MONEY_BOUND;

/// Rows that an aggregate may hold at most.
pub const MAX_ROWS: u64 = 0xffff_ffff_ffff_ffff;

/// Running sums over a group of rows: how many, their amount, their
/// commission, and two fees whose meaning depends on the rollup.
#[derive(Clone, Copy, Debug)]
pub struct Tally {
    pub count: u64,
    pub amount: i128,
    pub commission: i128,
    pub fee_a: i128,
    pub fee_b: i128,
}

/// A tally as numbers: (count, amount, commission, fee_a, fee_b).
pub type TallyV = (int, int, int, int, int);

pub open spec fn zero_tally() -> TallyV {
    (0, 0, 0, 0, 0)
}

pub open spec fn tally_add(a: TallyV, b: TallyV) -> TallyV {
    (a.0 + b.0, a.1 + b.1, a.2 + b.2, a.3 + b.3, a.4 + b.4)
}

/// Sums that `rows` rows can reach.
pub open spec fn within(x: int, rows: nat) -> bool {
    -(rows * ROW_BOUND) <= x <= rows * ROW_BOUND
}

pub open spec fn tally_within(t: TallyV, rows: nat) -> bool {
    &&& 0 <= t.0 <= rows
    &&& within(t.1, rows)
    &&& within(t.2, rows)
    &&& within(t.3, rows)
    &&& within(t.4, rows)
}

/// The key of a table row: a day, or a name and a payment system.
pub type KeyV = (int, Seq<char>, Seq<char>);

pub open spec fn get_or_zero(m: Map<KeyV, TallyV>, k: KeyV) -> TallyV {
    if m.contains_key(k) { m[k] } else { zero_tally() }
}

/// Adds `t` at key `k`, which is created when absent.
pub open spec fn map_add_one(m: Map<KeyV, TallyV>, k: KeyV, t: TallyV) -> Map<KeyV, TallyV> {
    m.insert(k, tally_add(get_or_zero(m, k), t))
}

/// Key-wise sum of two tables.
pub open spec fn map_sum(a: Map<KeyV, TallyV>, b: Map<KeyV, TallyV>) -> Map<KeyV, TallyV> {
    Map::new(
        |k: KeyV| a.contains_key(k) || b.contains_key(k),
        |k: KeyV| tally_add(get_or_zero(a, k), get_or_zero(b, k)),
    )
}

pub open spec fn map_within(m: Map<KeyV, TallyV>, rows: nat) -> bool {
    forall|k: KeyV| m.contains_key(k) ==> tally_within(#[trigger] m[k], rows)
}

impl Tally {
    pub open spec fn view(&self) -> TallyV {
        (self.count as int, self.amount as int, self.commission as int, self.fee_a as int, self.fee_b as int)
    }

    pub fn zero() -> (r: Tally)
        ensures
            r.view() == zero_tally(),
    {
        Tally { count: 0, amount: 0, commission: 0, fee_a: 0, fee_b: 0 }
    }

    pub fn plus(&self, o: &Tally, Ghost(ra): Ghost<nat>, Ghost(rb): Ghost<nat>) -> (r: Tally)
        requires
            tally_within(self.view(), ra),
            tally_within(o.view(), rb),
            ra + rb <= MAX_ROWS,
        ensures
            r.view() == tally_add(self.view(), o.view()),
            tally_within(r.view(), ra + rb),
    {
        proof {
            assert((ra + rb) * ROW_BOUND <= MAX_ROWS * ROW_BOUND) by (nonlinear_arith)
                requires ra + rb <= MAX_ROWS;
            assert(ra * ROW_BOUND + rb * ROW_BOUND == (ra + rb) * ROW_BOUND) by (nonlinear_arith);
        }
        Tally {
            count: self.count + o.count,
            amount: self.amount + o.amount,
            commission: self.commission + o.commission,
            fee_a: self.fee_a + o.fee_a,
            fee_b: self.fee_b + o.fee_b,
        }
    }
}

pub struct TableEntry {
    pub day: i64,
    pub name: String,
    pub system: String,
    pub tally: Tally,
}

impl TableEntry {
    pub open spec fn key(&self) -> KeyV {
        (self.day as int, self.name@, self.system@)
    }
}

/// Tallies by key, in order of first appearance; each key once.
pub struct TallyTable {
    pub entries: Vec<TableEntry>,
}

pub open spec fn keys_unique(e: Seq<TableEntry>) -> bool {
    forall|i: int, j: int| 0 <= i < e.len() && 0 <= j < e.len() && i != j ==> #[trigger] e[i].key() != #[trigger] e[j].key()
}

pub open spec fn has_key(e: Seq<TableEntry>, k: KeyV) -> bool {
    exists|i: int| 0 <= i < e.len() && #[trigger] e[i].key() == k
}

pub open spec fn index_of(e: Seq<TableEntry>, k: KeyV) -> int {
    choose|i: int| 0 <= i < e.len() && #[trigger] e[i].key() == k
}

/// The table as a map from key to tally.
pub open spec fn entries_view(e: Seq<TableEntry>) -> Map<KeyV, TallyV> {
    Map::new(|k: KeyV| has_key(e, k), |k: KeyV| e[index_of(e, k)].tally.view())
}

proof fn lemma_index_of(e: Seq<TableEntry>, i: int)
    requires
        keys_unique(e),
        0 <= i < e.len(),
    ensures
        has_key(e, e[i].key()),
        index_of(e, e[i].key()) == i,
{
    assert(has_key(e, e[i].key()));
    let j = index_of(e, e[i].key());
    if j != i {
        assert(e[i].key() != e[j].key());
    }
}

pub proof fn lemma_add_one_within(m: Map<KeyV, TallyV>, k: KeyV, t: TallyV, rows: nat, more: nat)
    requires
        map_within(m, rows),
        tally_within(t, more),
    ensures
        map_within(map_add_one(m, k, t), rows + more),
{
    assert forall|kk: KeyV| #[trigger] map_add_one(m, k, t).contains_key(kk) implies tally_within(
        map_add_one(m, k, t)[kk],
        rows + more,
    ) by {
        if kk != k {
            assert(tally_within(m[kk], rows));
        } else if m.contains_key(k) {
            assert(tally_within(m[k], rows));
        }
    }
}

pub proof fn lemma_sum_within(a: Map<KeyV, TallyV>, b: Map<KeyV, TallyV>, ra: nat, rb: nat)
    requires
        map_within(a, ra),
        map_within(b, rb),
    ensures
        map_within(map_sum(a, b), ra + rb),
{
    assert forall|kk: KeyV| #[trigger] map_sum(a, b).contains_key(kk) implies tally_within(
        map_sum(a, b)[kk],
        ra + rb,
    ) by {
        if a.contains_key(kk) {
            assert(tally_within(a[kk], ra));
        }
        if b.contains_key(kk) {
            assert(tally_within(b[kk], rb));
        }
    }
}

proof fn lemma_sum_add_one(a: Map<KeyV, TallyV>, b: Map<KeyV, TallyV>, k: KeyV, t: TallyV)
    requires
        !b.contains_key(k),
    ensures
        map_sum(a, b.insert(k, t)) == map_add_one(map_sum(a, b), k, t),
{
    assert(map_sum(a, b.insert(k, t)) =~= map_add_one(map_sum(a, b), k, t));
}

proof fn lemma_entries_view_push(e: Seq<TableEntry>, x: TableEntry)
    requires
        keys_unique(e.push(x)),
    ensures
        keys_unique(e),
        !entries_view(e).contains_key(x.key()),
        entries_view(e.push(x)) == entries_view(e).insert(x.key(), x.tally.view()),
{
    let f = e.push(x);
    let n = e.len() as int;
    assert forall|a: int, b: int| 0 <= a < e.len() && 0 <= b < e.len() && a != b implies #[trigger] e[a].key() != #[trigger] e[b].key() by {
        assert(f[a] == e[a] && f[b] == e[b]);
    }
    if has_key(e, x.key()) {
        let j = choose|j: int| 0 <= j < e.len() && #[trigger] e[j].key() == x.key();
        assert(f[j].key() != f[n].key());
    }
    assert forall|kk: KeyV| has_key(f, kk) == (has_key(e, kk) || kk == x.key()) by {
        if has_key(f, kk) {
            let j = choose|j: int| 0 <= j < f.len() && #[trigger] f[j].key() == kk;
            if j < n {
                assert(e[j].key() == kk);
            }
        }
        if has_key(e, kk) {
            let j = choose|j: int| 0 <= j < e.len() && #[trigger] e[j].key() == kk;
            assert(f[j].key() == kk);
        }
        if kk == x.key() {
            assert(f[n].key() == kk);
        }
    }
    assert forall|kk: KeyV| has_key(f, kk) implies #[trigger] entries_view(f)[kk] == entries_view(e).insert(x.key(), x.tally.view())[kk] by {
        let j = choose|j: int| 0 <= j < f.len() && #[trigger] f[j].key() == kk;
        lemma_index_of(f, j);
        if j < n {
            assert(f[j] == e[j]);
            lemma_index_of(e, j);
        }
    }
    assert(entries_view(f) =~= entries_view(e).insert(x.key(), x.tally.view()));
}

impl TallyTable {
    pub open spec fn view(&self) -> Map<KeyV, TallyV> {
        entries_view(self.entries@)
    }

    /// Keys are unique and every tally is within what `rows` rows reach.
    pub open spec fn wf(&self, rows: nat) -> bool {
        &&& keys_unique(self.entries@)
        &&& map_within(self.view(), rows)
    }

    pub fn new() -> (r: TallyTable)
        ensures
            r.view() == Map::<KeyV, TallyV>::empty(),
            r.wf(0),
    {
        let r = TallyTable { entries: Vec::new() };
        assert(r.view() =~= Map::<KeyV, TallyV>::empty());
        r
    }

    /// Position of the entry with the given key.
    pub fn find(&self, day: i64, name: &String, system: &String) -> (r: Option<usize>)
        ensures
            r matches Some(i) ==> i < self.entries.len() && self.entries@[i as int].key() == (
                day as int,
                name@,
                system@,
            ),
            r is None ==> !has_key(self.entries@, (day as int, name@, system@)),
    {
        let mut i: usize = 0;
        while i < self.entries.len()
            invariant
                i <= self.entries.len(),
                forall|j: int| 0 <= j < i ==> #[trigger] self.entries@[j].key() != (day as int, name@, system@),
            decreases self.entries.len() - i,
        {
            let e = &self.entries[i];
            if e.day == day && e.name == *name && e.system == *system {
                return Some(i);
            }
            i = i + 1;
        }
        None
    }

    /// Adds a tally at a key, creating the entry when it is absent.
    pub fn add(&mut self, day: i64, name: &String, system: &String, t: &Tally, Ghost(rows): Ghost<nat>, Ghost(more): Ghost<nat>)
        requires
            keys_unique(old(self).entries@),
            tally_within(get_or_zero(old(self).view(), (day as int, name@, system@)), rows),
            tally_within(t.view(), more),
            rows + more <= MAX_ROWS,
        ensures
            keys_unique(final(self).entries@),
            final(self).view() == map_add_one(old(self).view(), (day as int, name@, system@), t.view()),
    {
        let ghost k = (day as int, name@, system@);
        let ghost old_e = self.entries@;
        match self.find(day, name, system) {
            Some(i) => {
                proof {
                    lemma_index_of(old_e, i as int);
                    assert(entries_view(old_e).contains_key(k));
                    assert(entries_view(old_e)[k] == old_e[i as int].tally.view());
                }
                let sum = self.entries[i].tally.plus(t, Ghost(rows), Ghost(more));
                let entry = TableEntry { day, name: name.clone(), system: system.clone(), tally: sum };
                self.entries.set(i, entry);
                proof {
                    let e = self.entries@;
                    assert(forall|j: int| 0 <= j < e.len() ==> #[trigger] e[j].key() == old_e[j].key());
                    assert forall|j: int| 0 <= j < e.len() && j != i implies #[trigger] e[j] == old_e[j] by {}
                    assert(keys_unique(e));
                    assert forall|kk: KeyV| has_key(e, kk) == has_key(old_e, kk) by {
                        if has_key(e, kk) {
                            let j = choose|j: int| 0 <= j < e.len() && #[trigger] e[j].key() == kk;
                            assert(old_e[j].key() == kk);
                        }
                        if has_key(old_e, kk) {
                            let j = choose|j: int| 0 <= j < old_e.len() && #[trigger] old_e[j].key() == kk;
                            assert(e[j].key() == kk);
                        }
                    }
                    assert forall|kk: KeyV| has_key(e, kk) implies #[trigger] entries_view(e)[kk] == map_add_one(entries_view(old_e), k, t.view())[kk] by {
                        let j = choose|j: int| 0 <= j < e.len() && #[trigger] e[j].key() == kk;
                        lemma_index_of(e, j);
                        lemma_index_of(old_e, j);
                    }
                    assert(entries_view(e) =~= map_add_one(entries_view(old_e), k, t.view()));
                }
            },
            None => {
                let entry = TableEntry { day, name: name.clone(), system: system.clone(), tally: *t };
                self.entries.push(entry);
                proof {
                    let e = self.entries@;
                    let n = old_e.len() as int;
                    assert(e[n].key() == k);
                    assert forall|j: int| 0 <= j < n implies #[trigger] e[j] == old_e[j] by {}
                    assert(keys_unique(e)) by {
                        assert forall|a: int, b: int| 0 <= a < e.len() && 0 <= b < e.len() && a != b implies #[trigger] e[a].key() != #[trigger] e[b].key() by {
                            if a < n && b < n {
                                assert(old_e[a].key() != old_e[b].key());
                            } else if a == n {
                                assert(old_e[b].key() != k);
                            } else {
                                assert(old_e[a].key() != k);
                            }
                        }
                    }
                    assert forall|kk: KeyV| has_key(e, kk) == (has_key(old_e, kk) || kk == k) by {
                        if has_key(e, kk) {
                            let j = choose|j: int| 0 <= j < e.len() && #[trigger] e[j].key() == kk;
                            if j < n {
                                assert(old_e[j].key() == kk);
                            }
                        }
                        if has_key(old_e, kk) {
                            let j = choose|j: int| 0 <= j < old_e.len() && #[trigger] old_e[j].key() == kk;
                            assert(e[j].key() == kk);
                        }
                    }
                    assert forall|kk: KeyV| has_key(e, kk) implies #[trigger] entries_view(e)[kk] == map_add_one(entries_view(old_e), k, t.view())[kk] by {
                        let j = choose|j: int| 0 <= j < e.len() && #[trigger] e[j].key() == kk;
                        lemma_index_of(e, j);
                        if j < n {
                            lemma_index_of(old_e, j);
                        }
                    }
                    assert(entries_view(e) =~= map_add_one(entries_view(old_e), k, t.view()));
                }
            },
        }
    }
}


impl TallyTable {
    /// Adds every tally of `other` at its key.
    pub fn absorb(&mut self, other: &TallyTable, Ghost(rows): Ghost<nat>, Ghost(orows): Ghost<nat>)
        requires
            keys_unique(old(self).entries@),
            map_within(old(self).view(), rows),
            other.wf(orows),
            rows + orows <= MAX_ROWS,
        ensures
            keys_unique(final(self).entries@),
            final(self).view() == map_sum(old(self).view(), other.view()),
    {
        let ghost start = self.view();
        let ghost oe = other.entries@;
        let mut i: usize = 0;
        assert(oe.take(0) =~= Seq::<TableEntry>::empty());
        assert(entries_view(oe.take(0)) =~= Map::<KeyV, TallyV>::empty());
        assert(map_sum(start, Map::<KeyV, TallyV>::empty()) =~= start);
        while i < other.entries.len()
            invariant
                i <= other.entries.len(),
                oe == other.entries@,
                other.wf(orows),
                rows + orows <= MAX_ROWS,
                map_within(start, rows),
                keys_unique(self.entries@),
                self.view() == map_sum(start, entries_view(oe.take(i as int))),
            decreases other.entries.len() - i,
        {
            let e = &other.entries[i];
            let ghost k = e.key();
            proof {
                assert(oe.take(i + 1) =~= oe.take(i as int).push(oe[i as int]));
                assert(keys_unique(oe.take(i + 1))) by {
                    assert forall|a: int, b: int| 0 <= a < i + 1 && 0 <= b < i + 1 && a != b implies #[trigger] oe.take(i + 1)[a].key() != #[trigger] oe.take(i + 1)[b].key() by {
                        assert(oe[a].key() != oe[b].key());
                    }
                }
                lemma_entries_view_push(oe.take(i as int), oe[i as int]);
                lemma_index_of(oe, i as int);
                assert(other.view().contains_key(k));
                assert(tally_within(other.view()[k], orows));
                assert(get_or_zero(self.view(), k) == get_or_zero(start, k)) by {
                    assert(tally_add(get_or_zero(start, k), zero_tally()) == get_or_zero(start, k));
                }
                if start.contains_key(k) {
                    assert(tally_within(start[k], rows));
                }
            }
            self.add(e.day, &e.name, &e.system, &e.tally, Ghost(rows), Ghost(orows));
            proof {
                lemma_sum_add_one(start, entries_view(oe.take(i as int)), k, oe[i as int].tally.view());
            }
            i = i + 1;
        }
        assert(oe.take(oe.len() as int) =~= oe);
    }
}

} // verus!
