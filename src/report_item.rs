use vstd::prelude::*;
use vstd::set_lib::{lemma_len_subset, lemma_int_range, set_int_range};
use crate::aggregate::{AggView, Aggregate, agg_add_row, agg_sum, agg_touch_day, empty_agg, totals_add};
use crate::tally::{KeyV, TallyV, map_sum, tally_add, get_or_zero, map_add_one};
use crate::error::{Field, ReportError};
use crate::filter::{Filter, ReportItemType, ReportType};
use crate::index_map::{IndexingReport, first_missing};
use crate::row::{RowFacts, RowV, parse_row, row_view};
use crate::tally::MAX_ROWS;

verus! {

/// The rows of a chunk as facts, or the first failing row and field.
pub open spec fn chunk_facts(rows: Seq<Seq<Seq<char>>>, ix: IndexingReport, kind: ReportType, cat: ReportItemType) -> Result<Seq<RowV>, (int, Field)>
    decreases rows.len(),
{
    if rows.len() == 0 {
        Ok(Seq::empty())
    } else {
        match chunk_facts(rows.drop_last(), ix, kind, cat) {
            Err(e) => Err(e),
            Ok(fs) => match row_view(rows.last(), ix, kind, cat) {
                Err(f) => Err(((rows.len() - 1) as int, f)),
                Ok(v) => Ok(fs.push(v)),
            },
        }
    }
}

/// The aggregate of a sequence of rows, the day axis limited to `lo..=hi`.
pub open spec fn rows_agg(fs: Seq<RowV>, kind: ReportType, cat: ReportItemType, lo: int, hi: int) -> AggView
    decreases fs.len(),
{
    if fs.len() == 0 {
        empty_agg()
    } else {
        agg_add_row(rows_agg(fs.drop_last(), kind, cat, lo, hi), fs.last(), kind, cat, lo, hi)
    }
}

/// Puts every day from `lo` through `hi` on the day axis.
pub open spec fn span_agg(a: AggView, lo: int, hi: int) -> AggView
    decreases hi - lo + 1,
{
    if lo > hi {
        a
    } else {
        span_agg(agg_touch_day(a, lo), lo + 1, hi)
    }
}

/// What a chunk adds: every row to the totals and rollups; on the day axis
/// exactly the days from the first row's day through the last row's day
/// (none when the last is earlier), each with the rows dated that day.
pub open spec fn chunk_agg(fs: Seq<RowV>, kind: ReportType, cat: ReportItemType) -> AggView {
    if fs.len() == 0 {
        empty_agg()
    } else {
        span_agg(rows_agg(fs, kind, cat, fs[0].day, fs.last().day), fs[0].day, fs.last().day)
    }
}

/// The column a merge of this kind and category needs and lacks, if any.
pub open spec fn merge_missing(ix: IndexingReport, kind: ReportType, cat: ReportItemType) -> Option<Field> {
    match first_missing(ix, cat) {
        Some(f) => Some(f),
        None => if kind == ReportType::Merchant && ix.index_vendor is None {
            Some(Field::Vendor)
        } else if kind == ReportType::Merchant && ix.index_payment_system is None {
            Some(Field::PaymentSystem)
        } else {
            None
        },
    }
}

/// What merging a chunk into a category in state `s` gives: the new state,
/// or the error, in which case nothing changes.
pub open spec fn merge_outcome(
    s: ItemView,
    id: int,
    rows: Seq<Seq<Seq<char>>>,
    ix: IndexingReport,
    kind: ReportType,
    cat: ReportItemType,
) -> Result<ItemView, ReportError> {
    if s.merged.contains(id) {
        Ok(s)
    } else {
        match merge_missing(ix, kind, cat) {
            Some(f) => Err(ReportError::MissingRequiredColumn(f)),
            None => match chunk_facts(rows, ix, kind, cat) {
                Err(e) => Err(ReportError::UnparseableField { row: e.0 as usize, field: e.1 }),
                Ok(fs) => Ok(merge_view(s, id, chunk_agg(fs, kind, cat))),
            },
        }
    }
}

pub open spec fn facts_views(fs: Seq<RowFacts>) -> Seq<RowV> {
    fs.map_values(|f: RowFacts| f.view())
}

proof fn lemma_chunk_facts_err(rows: Seq<Seq<Seq<char>>>, j: int, ix: IndexingReport, kind: ReportType, cat: ReportItemType)
    requires
        0 <= j <= rows.len(),
        chunk_facts(rows.take(j), ix, kind, cat) is Err,
    ensures
        chunk_facts(rows, ix, kind, cat) == chunk_facts(rows.take(j), ix, kind, cat),
    decreases rows.len() - j,
{
    if j < rows.len() {
        assert(rows.drop_last().take(j) =~= rows.take(j));
        lemma_chunk_facts_err(rows.drop_last(), j, ix, kind, cat);
    } else {
        assert(rows.take(j) =~= rows);
    }
}

proof fn lemma_span_step(a: AggView, lo: int, hi: int)
    requires
        lo <= hi,
    ensures
        span_agg(agg_touch_day(a, lo), lo + 1, hi) == span_agg(a, lo, hi),
{
}

/// `r` is the first and last day of the entries, or `None` when there are
/// none.
pub open spec fn is_day_range(e: Seq<crate::tally::TableEntry>, r: Option<(i64, i64)>) -> bool {
    match r {
        None => e.len() == 0,
        Some(p) => p.0 <= p.1
            && (exists|i: int| 0 <= i < e.len() && #[trigger] e[i].day == p.0)
            && (exists|i: int| 0 <= i < e.len() && #[trigger] e[i].day == p.1)
            && forall|i: int| 0 <= i < e.len() ==> p.0 <= #[trigger] e[i].day <= p.1,
    }
}

/// The merged chunk ids as a set.
pub open spec fn id_set(ids: Seq<u32>) -> Set<int>
    decreases ids.len(),
{
    if ids.len() == 0 {
        Set::empty()
    } else {
        id_set(ids.drop_last()).insert(ids.last() as int)
    }
}

/// A category's state as numbers: its aggregate, the chunk ids merged, and
/// how many chunks there are.
pub struct ItemView {
    pub agg: AggView,
    pub merged: Set<int>,
    pub total: int,
}

/// A merge of chunk `id` adding `delta`: a chunk already merged changes
/// nothing.
pub open spec fn merge_view(s: ItemView, id: int, delta: AggView) -> ItemView {
    if s.merged.contains(id) {
        s
    } else {
        ItemView { agg: agg_sum(s.agg, delta), merged: s.merged.insert(id), total: s.total }
    }
}

/// Percentage of a category's chunks merged, rounded down; a category
/// without chunks is complete.
pub open spec fn load_percent(merged: nat, total: nat) -> nat {
    if total == 0 { 100 } else { 100 * merged / total }
}

proof fn lemma_id_set(ids: Seq<u32>)
    ensures
        id_set(ids).finite(),
        forall|i: int| #[trigger] id_set(ids).contains(i) <==> exists|k: int| 0 <= k < ids.len() && ids[k] as int == i,
        ids.no_duplicates() ==> id_set(ids).len() == ids.len(),
    decreases ids.len(),
{
    if ids.len() > 0 {
        let p = ids.drop_last();
        lemma_id_set(p);
        assert forall|i: int| #[trigger] id_set(ids).contains(i) <==> exists|k: int| 0 <= k < ids.len() && ids[k] as int == i by {
            if id_set(p).contains(i) {
                let k = choose|k: int| 0 <= k < p.len() && p[k] as int == i;
                assert(ids[k] == p[k]);
            }
            if exists|k: int| 0 <= k < ids.len() && ids[k] as int == i {
                let k = choose|k: int| 0 <= k < ids.len() && ids[k] as int == i;
                if k < ids.len() - 1 {
                    assert(p[k] == ids[k]);
                }
            }
        }
        if ids.no_duplicates() {
            assert(p.no_duplicates()) by {
                assert forall|a: int, b: int| 0 <= a < p.len() && 0 <= b < p.len() && a != b implies p[a] != p[b] by {
                    assert(ids[a] != ids[b]);
                }
            }
            if id_set(p).contains(ids.last() as int) {
                let k = choose|k: int| 0 <= k < p.len() && p[k] as int == ids.last() as int;
                assert(ids[k] != ids[ids.len() - 1]);
            }
        }
    }
}

proof fn lemma_count_bound(ids: Seq<u32>, total: int)
    requires
        ids.no_duplicates(),
        forall|k: int| 0 <= k < ids.len() ==> (ids[k] as int) < total,
        0 <= total,
    ensures
        ids.len() <= total,
{
    lemma_id_set(ids);
    lemma_int_range(0, total);
    assert(id_set(ids).subset_of(set_int_range(0, total)));
    lemma_len_subset(id_set(ids), set_int_range(0, total));
}

/// The running aggregate of one category of a report.
pub struct ReportItem {
    /// The filter the category's rows were accepted by.
    pub filter: Filter,
    pub aggregate: Aggregate,
    /// Ids of the chunks merged, in order of merging.
    pub id_having_chunk: Vec<u32>,
    /// How many chunks the category's input has.
    pub total_chunks: u32,
}

impl ReportItem {
    pub open spec fn view(&self) -> ItemView {
        ItemView { agg: self.aggregate.view(), merged: id_set(self.id_having_chunk@), total: self.total_chunks as int }
    }

    pub open spec fn wf(&self) -> bool {
        &&& self.aggregate.wf()
        &&& self.id_having_chunk@.no_duplicates()
        &&& forall|k: int| 0 <= k < self.id_having_chunk@.len() ==> #[trigger] self.id_having_chunk@[k] < self.total_chunks
    }

    /// The percentage of chunks merged.
    pub open spec fn percent_spec(&self) -> nat {
        load_percent(self.id_having_chunk@.len(), self.total_chunks as nat)
    }

    /// An empty aggregate for a category whose input has `total_chunks` chunks.
    pub fn new(filter: &Filter, total_chunks: u32) -> (r: ReportItem)
        ensures
            r.wf(),
            r.view() == (ItemView { agg: empty_agg(), merged: Set::empty(), total: total_chunks as int }),
    {
        let r = ReportItem { filter: filter.clone(), aggregate: Aggregate::new(), id_having_chunk: Vec::new(), total_chunks };
        assert(r.view().merged =~= Set::<int>::empty());
        r
    }

    /// Percentage of the category's chunks merged so far, rounded down; 100
    /// exactly when all are merged.
    pub fn get_percent_load(&self) -> (r: u64)
        requires
            self.wf(),
        ensures
            r == self.percent_spec(),
            r <= 100,
            r == 100 <==> self.id_having_chunk@.len() == self.total_chunks,
    {
        proof {
            lemma_count_bound(self.id_having_chunk@, self.total_chunks as int);
        }
        let n = self.id_having_chunk.len() as u64;
        let t = self.total_chunks as u64;
        if t == 0 {
            100
        } else {
            proof {
                let ni = n as int;
                let ti = t as int;
                assert((100 * ni) / ti <= 100) by (nonlinear_arith) requires ni <= ti, ti > 0;
                assert(ni < ti ==> (100 * ni) / ti < 100) by (nonlinear_arith) requires ti > 0;
                assert(ni == ti ==> (100 * ni) / ti == 100) by (nonlinear_arith) requires ti > 0;
            }
            100 * n / t
        }
    }

    /// The chunk ids still to merge, ascending: those below the chunk count
    /// that are not merged yet. A caller attaching to a report that is
    /// partly built resumes from these.
    pub fn remaining_chunks(&self) -> (r: Vec<u32>)
        ensures
            forall|k: int| 0 <= k < r.len() ==> #[trigger] r@[k] < self.total_chunks && !self.view().merged.contains(r@[k] as int),
            forall|c: u32| c < self.total_chunks && !self.view().merged.contains(c as int) ==> r@.contains(c),
            forall|a: int, b: int| 0 <= a < b < r.len() ==> #[trigger] r@[a] < #[trigger] r@[b],
    {
        let mut out: Vec<u32> = Vec::new();
        let mut c: u32 = 0;
        while c < self.total_chunks
            invariant
                c <= self.total_chunks,
                forall|k: int| 0 <= k < out.len() ==> #[trigger] out@[k] < c && !self.view().merged.contains(out@[k] as int),
                forall|d: u32| d < c && !self.view().merged.contains(d as int) ==> out@.contains(d),
                forall|a: int, b: int| 0 <= a < b < out.len() ==> #[trigger] out@[a] < #[trigger] out@[b],
            decreases self.total_chunks - c,
        {
            if !self.is_merged(c) {
                let ghost before = out@;
                out.push(c);
                proof {
                    assert forall|d: u32| d < c + 1 && !self.view().merged.contains(d as int) implies out@.contains(d) by {
                        if d < c {
                            assert(before.contains(d));
                            let k = choose|k: int| 0 <= k < before.len() && before[k] == d;
                            assert(out@[k] == d);
                        } else {
                            assert(out@[before.len() as int] == d);
                        }
                    }
                }
            }
            c = c + 1;
        }
        out
    }

    /// The first and last day on the category's day axis; `None` while it
    /// is empty.
    pub fn day_range(&self) -> (r: Option<(i64, i64)>)
        ensures
            is_day_range(self.aggregate.days.entries@, r),
    {
        let e = &self.aggregate.days.entries;
        if e.len() == 0 {
            return None;
        }
        let mut lo = e[0].day;
        let mut hi = e[0].day;
        let ghost mut at_lo: int = 0;
        let ghost mut at_hi: int = 0;
        let mut i: usize = 1;
        while i < e.len()
            invariant
                1 <= i <= e.len(),
                0 <= at_lo < e.len() && e@[at_lo].day == lo,
                0 <= at_hi < e.len() && e@[at_hi].day == hi,
                forall|k: int| 0 <= k < i ==> lo <= #[trigger] e@[k].day <= hi,
            decreases e.len() - i,
        {
            if e[i].day < lo {
                lo = e[i].day;
                proof { at_lo = i as int; }
            }
            if e[i].day > hi {
                hi = e[i].day;
                proof { at_hi = i as int; }
            }
            i = i + 1;
        }
        Some((lo, hi))
    }

    fn is_merged(&self, id: u32) -> (r: bool)
        ensures
            r == self.view().merged.contains(id as int),
    {
        proof {
            lemma_id_set(self.id_having_chunk@);
        }
        let mut i: usize = 0;
        while i < self.id_having_chunk.len()
            invariant
                i <= self.id_having_chunk.len(),
                forall|k: int| 0 <= k < i ==> self.id_having_chunk@[k] != id,
            decreases self.id_having_chunk.len() - i,
        {
            if self.id_having_chunk[i] == id {
                assert(self.id_having_chunk@[i as int] as int == id as int);
                assert(exists|k: int| 0 <= k < self.id_having_chunk@.len() && self.id_having_chunk@[k] as int == id as int);
                proof { lemma_id_set(self.id_having_chunk@); }
                assert(id_set(self.id_having_chunk@).contains(id as int));
                return true;
            }
            i = i + 1;
        }
        proof {
            lemma_id_set(self.id_having_chunk@);
            if id_set(self.id_having_chunk@).contains(id as int) {
                let k = choose|k: int| 0 <= k < self.id_having_chunk@.len() && self.id_having_chunk@[k] as int == id as int;
                assert(self.id_having_chunk@[k] != id);
            }
        }
        false
    }
}

/// Reads every row of a chunk, stopping at the first that fails.
#[verifier::rlimit(50)]
fn parse_chunk(records: &Vec<Vec<String>>, ix: &IndexingReport, kind: ReportType, cat: ReportItemType) -> (r: Result<Vec<RowFacts>, (usize, Field)>)
    ensures
        r matches Ok(fs) ==> chunk_facts(records.deep_view(), *ix, kind, cat) == Ok::<Seq<RowV>, (int, Field)>(facts_views(fs@))
            && fs.len() == records.len()
            && forall|k: int| 0 <= k < fs.len() ==> #[trigger] fs@[k].bounded(),
        r matches Err(e) ==> chunk_facts(records.deep_view(), *ix, kind, cat) == Err::<Seq<RowV>, (int, Field)>((e.0 as int, e.1)),
{
    let ghost rows = records.deep_view();
    let mut facts: Vec<RowFacts> = Vec::new();
    let mut i: usize = 0;
    assert(rows.take(0) =~= Seq::<Seq<Seq<char>>>::empty());
    assert(facts_views(facts@) =~= Seq::<RowV>::empty());
    while i < records.len()
        invariant
            i <= records.len(),
            rows == records.deep_view(),
            facts.len() == i,
            chunk_facts(rows.take(i as int), *ix, kind, cat) == Ok::<Seq<RowV>, (int, Field)>(facts_views(facts@)),
            forall|k: int| 0 <= k < facts.len() ==> #[trigger] facts@[k].bounded(),
        decreases records.len() - i,
    {
        let ghost t = rows.take(i + 1);
        proof {
            assert(t.drop_last() =~= rows.take(i as int));
            assert(t.last() == rows[i as int]);
        }
        match parse_row(&records[i], ix, kind, cat) {
            Ok(f) => {
                let ghost before = facts@;
                facts.push(f);
                proof {
                    assert(facts_views(facts@) =~= facts_views(before).push(f.view()));
                }
            },
            Err(field) => {
                proof {
                    lemma_chunk_facts_err(rows, i + 1, *ix, kind, cat);
                }
                return Err((i, field));
            },
        }
        i = i + 1;
    }
    assert(rows.take(records.len() as int) =~= rows);
    Ok(facts)
}

/// What a chunk's rows add: their sums, and their day span on the day axis.
fn chunk_delta(facts: &Vec<RowFacts>, kind: ReportType, cat: ReportItemType) -> (r: Aggregate)
    requires
        facts.len() <= MAX_ROWS,
        forall|k: int| 0 <= k < facts.len() ==> #[trigger] facts@[k].bounded(),
    ensures
        r.wf(),
        r.rows == facts.len(),
        r.view() == chunk_agg(facts_views(facts@), kind, cat),
{
    let ghost fs = facts_views(facts@);
    let (lo, hi) = if facts.len() > 0 {
        (facts[0].day as i64, facts[facts.len() - 1].day as i64)
    } else {
        (0, 0)
    };
    let mut delta = Aggregate::new();
    let mut j: usize = 0;
    assert(fs.take(0) =~= Seq::<RowV>::empty());
    while j < facts.len()
        invariant
            j <= facts.len(),
            fs == facts_views(facts@),
            facts.len() <= MAX_ROWS,
            forall|k: int| 0 <= k < facts.len() ==> #[trigger] facts@[k].bounded(),
            delta.wf(),
            delta.rows == j,
            facts.len() > 0 ==> lo == fs[0].day && hi == fs.last().day,
            delta.view() == rows_agg(fs.take(j as int), kind, cat, lo as int, hi as int),
        decreases facts.len() - j,
    {
        delta.add_row(&facts[j], kind, cat, lo, hi);
        proof {
            assert(fs.take(j + 1).drop_last() =~= fs.take(j as int));
            assert(fs.take(j + 1).last() == facts@[j as int].view());
        }
        j = j + 1;
    }
    assert(fs.take(facts.len() as int) =~= fs);
    if facts.len() > 0 {
        assert(facts@[0].bounded());
        assert(facts@[facts.len() - 1].bounded());
        let ghost base = delta.view();
        if lo <= hi {
            let mut d: i64 = lo;
            while d <= hi
                invariant
                    lo <= d <= hi + 1,
                    hi <= i32::MAX,
                    delta.wf(),
                    delta.rows == facts.len(),
                    span_agg(delta.view(), d as int, hi as int) == span_agg(base, lo as int, hi as int),
                decreases hi - d + 1,
            {
                let ghost before = delta.view();
                delta.touch_day(d);
                proof {
                    lemma_span_step(before, d as int, hi as int);
                }
                d = d + 1;
            }
        }
        assert(delta.view() == chunk_agg(fs, kind, cat));
    } else {
        assert(delta.view() == chunk_agg(fs, kind, cat));
    }
    delta
}

impl ReportItem {
    /// Merges one chunk of rows of this category: rejects the chunk, leaving
    /// the aggregate as it was, when a needed column is unknown or a row has
    /// a missing or malformed field; otherwise adds the chunk's rows and its
    /// day span and records the chunk. A chunk merged before changes nothing.
    /// Returns the percentage of chunks merged.
    pub fn merge_chunk(
        &mut self,
        records: &Vec<Vec<String>>,
        chunk_num: u32,
        ix: &IndexingReport,
        cat: ReportItemType,
        kind: ReportType,
    ) -> (r: Result<u64, ReportError>)
        requires
            old(self).wf(),
            chunk_num < old(self).total_chunks,
            old(self).aggregate.rows + records.len() <= MAX_ROWS,
        ensures
            final(self).wf(),
            match merge_outcome(old(self).view(), chunk_num as int, records.deep_view(), *ix, kind, cat) {
                Ok(v) => r is Ok && final(self).view() == v,
                Err(e) => r == Err::<u64, ReportError>(e) && *final(self) == *old(self),
            },
            r matches Ok(p) ==> p == final(self).percent_spec(),
            final(self).percent_spec() >= old(self).percent_spec(),
            final(self).total_chunks == old(self).total_chunks,
            final(self).filter == old(self).filter,
    {
        if self.is_merged(chunk_num) {
            return Ok(self.get_percent_load());
        }
        if let Err(e) = ix.check_which_fields_not_found(cat) {
            return Err(e);
        }
        if kind == ReportType::Merchant && ix.index_vendor.is_none() {
            return Err(ReportError::MissingRequiredColumn(Field::Vendor));
        }
        if kind == ReportType::Merchant && ix.index_payment_system.is_none() {
            return Err(ReportError::MissingRequiredColumn(Field::PaymentSystem));
        }
        let facts = match parse_chunk(records, ix, kind, cat) {
            Ok(f) => f,
            Err(e) => return Err(ReportError::UnparseableField { row: e.0, field: e.1 }),
        };
        let ghost fs = facts_views(facts@);
        let delta = chunk_delta(&facts, kind, cat);
        let ghost old_ids = self.id_having_chunk@;
        self.aggregate.absorb(&delta);
        self.id_having_chunk.push(chunk_num);
        proof {
            let ids = self.id_having_chunk@;
            assert(ids.drop_last() =~= old_ids);
            lemma_id_set(old_ids);
            assert(ids.no_duplicates()) by {
                assert forall|a: int, b: int| 0 <= a < ids.len() && 0 <= b < ids.len() && a != b implies ids[a] != ids[b] by {
                    if a < old_ids.len() && b < old_ids.len() {
                        assert(old_ids[a] != old_ids[b]);
                    } else if a == old_ids.len() {
                        assert(old_ids[b] as int != chunk_num as int);
                    } else {
                        assert(old_ids[a] as int != chunk_num as int);
                    }
                }
            }
            assert forall|k: int| 0 <= k < ids.len() implies #[trigger] ids[k] < self.total_chunks by {
                if k < old_ids.len() {
                    assert(old_ids[k] < self.total_chunks);
                }
            }
            let n = old_ids.len() as int;
            let t = self.total_chunks as int;
            if t > 0 {
                assert((100 * n) / t <= (100 * (n + 1)) / t) by (nonlinear_arith) requires t > 0, n >= 0;
            }
        }
        Ok(self.get_percent_load())
    }
}

proof fn lemma_map_sum_swap(x: Map<KeyV, TallyV>, p: Map<KeyV, TallyV>, q: Map<KeyV, TallyV>)
    ensures
        map_sum(map_sum(x, p), q) == map_sum(map_sum(x, q), p),
{
    assert forall|k: KeyV| #[trigger] map_sum(map_sum(x, p), q).contains_key(k) implies map_sum(map_sum(x, p), q)[k] == map_sum(map_sum(x, q), p)[k] by {
        let a = get_or_zero(x, k);
        let b = get_or_zero(p, k);
        let c = get_or_zero(q, k);
        assert(get_or_zero(map_sum(x, p), k) == tally_add(a, b));
        assert(get_or_zero(map_sum(x, q), k) == tally_add(a, c));
    }
    assert(map_sum(map_sum(x, p), q) =~= map_sum(map_sum(x, q), p));
}

proof fn lemma_agg_swap(x: AggView, p: AggView, q: AggView)
    ensures
        agg_sum(agg_sum(x, p), q) == agg_sum(agg_sum(x, q), p),
{
    lemma_map_sum_swap(x.days, p.days, q.days);
    lemma_map_sum_swap(x.vendors, p.vendors, q.vendors);
    lemma_map_sum_swap(x.providers, p.providers, q.providers);
    lemma_map_sum_swap(x.agents, p.agents, q.agents);
    lemma_map_sum_swap(x.merchants, p.merchants, q.merchants);
    assert(totals_add(totals_add(x.totals, p.totals), q.totals) == totals_add(totals_add(x.totals, q.totals), p.totals));
}

/// Merging a chunk a second time leaves the state as the first merge left it.
pub proof fn lemma_merge_idempotent(
    s: ItemView,
    id: int,
    rows: Seq<Seq<Seq<char>>>,
    ix: IndexingReport,
    kind: ReportType,
    cat: ReportItemType,
)
    ensures
        merge_outcome(s, id, rows, ix, kind, cat) matches Ok(s1) ==> merge_outcome(s1, id, rows, ix, kind, cat) == Ok::<ItemView, ReportError>(s1),
{
}

/// Two different chunks merged in either order give the same state, and one
/// order fails exactly when the other does.
pub proof fn lemma_merge_commutes(
    s: ItemView,
    a: int,
    rows_a: Seq<Seq<Seq<char>>>,
    b: int,
    rows_b: Seq<Seq<Seq<char>>>,
    ix: IndexingReport,
    kind: ReportType,
    cat: ReportItemType,
)
    requires
        a != b,
    ensures
        merge_then(s, a, rows_a, b, rows_b, ix, kind, cat) is Ok <==> merge_then(s, b, rows_b, a, rows_a, ix, kind, cat) is Ok,
        merge_then(s, a, rows_a, b, rows_b, ix, kind, cat) matches Ok(v) ==> merge_then(s, b, rows_b, a, rows_a, ix, kind, cat) == Ok::<ItemView, ReportError>(v),
{
    if merge_outcome(s, a, rows_a, ix, kind, cat) is Ok && merge_outcome(s, b, rows_b, ix, kind, cat) is Ok {
        let s_a = merge_outcome(s, a, rows_a, ix, kind, cat).unwrap();
        let s_b = merge_outcome(s, b, rows_b, ix, kind, cat).unwrap();
        if !s.merged.contains(a) && !s.merged.contains(b) {
            let da = chunk_agg(chunk_facts(rows_a, ix, kind, cat)->Ok_0, kind, cat);
            let db = chunk_agg(chunk_facts(rows_b, ix, kind, cat)->Ok_0, kind, cat);
            lemma_agg_swap(s.agg, da, db);
            assert(s.merged.insert(a).insert(b) =~= s.merged.insert(b).insert(a));
        }
    }
}

/// Merges chunk `a`, then chunk `b`.
pub open spec fn merge_then(
    s: ItemView,
    a: int,
    rows_a: Seq<Seq<Seq<char>>>,
    b: int,
    rows_b: Seq<Seq<Seq<char>>>,
    ix: IndexingReport,
    kind: ReportType,
    cat: ReportItemType,
) -> Result<ItemView, ReportError> {
    match merge_outcome(s, a, rows_a, ix, kind, cat) {
        Ok(s1) => merge_outcome(s1, b, rows_b, ix, kind, cat),
        Err(e) => Err(e),
    }
}

/// Two outcomes that agree: the same state, or both an error.
pub open spec fn same_outcome(x: Result<ItemView, ReportError>, y: Result<ItemView, ReportError>) -> bool {
    x == y || (x is Err && y is Err)
}

/// Merges chunks `a`, `b`, `c` in that order.
#[verifier::opaque]
pub open spec fn merge_three(
    s: ItemView,
    a: int,
    rows_a: Seq<Seq<Seq<char>>>,
    b: int,
    rows_b: Seq<Seq<Seq<char>>>,
    c: int,
    rows_c: Seq<Seq<Seq<char>>>,
    ix: IndexingReport,
    kind: ReportType,
    cat: ReportItemType,
) -> Result<ItemView, ReportError> {
    match merge_then(s, a, rows_a, b, rows_b, ix, kind, cat) {
        Ok(s2) => merge_outcome(s2, c, rows_c, ix, kind, cat),
        Err(e) => Err(e),
    }
}

proof fn lemma_merge_three_swap_last(
    s: ItemView,
    a: int,
    rows_a: Seq<Seq<Seq<char>>>,
    b: int,
    rows_b: Seq<Seq<Seq<char>>>,
    c: int,
    rows_c: Seq<Seq<Seq<char>>>,
    ix: IndexingReport,
    kind: ReportType,
    cat: ReportItemType,
)
    requires
        b != c,
    ensures
        same_outcome(merge_three(s, a, rows_a, b, rows_b, c, rows_c, ix, kind, cat), merge_three(s, a, rows_a, c, rows_c, b, rows_b, ix, kind, cat)),
{
    reveal(merge_three);
    match merge_outcome(s, a, rows_a, ix, kind, cat) {
        Ok(s1) => {
            lemma_merge_commutes(s1, b, rows_b, c, rows_c, ix, kind, cat);
        },
        Err(e) => {},
    }
}

proof fn lemma_merge_three_swap_first(
    s: ItemView,
    a: int,
    rows_a: Seq<Seq<Seq<char>>>,
    b: int,
    rows_b: Seq<Seq<Seq<char>>>,
    c: int,
    rows_c: Seq<Seq<Seq<char>>>,
    ix: IndexingReport,
    kind: ReportType,
    cat: ReportItemType,
)
    requires
        a != b,
    ensures
        same_outcome(merge_three(s, a, rows_a, b, rows_b, c, rows_c, ix, kind, cat), merge_three(s, b, rows_b, a, rows_a, c, rows_c, ix, kind, cat)),
{
    reveal(merge_three);
    lemma_merge_commutes(s, a, rows_a, b, rows_b, ix, kind, cat);
}

/// Three different chunks merged in any of the six orders give the same
/// state (totals, day table, rollups, merged ids), or fail in every order.
pub proof fn lemma_merge_order_independent(
    s: ItemView,
    a: int,
    rows_a: Seq<Seq<Seq<char>>>,
    b: int,
    rows_b: Seq<Seq<Seq<char>>>,
    c: int,
    rows_c: Seq<Seq<Seq<char>>>,
    ix: IndexingReport,
    kind: ReportType,
    cat: ReportItemType,
)
    requires
        a != b,
        b != c,
        a != c,
    ensures
        ({
            let abc = merge_three(s, a, rows_a, b, rows_b, c, rows_c, ix, kind, cat);
            &&& same_outcome(abc, merge_three(s, a, rows_a, c, rows_c, b, rows_b, ix, kind, cat))
            &&& same_outcome(abc, merge_three(s, b, rows_b, a, rows_a, c, rows_c, ix, kind, cat))
            &&& same_outcome(abc, merge_three(s, b, rows_b, c, rows_c, a, rows_a, ix, kind, cat))
            &&& same_outcome(abc, merge_three(s, c, rows_c, a, rows_a, b, rows_b, ix, kind, cat))
            &&& same_outcome(abc, merge_three(s, c, rows_c, b, rows_b, a, rows_a, ix, kind, cat))
        }),
{
    // abc -> acb
    lemma_merge_three_swap_last(s, a, rows_a, b, rows_b, c, rows_c, ix, kind, cat);
    // abc -> bac
    lemma_merge_three_swap_first(s, a, rows_a, b, rows_b, c, rows_c, ix, kind, cat);
    // bac -> bca
    lemma_merge_three_swap_last(s, b, rows_b, a, rows_a, c, rows_c, ix, kind, cat);
    // acb -> cab
    lemma_merge_three_swap_first(s, a, rows_a, c, rows_c, b, rows_b, ix, kind, cat);
    // cab -> cba
    lemma_merge_three_swap_last(s, c, rows_c, a, rows_a, b, rows_b, ix, kind, cat);
}

/// The load percentage grows with the chunks merged, stays within 100, and
/// is 100 exactly when every chunk is merged.
pub proof fn lemma_load_monotone(m1: nat, m2: nat, total: nat)
    requires
        m1 <= m2 <= total,
    ensures
        load_percent(m1, total) <= load_percent(m2, total),
        load_percent(m2, total) <= 100,
        load_percent(m2, total) == 100 <==> m2 == total,
{
    if total > 0 {
        let t = total as int;
        let a = m1 as int;
        let b = m2 as int;
        assert((100 * a) / t <= (100 * b) / t) by (nonlinear_arith) requires a <= b, t > 0;
        assert((100 * b) / t <= 100) by (nonlinear_arith) requires b <= t, t > 0;
        assert(b < t ==> (100 * b) / t < 100) by (nonlinear_arith) requires t > 0, b >= 0;
        assert(b == t ==> (100 * b) / t == 100) by (nonlinear_arith) requires t > 0;
    }
}

proof fn lemma_add_one_swap(m: Map<KeyV, TallyV>, k1: KeyV, t1: TallyV, k2: KeyV, t2: TallyV)
    ensures
        map_add_one(map_add_one(m, k1, t1), k2, t2) == map_add_one(map_add_one(m, k2, t2), k1, t1),
{
    assert(map_add_one(map_add_one(m, k1, t1), k2, t2) =~= map_add_one(map_add_one(m, k2, t2), k1, t1));
}

proof fn lemma_add_row_swap(a: AggView, x: RowV, y: RowV, kind: ReportType, cat: ReportItemType, lo: int, hi: int)
    ensures
        agg_add_row(agg_add_row(a, x, kind, cat, lo, hi), y, kind, cat, lo, hi)
            == agg_add_row(agg_add_row(a, y, kind, cat, lo, hi), x, kind, cat, lo, hi),
{
    let bx = (1, x.amount, x.commission, 0, 0);
    let by = (1, y.amount, y.commission, 0, 0);
    lemma_add_one_swap(a.days, crate::aggregate::day_key(x.day), bx, crate::aggregate::day_key(y.day), by);
    lemma_add_one_swap(a.vendors, crate::aggregate::name_key(x.vendor_key), (1, x.amount, x.commission, x.bank, x.pay_sys),
        crate::aggregate::name_key(y.vendor_key), (1, y.amount, y.commission, y.bank, y.pay_sys));
    lemma_add_one_swap(a.providers, crate::aggregate::name_key(x.provider), bx, crate::aggregate::name_key(y.provider), by);
    lemma_add_one_swap(a.agents, crate::aggregate::name_key(x.provider), (1, x.amount, x.commission, x.pay_sys + x.bank, x.partner),
        crate::aggregate::name_key(y.provider), (1, y.amount, y.commission, y.pay_sys + y.bank, y.partner));
    lemma_add_one_swap(a.merchants, (0, x.vendor, x.system), bx, (0, y.vendor, y.system), by);
}

proof fn lemma_rows_agg_move_last(s: Seq<RowV>, i: int, kind: ReportType, cat: ReportItemType, lo: int, hi: int)
    requires
        0 <= i < s.len(),
    ensures
        rows_agg(s, kind, cat, lo, hi) == agg_add_row(rows_agg(s.remove(i), kind, cat, lo, hi), s[i], kind, cat, lo, hi),
    decreases s.len(),
{
    if i == s.len() - 1 {
        assert(s.remove(i) =~= s.drop_last());
    } else {
        let p = s.drop_last();
        lemma_rows_agg_move_last(p, i, kind, cat, lo, hi);
        let r = rows_agg(p.remove(i), kind, cat, lo, hi);
        lemma_add_row_swap(r, s[i], s.last(), kind, cat, lo, hi);
        assert(s.remove(i).drop_last() =~= p.remove(i));
        assert(s.remove(i).last() == s.last());
        assert(p[i] == s[i]);
    }
}

/// The rows of a chunk add the same aggregate in any order, for a given
/// day span: reordering rows inside a chunk changes no total, rollup or day.
pub proof fn lemma_rows_order_independent(s1: Seq<RowV>, s2: Seq<RowV>, kind: ReportType, cat: ReportItemType, lo: int, hi: int)
    requires
        s1.to_multiset() == s2.to_multiset(),
    ensures
        rows_agg(s1, kind, cat, lo, hi) == rows_agg(s2, kind, cat, lo, hi),
    decreases s1.len(),
{
    broadcast use vstd::seq_lib::group_to_multiset_ensures;
    s1.to_multiset_ensures();
    s2.to_multiset_ensures();
    assert(s1.len() == s2.len()) by {
        assert(s1.to_multiset().len() == s2.to_multiset().len());
    }
    if s1.len() == 0 {
        assert(s1 =~= s2);
    } else {
        let x = s1.last();
        assert(s1.contains(x)) by { assert(s1[s1.len() - 1] == x); }
        assert(s1.to_multiset().count(x) > 0);
        assert(s2.to_multiset().count(x) > 0);
        assert(s2.contains(x));
        let k = choose|k: int| 0 <= k < s2.len() && s2[k] == x;
        lemma_rows_agg_move_last(s2, k, kind, cat, lo, hi);
        assert(s1.remove(s1.len() - 1) =~= s1.drop_last());
        assert(s1.drop_last().to_multiset() =~= s2.remove(k).to_multiset());
        lemma_rows_order_independent(s1.drop_last(), s2.remove(k), kind, cat, lo, hi);
    }
}

} // verus!
