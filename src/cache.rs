use vstd::prelude::*;
use crate::admission::{Admission, AdmissionEvent, admission_step};
use crate::error::{error_code, error_message, ReportError, ResponseError};
use crate::filter::{ReportType, Status};
use crate::fingerprint::{create_file_name, fingerprint_of, is_fingerprint};

verus! {

/// A cached report: its fingerprint, when it was created (seconds since the
/// epoch), and the shared handle through which callers reach it.
pub struct CacheEntry<H> {
    pub key: String,
    pub created_at: i64,
    pub report: H,
}

/// Reports by fingerprint; each fingerprint at most once.
pub struct Reports<H> {
    data: Vec<CacheEntry<H>>,
}

pub open spec fn keys_distinct<H>(d: Seq<CacheEntry<H>>) -> bool {
    forall|i: int, j: int| 0 <= i < d.len() && 0 <= j < d.len() && i != j ==> #[trigger] d[i].key@ != #[trigger] d[j].key@
}

pub open spec fn cache_has<H>(d: Seq<CacheEntry<H>>, k: Seq<char>) -> bool {
    exists|i: int| 0 <= i < d.len() && #[trigger] d[i].key@ == k
}

pub open spec fn cache_index<H>(d: Seq<CacheEntry<H>>, k: Seq<char>) -> int {
    choose|i: int| 0 <= i < d.len() && #[trigger] d[i].key@ == k
}

pub open spec fn cache_view<H>(d: Seq<CacheEntry<H>>) -> Map<Seq<char>, (int, H)> {
    Map::new(|k: Seq<char>| cache_has(d, k), |k: Seq<char>| (d[cache_index(d, k)].created_at as int, d[cache_index(d, k)].report))
}

/// Whether a report created at `created` has outlived `retention` seconds at
/// time `now`.
pub open spec fn expired(now: int, created: int, retention: int) -> bool {
    now - created >= retention
}

proof fn lemma_cache_index<H>(d: Seq<CacheEntry<H>>, i: int)
    requires
        keys_distinct(d),
        0 <= i < d.len(),
    ensures
        cache_has(d, d[i].key@),
        cache_index(d, d[i].key@) == i,
{
    assert(cache_has(d, d[i].key@));
    let j = cache_index(d, d[i].key@);
    if j != i {
        assert(d[i].key@ != d[j].key@);
    }
}

impl<H> Reports<H> {
    /// The fingerprint of a request: its kind, organization, date ranges,
    /// the statuses, modes and payment systems of its sub-filters, and the
    /// ids of its source files.
    pub fn initial_key(
        &self,
        report_type: &ReportType,
        organization_provider_id: &str,
        from_to: &Vec<(String, String)>,
        s_m_p: (Vec<Status>, Vec<String>, Vec<Vec<String>>),
        ids: &Vec<u32>,
    ) -> (r: String)
        ensures
            r@ == fingerprint_of(
                *report_type,
                organization_provider_id@,
                from_to.deep_view(),
                s_m_p.0@,
                s_m_p.1.deep_view(),
                s_m_p.2.deep_view(),
                ids@,
            ),
            is_fingerprint(r@),
    {
        create_file_name(report_type, organization_provider_id, from_to, &s_m_p.0, &s_m_p.1, ids, &s_m_p.2)
    }

    pub closed spec fn view(&self) -> Map<Seq<char>, (int, H)> {
        cache_view(self.data@)
    }

    pub closed spec fn wf(&self) -> bool {
        keys_distinct(self.data@)
    }

    pub fn new() -> (r: Reports<H>)
        ensures
            r.wf(),
            r.view() == Map::<Seq<char>, (int, H)>::empty(),
    {
        let r = Reports { data: Vec::new() };
        assert(cache_view(r.data@) =~= Map::<Seq<char>, (int, H)>::empty());
        r
    }

    fn position(&self, key: &str) -> (r: Option<usize>)
        requires
            self.wf(),
        ensures
            r matches Some(i) ==> i < self.data.len() && self.data@[i as int].key@ == key@ && cache_index(self.data@, key@) == i,
            r is None ==> !cache_has(self.data@, key@),
    {
        let mut i: usize = 0;
        while i < self.data.len()
            invariant
                self.wf(),
                i <= self.data.len(),
                forall|j: int| 0 <= j < i ==> #[trigger] self.data@[j].key@ != key@,
            decreases self.data.len() - i,
        {
            if crate::text::text_eq(self.data[i].key.as_str(), key) {
                proof {
                    lemma_cache_index(self.data@, i as int);
                }
                return Some(i);
            }
            i = i + 1;
        }
        None
    }

    /// Whether a report is cached under `key`.
    pub fn is_exist_report(&self, key: &str) -> (r: bool)
        requires
            self.wf(),
        ensures
            r == self.view().contains_key(key@),
    {
        self.position(key).is_some()
    }

    /// The report cached under `key`.
    pub fn get_report(&self, key: &str) -> (r: Option<&H>)
        requires
            self.wf(),
        ensures
            r matches Some(h) ==> self.view().contains_key(key@) && self.view()[key@].1 == *h,
            r is None ==> !self.view().contains_key(key@),
    {
        match self.position(key) {
            Some(i) => Some(&self.data[i].report),
            None => None,
        }
    }

    /// Makes a report visible under `key`, unless one is cached there already
    /// (the first stays). Returns whether it was inserted.
    pub fn insert_new_report(&mut self, key: String, created_at: i64, report: H) -> (r: bool)
        requires
            old(self).wf(),
        ensures
            final(self).wf(),
            r == !old(self).view().contains_key(key@),
            r ==> final(self).view() == old(self).view().insert(key@, (created_at as int, report)),
            !r ==> final(self).view() == old(self).view(),
    {
        if self.position(key.as_str()).is_some() {
            return false;
        }
        let ghost old_d = self.data@;
        let ghost k = key@;
        self.data.push(CacheEntry { key, created_at, report });
        proof {
            let d = self.data@;
            let n = old_d.len() as int;
            assert forall|a: int, b: int| 0 <= a < d.len() && 0 <= b < d.len() && a != b implies #[trigger] d[a].key@ != #[trigger] d[b].key@ by {
                if a < n && b < n {
                    assert(old_d[a].key@ != old_d[b].key@);
                } else if a == n {
                    assert(old_d[b].key@ != k);
                } else {
                    assert(old_d[a].key@ != k);
                }
            }
            assert forall|kk: Seq<char>| cache_has(d, kk) == (cache_has(old_d, kk) || kk == k) by {
                if cache_has(d, kk) {
                    let j = choose|j: int| 0 <= j < d.len() && #[trigger] d[j].key@ == kk;
                    if j < n {
                        assert(old_d[j].key@ == kk);
                    }
                }
                if cache_has(old_d, kk) {
                    let j = choose|j: int| 0 <= j < old_d.len() && #[trigger] old_d[j].key@ == kk;
                    assert(d[j].key@ == kk);
                }
                if kk == k {
                    assert(d[n].key@ == kk);
                }
            }
            assert forall|kk: Seq<char>| cache_has(d, kk) implies #[trigger] cache_view(d)[kk] == cache_view(old_d).insert(k, (created_at as int, report))[kk] by {
                let j = choose|j: int| 0 <= j < d.len() && #[trigger] d[j].key@ == kk;
                lemma_cache_index(d, j);
                if j < n {
                    assert(d[j] == old_d[j]);
                    lemma_cache_index(old_d, j);
                }
            }
            assert(cache_view(d) =~= cache_view(old_d).insert(k, (created_at as int, report)));
        }
        true
    }

    /// A snapshot of the cached fingerprints.
    pub fn get_keys(&self) -> (r: Vec<String>)
        requires
            self.wf(),
        ensures
            forall|k: Seq<char>| self.view().contains_key(k) <==> r.deep_view().contains(k),
            r.len() == self.view().dom().len(),
    {
        let mut out: Vec<String> = Vec::new();
        let mut i: usize = 0;
        while i < self.data.len()
            invariant
                i <= self.data.len(),
                out.len() == i,
                forall|j: int| 0 <= j < i ==> #[trigger] out@[j]@ == self.data@[j].key@,
            decreases self.data.len() - i,
        {
            out.push(self.data[i].key.clone());
            i = i + 1;
        }
        proof {
            let d = self.data@;
            assert forall|k: Seq<char>| self.view().contains_key(k) <==> out.deep_view().contains(k) by {
                if cache_has(d, k) {
                    let j = choose|j: int| 0 <= j < d.len() && #[trigger] d[j].key@ == k;
                    assert(out.deep_view()[j] == k);
                }
                if out.deep_view().contains(k) {
                    let j = choose|j: int| 0 <= j < out.deep_view().len() && #[trigger] out.deep_view()[j] == k;
                    assert(d[j].key@ == k);
                }
            }
            lemma_dom_len(d);
        }
        out
    }

    /// When the report under `key` was created.
    pub fn created_at(&self, key: &str) -> (r: Option<i64>)
        requires
            self.wf(),
        ensures
            r matches Some(t) ==> self.view().contains_key(key@) && self.view()[key@].0 == t,
            r is None ==> !self.view().contains_key(key@),
    {
        match self.position(key) {
            Some(i) => Some(self.data[i].created_at),
            None => None,
        }
    }

    /// Drops the report under `key`, if any.
    pub fn remove(&mut self, key: &str)
        requires
            old(self).wf(),
        ensures
            final(self).wf(),
            final(self).view() == old(self).view().remove(key@),
    {
        match self.position(key) {
            None => {
                assert(self.view() =~= self.view().remove(key@));
            },
            Some(i) => {
                let ghost old_d = self.data@;
                let _ = self.data.remove(i);
                proof {
                    let d = self.data@;
                    let n = i as int;
                    assert forall|j: int| 0 <= j < d.len() implies #[trigger] d[j] == old_d[if j < n { j } else { j + 1 }] by {}
                    assert forall|a: int, b: int| 0 <= a < d.len() && 0 <= b < d.len() && a != b implies #[trigger] d[a].key@ != #[trigger] d[b].key@ by {
                        let aa = if a < n { a } else { a + 1 };
                        let bb = if b < n { b } else { b + 1 };
                        assert(d[a] == old_d[aa] && d[b] == old_d[bb]);
                        assert(old_d[aa].key@ != old_d[bb].key@);
                    }
                    assert forall|kk: Seq<char>| cache_has(d, kk) == (cache_has(old_d, kk) && kk != key@) by {
                        if cache_has(d, kk) {
                            let j = choose|j: int| 0 <= j < d.len() && #[trigger] d[j].key@ == kk;
                            let jj = if j < n { j } else { j + 1 };
                            assert(old_d[jj].key@ == kk);
                            assert(old_d[jj].key@ != old_d[n].key@);
                        }
                        if cache_has(old_d, kk) && kk != key@ {
                            let j = choose|j: int| 0 <= j < old_d.len() && #[trigger] old_d[j].key@ == kk;
                            assert(j != n);
                            let jj = if j < n { j } else { j - 1 };
                            assert(d[jj].key@ == kk);
                        }
                    }
                    assert forall|kk: Seq<char>| cache_has(d, kk) implies #[trigger] cache_view(d)[kk] == cache_view(old_d)[kk] by {
                        let j = choose|j: int| 0 <= j < d.len() && #[trigger] d[j].key@ == kk;
                        lemma_cache_index(d, j);
                        let jj = if j < n { j } else { j + 1 };
                        assert(d[j] == old_d[jj]);
                        lemma_cache_index(old_d, jj);
                    }
                    assert(cache_view(d) =~= cache_view(old_d).remove(key@));
                }
            },
        }
    }

    /// Drops every report that has outlived the retention window at `now`;
    /// returns the fingerprints dropped.
    pub fn remove_expired(&mut self, now: i64, retention: i64) -> (removed: Vec<String>)
        requires
            old(self).wf(),
        ensures
            final(self).wf(),
            forall|k: Seq<char>| #[trigger] final(self).view().contains_key(k) <==> old(self).view().contains_key(k)
                && !expired(now as int, old(self).view()[k].0, retention as int),
            forall|k: Seq<char>| #[trigger] final(self).view().contains_key(k) ==> final(self).view()[k] == old(self).view()[k],
            forall|k: Seq<char>| #[trigger] removed.deep_view().contains(k) <==> (old(self).view().contains_key(k)
                && expired(now as int, old(self).view()[k].0, retention as int)),
    {
        let ghost start = self.view();
        let keys = self.get_keys();
        let ghost ks = keys.deep_view();
        let mut removed: Vec<String> = Vec::new();
        let mut i: usize = 0;
        while i < keys.len()
            invariant
                self.wf(),
                i <= keys.len(),
                ks == keys.deep_view(),
                forall|k: Seq<char>| start.contains_key(k) <==> ks.contains(k),
                forall|k: Seq<char>| #[trigger] self.view().contains_key(k) <==> start.contains_key(k)
                    && !(ks.take(i as int).contains(k) && expired(now as int, start[k].0, retention as int)),
                forall|k: Seq<char>| #[trigger] self.view().contains_key(k) ==> self.view()[k] == start[k],
                forall|k: Seq<char>| #[trigger] removed.deep_view().contains(k) <==> (ks.take(i as int).contains(k)
                    && start.contains_key(k) && expired(now as int, start[k].0, retention as int)),
            decreases keys.len() - i,
        {
            let ghost k = ks[i as int];
            let ghost before = removed.deep_view();
            proof {
                assert(ks.take(i + 1) =~= ks.take(i as int).push(k));
                assert forall|x: Seq<char>| ks.take(i + 1).contains(x) <==> (ks.take(i as int).contains(x) || x == k) by {
                    if ks.take(i + 1).contains(x) {
                        let j = choose|j: int| 0 <= j < i + 1 && #[trigger] ks.take(i + 1)[j] == x;
                        if j < i {
                            assert(ks.take(i as int)[j] == x);
                        }
                    }
                    if ks.take(i as int).contains(x) {
                        let j = choose|j: int| 0 <= j < i && #[trigger] ks.take(i as int)[j] == x;
                        assert(ks.take(i + 1)[j] == x);
                    }
                    if x == k {
                        assert(ks.take(i + 1)[i as int] == x);
                    }
                }
            }
            match self.created_at(keys[i].as_str()) {
                Some(t) => {
                    if (now as i128) - (t as i128) >= retention as i128 {
                        self.remove(keys[i].as_str());
                        removed.push(keys[i].clone());
                        proof {
                            assert(removed.deep_view() =~= before.push(k));
                            assert forall|x: Seq<char>| #[trigger] removed.deep_view().contains(x) <==> (before.contains(x) || x == k) by {
                                if removed.deep_view().contains(x) {
                                    let j = choose|j: int| 0 <= j < removed.deep_view().len() && #[trigger] removed.deep_view()[j] == x;
                                    if j < before.len() {
                                        assert(before[j] == x);
                                    }
                                }
                                if before.contains(x) {
                                    let j = choose|j: int| 0 <= j < before.len() && #[trigger] before[j] == x;
                                    assert(removed.deep_view()[j] == x);
                                }
                                if x == k {
                                    assert(removed.deep_view()[before.len() as int] == x);
                                }
                            }
                        }
                    }
                },
                None => {},
            }
            i = i + 1;
        }
        proof {
            assert(ks.take(keys.len() as int) =~= ks);
        }
        removed
    }
}

proof fn lemma_dom_len<H>(d: Seq<CacheEntry<H>>)
    requires
        keys_distinct(d),
    ensures
        cache_view(d).dom().len() == d.len(),
        cache_view(d).dom().finite(),
    decreases d.len(),
{
    if d.len() == 0 {
        assert(cache_view(d).dom() =~= Set::<Seq<char>>::empty());
    } else {
        let p = d.drop_last();
        assert(keys_distinct(p)) by {
            assert forall|a: int, b: int| 0 <= a < p.len() && 0 <= b < p.len() && a != b implies #[trigger] p[a].key@ != #[trigger] p[b].key@ by {
                assert(d[a].key@ != d[b].key@);
            }
        }
        lemma_dom_len(p);
        let k = d.last().key@;
        assert(!cache_has(p, k)) by {
            if cache_has(p, k) {
                let j = choose|j: int| 0 <= j < p.len() && #[trigger] p[j].key@ == k;
                assert(d[j].key@ != d[d.len() - 1].key@);
            }
        }
        assert forall|kk: Seq<char>| cache_has(d, kk) == (cache_has(p, kk) || kk == k) by {
            if cache_has(d, kk) {
                let j = choose|j: int| 0 <= j < d.len() && #[trigger] d[j].key@ == kk;
                if j < p.len() {
                    assert(p[j].key@ == kk);
                }
            }
            if cache_has(p, kk) {
                let j = choose|j: int| 0 <= j < p.len() && #[trigger] p[j].key@ == kk;
                assert(d[j].key@ == kk);
            }
            if kk == k {
                assert(d[d.len() - 1].key@ == kk);
            }
        }
        assert(cache_view(d).dom() =~= cache_view(p).dom().insert(k));
    }
}

/// How a caller goes on after asking to start a generation.
#[derive(Clone, Copy, Debug, PartialEq, Eq, Structural)]
pub enum StartOutcome {
    /// The artifact is on disk already: return it, compute nothing.
    ArtifactReady,
    /// A report for the fingerprint is cached: merge into it, resuming.
    Attach,
    /// A fresh report was cached for the fingerprint: merge into it.
    Create,
}

/// The engine's shared state: the report cache, the admission counter, and
/// the fingerprints being generated now.
pub struct Share<H> {
    reports: Reports<H>,
    generated_now: Admission,
    generating: Vec<String>,
    max_count_record_in_reports: u16,
}

impl<H> Share<H> {
    pub closed spec fn in_flight(&self) -> nat {
        self.generated_now.in_flight_spec()
    }

    pub closed spec fn max_generations(&self) -> nat {
        self.generated_now.max_spec()
    }

    /// Whether a generation of fingerprint `k` is under way.
    pub closed spec fn generating_spec(&self, k: Seq<char>) -> bool {
        self.generating.deep_view().contains(k)
    }

    pub closed spec fn max_records_spec(&self) -> nat {
        self.max_count_record_in_reports as nat
    }

    /// The cached reports by fingerprint.
    pub closed spec fn cache(&self) -> Map<Seq<char>, (int, H)> {
        self.reports.view()
    }

    /// The cache is well formed and the counter within its bound; every
    /// function that changes a `Share` keeps this and says the bound.
    pub closed spec fn wf(&self) -> bool {
        self.reports.wf() && self.in_flight() <= self.max_generations()
    }

    pub fn new(max_generations: u16, max_count_record_in_reports: u16) -> (r: Share<H>)
        ensures
            r.wf(),
            r.in_flight() <= r.max_generations(),
            r.cache() == Map::<Seq<char>, (int, H)>::empty(),
            r.in_flight() == 0,
            r.max_generations() == max_generations,
            r.max_records_spec() == max_count_record_in_reports,
            forall|k: Seq<char>| !r.generating_spec(k),
    {
        let r = Share {
            reports: Reports::new(),
            generated_now: Admission::new(max_generations),
            generating: Vec::new(),
            max_count_record_in_reports,
        };
        assert forall|k: Seq<char>| !r.generating_spec(k) by {
            assert(r.generating.deep_view() =~= Seq::<Seq<char>>::empty());
        }
        r
    }

    /// Takes an admission slot: succeeds iff fewer generations than allowed
    /// are running.
    pub fn add_generation(&mut self) -> (ok: bool)
        requires
            old(self).wf(),
        ensures
            final(self).wf(),
            final(self).in_flight() <= final(self).max_generations(),
            ok == (old(self).in_flight() < old(self).max_generations()),
            final(self).in_flight() == admission_step(old(self).in_flight(), old(self).max_generations(), AdmissionEvent::Enter),
            final(self).max_generations() == old(self).max_generations(),
            final(self).cache() == old(self).cache(),
            forall|k: Seq<char>| final(self).generating_spec(k) == old(self).generating_spec(k),
    {
        self.generated_now.try_enter()
    }

    /// Gives an admission slot back.
    pub fn take_away_generation(&mut self)
        requires
            old(self).wf(),
        ensures
            final(self).wf(),
            final(self).in_flight() <= final(self).max_generations(),
            final(self).in_flight() == admission_step(old(self).in_flight(), old(self).max_generations(), AdmissionEvent::Leave),
            final(self).max_generations() == old(self).max_generations(),
            final(self).cache() == old(self).cache(),
            forall|k: Seq<char>| final(self).generating_spec(k) == old(self).generating_spec(k),
    {
        self.generated_now.leave()
    }

    pub fn get_number_simultaneous_generations(&self) -> (r: u16)
        ensures
            r == self.in_flight(),
    {
        self.generated_now.current()
    }

    pub fn get_max_count_record_in_reports(&self) -> (r: u16)
        ensures
            r == self.max_records_spec(),
    {
        self.max_count_record_in_reports
    }

    /// Whether a report is cached under `key`.
    pub fn is_exist_report(&self, key: &str) -> (r: bool)
        requires
            self.wf(),
        ensures
            r == self.cache().contains_key(key@),
    {
        self.reports.is_exist_report(key)
    }

    /// The report cached under `key`, or `ReportNotFound` with a message
    /// that names the key.
    pub fn get_processed_report(&self, key: &str) -> (r: Result<&H, ResponseError>)
        requires
            self.wf(),
        ensures
            r matches Ok(h) ==> self.cache().contains_key(key@) && self.cache()[key@].1 == *h,
            r is Err ==> !self.cache().contains_key(key@),
            r matches Err(e) ==> e.0 == error_code(ReportError::ReportNotFound)
                && e.1@ == error_message(ReportError::ReportNotFound) + " "@ + key@,
    {
        match self.reports.get_report(key) {
            Some(h) => Ok(h),
            None => {
                let mut message = crate::text::text_of(ReportError::ReportNotFound.message());
                crate::text::push_str(&mut message, " ");
                crate::text::push_str(&mut message, key);
                Err((ReportError::ReportNotFound.code(), message))
            },
        }
    }

    /// A snapshot of the cached fingerprints.
    pub fn get_keys(&self) -> (r: Vec<String>)
        requires
            self.wf(),
        ensures
            forall|k: Seq<char>| self.cache().contains_key(k) <==> r.deep_view().contains(k),
    {
        self.reports.get_keys()
    }

    /// The janitor's sweep: drops every cached report whose age at `now` is
    /// at least `retention` seconds; returns the fingerprints dropped.
    pub fn remove_report(&mut self, now: i64, retention: i64) -> (removed: Vec<String>)
        requires
            old(self).wf(),
        ensures
            final(self).wf(),
            final(self).in_flight() <= final(self).max_generations(),
            final(self).in_flight() == old(self).in_flight(),
            final(self).max_generations() == old(self).max_generations(),
            forall|k: Seq<char>| #[trigger] final(self).cache().contains_key(k) <==> old(self).cache().contains_key(k)
                && !expired(now as int, old(self).cache()[k].0, retention as int),
            forall|k: Seq<char>| #[trigger] final(self).cache().contains_key(k) ==> final(self).cache()[k] == old(self).cache()[k],
            forall|k: Seq<char>| #[trigger] removed.deep_view().contains(k) <==> (old(self).cache().contains_key(k)
                && expired(now as int, old(self).cache()[k].0, retention as int)),
    {
        self.reports.remove_expired(now, retention)
    }

    /// Whether a generation of `key` is under way.
    pub fn is_generating(&self, key: &str) -> (r: bool)
        ensures
            r == self.generating_spec(key@),
    {
        let mut i: usize = 0;
        while i < self.generating.len()
            invariant
                i <= self.generating.len(),
                forall|j: int| 0 <= j < i ==> #[trigger] self.generating@[j]@ != key@,
            decreases self.generating.len() - i,
        {
            if crate::text::text_eq(self.generating[i].as_str(), key) {
                assert(self.generating.deep_view()[i as int] == key@);
                return true;
            }
            i = i + 1;
        }
        proof {
            if self.generating.deep_view().contains(key@) {
                let j = choose|j: int| 0 <= j < self.generating.deep_view().len() && #[trigger] self.generating.deep_view()[j] == key@;
                assert(self.generating@[j]@ == key@);
            }
        }
        false
    }

    /// Decides how a request for fingerprint `key` proceeds. An artifact on
    /// disk is returned at once, with no slot taken. A fingerprint being
    /// generated is refused, and so is a request over the admission bound;
    /// neither changes anything. Otherwise a slot is taken, the fingerprint
    /// is marked as being generated, and the caller attaches to the cached
    /// report or, when there is none, `fresh` is cached as the report.
    pub fn start_generation(&mut self, key: &String, artifact_exists: bool, created_at: i64, fresh: H) -> (r: Result<StartOutcome, ReportError>)
        requires
            old(self).wf(),
        ensures
            final(self).wf(),
            final(self).in_flight() <= final(self).max_generations(),
            artifact_exists ==> r == Ok::<StartOutcome, ReportError>(StartOutcome::ArtifactReady) && *final(self) == *old(self),
            !artifact_exists && old(self).generating_spec(key@) ==> r == Err::<StartOutcome, ReportError>(ReportError::DuplicateFingerprintInFlight) && *final(self) == *old(self),
            !artifact_exists && !old(self).generating_spec(key@) && old(self).in_flight() >= old(self).max_generations() ==> r == Err::<StartOutcome, ReportError>(ReportError::AdmissionLimitExceeded) && *final(self) == *old(self),
            !artifact_exists && !old(self).generating_spec(key@) && old(self).in_flight() < old(self).max_generations() ==> {
                &&& final(self).in_flight() == old(self).in_flight() + 1
                &&& final(self).max_generations() == old(self).max_generations()
                &&& forall|k: Seq<char>| final(self).generating_spec(k) == (old(self).generating_spec(k) || k == key@)
                &&& old(self).cache().contains_key(key@) ==> r == Ok::<StartOutcome, ReportError>(StartOutcome::Attach) && final(self).cache() == old(self).cache()
                &&& !old(self).cache().contains_key(key@) ==> r == Ok::<StartOutcome, ReportError>(StartOutcome::Create)
                    && final(self).cache() == old(self).cache().insert(key@, (created_at as int, fresh))
            },
    {
        if artifact_exists {
            return Ok(StartOutcome::ArtifactReady);
        }
        if self.is_generating(key.as_str()) {
            return Err(ReportError::DuplicateFingerprintInFlight);
        }
        if self.generated_now.current() >= self.generated_now.max_concurrent() {
            return Err(ReportError::AdmissionLimitExceeded);
        }
        let _ = self.generated_now.try_enter();
        let ghost before = self.generating.deep_view();
        self.generating.push(key.clone());
        proof {
            assert(self.generating.deep_view() =~= before.push(key@));
            assert forall|k: Seq<char>| self.generating.deep_view().contains(k) == (before.contains(k) || k == key@) by {
                let g = self.generating.deep_view();
                if g.contains(k) {
                    let j = choose|j: int| 0 <= j < g.len() && #[trigger] g[j] == k;
                    if j < before.len() {
                        assert(before[j] == k);
                    }
                }
                if before.contains(k) {
                    let j = choose|j: int| 0 <= j < before.len() && #[trigger] before[j] == k;
                    assert(g[j] == k);
                }
                if k == key@ {
                    assert(g[before.len() as int] == k);
                }
            }
        }
        if self.reports.insert_new_report(key.clone(), created_at, fresh) {
            Ok(StartOutcome::Create)
        } else {
            Ok(StartOutcome::Attach)
        }
    }

    /// Ends a generation of `key`, on success or failure: the fingerprint is
    /// no longer marked and its admission slot is given back.
    pub fn finish_generation(&mut self, key: &str)
        requires
            old(self).wf(),
        ensures
            final(self).wf(),
            final(self).in_flight() <= final(self).max_generations(),
            final(self).in_flight() == admission_step(old(self).in_flight(), old(self).max_generations(), AdmissionEvent::Leave),
            final(self).max_generations() == old(self).max_generations(),
            final(self).cache() == old(self).cache(),
            forall|k: Seq<char>| final(self).generating_spec(k) == (old(self).generating_spec(k) && k != key@),
    {
        let ghost g = self.generating.deep_view();
        let mut kept: Vec<String> = Vec::new();
        let mut i: usize = 0;
        while i < self.generating.len()
            invariant
                i <= self.generating.len(),
                g == self.generating.deep_view(),
                forall|k: Seq<char>| kept.deep_view().contains(k) == (g.take(i as int).contains(k) && k != key@),
            decreases self.generating.len() - i,
        {
            let ghost before = kept.deep_view();
            proof {
                assert(g.take(i + 1) =~= g.take(i as int).push(g[i as int]));
                assert forall|x: Seq<char>| g.take(i + 1).contains(x) <==> (g.take(i as int).contains(x) || x == g[i as int]) by {
                    if g.take(i + 1).contains(x) {
                        let j = choose|j: int| 0 <= j < i + 1 && #[trigger] g.take(i + 1)[j] == x;
                        if j < i {
                            assert(g.take(i as int)[j] == x);
                        }
                    }
                    if g.take(i as int).contains(x) {
                        let j = choose|j: int| 0 <= j < i && #[trigger] g.take(i as int)[j] == x;
                        assert(g.take(i + 1)[j] == x);
                    }
                    if x == g[i as int] {
                        assert(g.take(i + 1)[i as int] == x);
                    }
                }
            }
            let same = crate::text::text_eq(self.generating[i].as_str(), key);
            assert(g[i as int] == self.generating@[i as int]@);
            if !same {
                kept.push(self.generating[i].clone());
                proof {
                    let kd = kept.deep_view();
                    assert(kd =~= before.push(g[i as int]));
                    assert forall|x: Seq<char>| kd.contains(x) == (before.contains(x) || x == g[i as int]) by {
                        if kd.contains(x) {
                            let j = choose|j: int| 0 <= j < kd.len() && #[trigger] kd[j] == x;
                            if j < before.len() {
                                assert(before[j] == x);
                            }
                        }
                        if before.contains(x) {
                            let j = choose|j: int| 0 <= j < before.len() && #[trigger] before[j] == x;
                            assert(kd[j] == x);
                        }
                        if x == g[i as int] {
                            assert(kd[before.len() as int] == x);
                        }
                    }
                }
            }
            assert forall|k: Seq<char>| kept.deep_view().contains(k) == (g.take(i + 1).contains(k) && k != key@) by {
                assert(before.contains(k) == (g.take(i as int).contains(k) && k != key@));
            }
            i = i + 1;
        }
        assert(g.take(self.generating.len() as int) =~= g);
        self.generating = kept;
        self.generated_now.leave();
    }
}

} // verus!
