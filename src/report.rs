use vstd::prelude::*;
use crate::error::ReportError;
use crate::filter::{Filter, ReportItemType, ReportType};
use crate::index_map::IndexingReport;
use crate::report_item::{ItemView, ReportItem, merge_outcome, is_day_range};
use crate::tally::MAX_ROWS;

verus! {

/// One report: its kind, the organization it is for, one aggregate per
/// category of source file, whether it has been read in full, and when it
/// was created (seconds since the epoch).
pub struct Report {
    report_type: ReportType,
    report_organization_name: String,
    report_organization_id: String,
    remittance: Option<ReportItem>,
    payments: Option<ReportItem>,
    is_report_read: bool,
    create_at: i64,
}

/// Whether a category has an aggregate slot in a report.
pub open spec fn is_category(t: ReportItemType) -> bool {
    t == ReportItemType::Remittance || t == ReportItemType::Payments
}

impl Report {
    pub closed spec fn kind(&self) -> ReportType {
        self.report_type
    }

    pub closed spec fn name(&self) -> Seq<char> {
        self.report_organization_name@
    }

    pub closed spec fn organization_id(&self) -> Seq<char> {
        self.report_organization_id@
    }

    /// Creation time, seconds since the epoch.
    pub closed spec fn created(&self) -> int {
        self.create_at as int
    }

    pub closed spec fn read(&self) -> bool {
        self.is_report_read
    }

    /// The aggregate of a category, if it was started.
    pub closed spec fn item(&self, t: ReportItemType) -> Option<ReportItem> {
        if t == ReportItemType::Remittance {
            self.remittance
        } else if t == ReportItemType::Payments {
            self.payments
        } else {
            None
        }
    }

    pub open spec fn wf(&self) -> bool {
        forall|t: ReportItemType| #[trigger] self.item(t) matches Some(it) ==> it.wf()
    }

    /// An empty report of a kind for an organization, created at `create_at`.
    pub fn new(report_type: ReportType, provider_id: String, create_at: i64) -> (r: Report)
        ensures
            r.wf(),
            r.kind() == report_type,
            r.organization_id() == provider_id@,
            r.name() == Seq::<char>::empty(),
            !r.read(),
            r.created() == create_at,
            forall|t: ReportItemType| #[trigger] r.item(t) is None,
    {
        Report {
            report_type,
            report_organization_name: String::new(),
            report_organization_id: provider_id,
            remittance: None,
            payments: None,
            is_report_read: false,
            create_at,
        }
    }

    /// Starts (or restarts) the aggregate of a category whose input has
    /// `total_chunks` chunks; a type that is no category is refused.
    pub fn set_report(&mut self, report_item_type: ReportItemType, filter: &Filter, total_chunks: u32) -> (r: Result<(), ReportError>)
        requires
            old(self).wf(),
        ensures
            final(self).wf(),
            r is Ok <==> is_category(report_item_type),
            r is Err ==> r == Err::<(), ReportError>(ReportError::UnknownCategory) && *final(self) == *old(self),
            r is Ok ==> (final(self).item(report_item_type) matches Some(it) && it.view() == (ItemView {
                agg: crate::aggregate::empty_agg(),
                merged: Set::empty(),
                total: total_chunks as int,
            })),
            forall|t: ReportItemType| t != report_item_type ==> #[trigger] final(self).item(t) == old(self).item(t),
            final(self).kind() == old(self).kind(),
            final(self).organization_id() == old(self).organization_id(),
            final(self).name() == old(self).name(),
            final(self).read() == old(self).read(),
            final(self).created() == old(self).created(),
    {
        match report_item_type {
            ReportItemType::Remittance => {
                self.remittance = Some(ReportItem::new(filter, total_chunks));
                proof {
                    assert forall|t: ReportItemType| #[trigger] self.item(t) is Some implies self.item(t)->Some_0.wf() by {
                        if t != report_item_type {
                            assert(old(self).item(t) == self.item(t));
                        }
                    }
                }
                Ok(())
            },
            ReportItemType::Payments => {
                self.payments = Some(ReportItem::new(filter, total_chunks));
                proof {
                    assert forall|t: ReportItemType| #[trigger] self.item(t) is Some implies self.item(t)->Some_0.wf() by {
                        if t != report_item_type {
                            assert(old(self).item(t) == self.item(t));
                        }
                    }
                }
                Ok(())
            },
            _ => Err(ReportError::UnknownCategory),
        }
    }

    /// Starts a category that has no rows: it is complete at once.
    pub fn create_empty_item(&mut self, item_type: ReportItemType, filter: &Filter) -> (r: Result<(), ReportError>)
        requires
            old(self).wf(),
        ensures
            final(self).wf(),
            r is Ok <==> is_category(item_type),
            r is Ok ==> (final(self).item(item_type) matches Some(it) && it.view().total == 0 && it.percent_spec() == 100),
            r is Err ==> *final(self) == *old(self),
            forall|t: ReportItemType| t != item_type ==> #[trigger] final(self).item(t) == old(self).item(t),
    {
        self.set_report(item_type, filter, 0)
    }

    /// Marks the report read in full, just before it is rendered.
    pub fn set_report_read_true(&mut self)
        ensures
            final(self).read(),
            final(self).kind() == old(self).kind(),
            final(self).organization_id() == old(self).organization_id(),
            final(self).name() == old(self).name(),
            final(self).created() == old(self).created(),
            forall|t: ReportItemType| #[trigger] final(self).item(t) == old(self).item(t),
    {
        self.is_report_read = true;
    }

    pub fn is_read(&self) -> (r: bool)
        ensures
            r == self.read(),
    {
        self.is_report_read
    }

    /// Sets the organization id, unless it is set already or `provider_id`
    /// is empty: the first non-empty value stays.
    pub fn set_provider_id(&mut self, provider_id: String)
        ensures
            final(self).organization_id() == if old(self).organization_id().len() == 0 {
                provider_id@
            } else {
                old(self).organization_id()
            },
            final(self).kind() == old(self).kind(),
            final(self).name() == old(self).name(),
            final(self).read() == old(self).read(),
            final(self).created() == old(self).created(),
            forall|t: ReportItemType| #[trigger] final(self).item(t) == old(self).item(t),
    {
        if self.report_organization_id.as_str().unicode_len() == 0 {
            self.report_organization_id = provider_id;
        }
    }

    /// Sets the organization's display name, unless it is set already or
    /// `provider_name` is empty: the first non-empty value stays.
    #[allow(non_snake_case)]
    pub fn set_Provider_name(&mut self, provider_name: String)
        ensures
            final(self).name() == if old(self).name().len() == 0 { provider_name@ } else { old(self).name() },
            final(self).kind() == old(self).kind(),
            final(self).organization_id() == old(self).organization_id(),
            final(self).read() == old(self).read(),
            final(self).created() == old(self).created(),
            forall|t: ReportItemType| #[trigger] final(self).item(t) == old(self).item(t),
    {
        if self.report_organization_name.as_str().unicode_len() == 0 {
            self.report_organization_name = provider_name;
        }
    }

    pub fn get_organization_id(&self) -> (r: String)
        ensures
            r@ == self.organization_id(),
    {
        self.report_organization_id.clone()
    }

    pub fn get_provider_name(&self) -> (r: String)
        ensures
            r@ == self.name(),
    {
        self.report_organization_name.clone()
    }

    pub fn get_create_at(&self) -> (r: i64)
        ensures
            r == self.created(),
    {
        self.create_at
    }

    pub fn get_report_type(&self) -> (r: ReportType)
        ensures
            r == self.kind(),
    {
        self.report_type
    }

    /// The aggregate of a category, if it was started.
    pub fn get_report_item(&self, key: ReportItemType) -> (r: Option<&ReportItem>)
        ensures
            r matches Some(it) ==> self.item(key) == Some(*it),
            r is None ==> self.item(key) is None,
    {
        match key {
            ReportItemType::Remittance => self.remittance.as_ref(),
            ReportItemType::Payments => self.payments.as_ref(),
            _ => None,
        }
    }

    /// The categories started, remittances first.
    pub fn get_all_report_item_keys(&self) -> (r: Vec<ReportItemType>)
        ensures
            forall|t: ReportItemType| r@.contains(t) <==> self.item(t) is Some,
    {
        let mut keys: Vec<ReportItemType> = Vec::new();
        if self.remittance.is_some() {
            keys.push(ReportItemType::Remittance);
        }
        if self.payments.is_some() {
            keys.push(ReportItemType::Payments);
        }
        proof {
            assert forall|t: ReportItemType| keys@.contains(t) <==> self.item(t) is Some by {
                if keys@.contains(t) {
                    let j = choose|j: int| 0 <= j < keys@.len() && keys@[j] == t;
                }
                if t == ReportItemType::Remittance && self.remittance is Some {
                    assert(keys@[0] == t);
                }
                if t == ReportItemType::Payments && self.payments is Some {
                    assert(keys@[keys@.len() - 1] == t);
                }
            }
        }
        keys
    }

    /// Load percentage of the category a filter was resolved to; 0 when the
    /// filter has no category or the category was not started.
    pub fn get_percent_load_by_report_item_type(&self, filter: &Filter) -> (r: u64)
        requires
            self.wf(),
        ensures
            match filter.type_report_that_generated {
                Some(t) => match self.item(t) {
                    Some(it) => r == it.percent_spec(),
                    None => r == 0,
                },
                None => r == 0,
            },
    {
        match filter.type_report_that_generated {
            None => 0,
            Some(t) => match self.get_report_item(t) {
                None => 0,
                Some(item) => {
                    assert(self.item(t) matches Some(it) && it.wf());
                    item.get_percent_load()
                },
            },
        }
    }

    /// Merges a chunk of rows into the aggregate of category `type_report`
    /// (see `ReportItem::merge_chunk`); a category not started is refused.
    /// The first chunk, once merged, names the organization from its first
    /// row's provider unless a name is set already.
    pub fn push_in_share_records_by_chunks(
        &mut self,
        records: &Vec<Vec<String>>,
        chunk_num: u32,
        collect_indexing: &IndexingReport,
        type_report: ReportItemType,
    ) -> (r: Result<u64, ReportError>)
        requires
            old(self).wf(),
            old(self).item(type_report) matches Some(it) ==> chunk_num < it.total_chunks && it.aggregate.rows + records.len() <= MAX_ROWS,
        ensures
            final(self).wf(),
            old(self).item(type_report) is None ==> r == Err::<u64, ReportError>(ReportError::CategoryNotStarted) && *final(self) == *old(self),
            old(self).item(type_report) matches Some(it) ==> match merge_outcome(it.view(), chunk_num as int, records.deep_view(), *collect_indexing, old(self).kind(), type_report) {
                Ok(v) => r is Ok && (final(self).item(type_report) matches Some(it2) && it2.view() == v && r == Ok::<u64, ReportError>(it2.percent_spec() as u64)),
                Err(e) => r == Err::<u64, ReportError>(e) && final(self).item(type_report) == old(self).item(type_report),
            },
            old(self).item(type_report) matches Some(it) ==> (final(self).item(type_report) matches Some(it2)
                && it2.percent_spec() >= it.percent_spec() && it2.total_chunks == it.total_chunks),
            forall|t: ReportItemType| t != type_report ==> #[trigger] final(self).item(t) == old(self).item(t),
            final(self).kind() == old(self).kind(),
            final(self).organization_id() == old(self).organization_id(),
            final(self).name() == (if r is Ok && chunk_num == 0 && old(self).name().len() == 0 && records.len() > 0
                && crate::row::cell(records@[0].deep_view(), collect_indexing.index_provider) is Some {
                crate::row::cell(records@[0].deep_view(), collect_indexing.index_provider)->Some_0
            } else {
                old(self).name()
            }),
            final(self).read() == old(self).read(),
            final(self).created() == old(self).created(),
    {
        let r = self.merge_into(records, chunk_num, collect_indexing, type_report);
        let ghost mid = *self;
        if r.is_ok() && chunk_num == 0 && self.report_organization_name.as_str().unicode_len() == 0 && records.len() > 0 {
            if let Some(i) = collect_indexing.index_provider {
                if i < records[0].len() {
                    self.report_organization_name = records[0][i].clone();
                }
            }
        }
        assert(self.remittance == mid.remittance && self.payments == mid.payments);
        assert(forall|t: ReportItemType| #[trigger] self.item(t) == mid.item(t));
        r
    }

    fn merge_into(
        &mut self,
        records: &Vec<Vec<String>>,
        chunk_num: u32,
        collect_indexing: &IndexingReport,
        type_report: ReportItemType,
    ) -> (r: Result<u64, ReportError>)
        requires
            old(self).wf(),
            old(self).item(type_report) matches Some(it) ==> chunk_num < it.total_chunks && it.aggregate.rows + records.len() <= MAX_ROWS,
        ensures
            final(self).wf(),
            old(self).item(type_report) is None ==> r == Err::<u64, ReportError>(ReportError::CategoryNotStarted) && *final(self) == *old(self),
            old(self).item(type_report) matches Some(it) ==> match merge_outcome(it.view(), chunk_num as int, records.deep_view(), *collect_indexing, old(self).kind(), type_report) {
                Ok(v) => r is Ok && (final(self).item(type_report) matches Some(it2) && it2.view() == v && r == Ok::<u64, ReportError>(it2.percent_spec() as u64)),
                Err(e) => r == Err::<u64, ReportError>(e) && final(self).item(type_report) == old(self).item(type_report),
            },
            old(self).item(type_report) matches Some(it) ==> (final(self).item(type_report) matches Some(it2)
                && it2.percent_spec() >= it.percent_spec() && it2.total_chunks == it.total_chunks),
            forall|t: ReportItemType| t != type_report ==> #[trigger] final(self).item(t) == old(self).item(t),
            final(self).kind() == old(self).kind(),
            final(self).organization_id() == old(self).organization_id(),
            final(self).name() == old(self).name(),
            final(self).read() == old(self).read(),
            final(self).created() == old(self).created(),
    {
        let kind = self.report_type;
        match type_report {
            ReportItemType::Remittance => {
                match self.remittance.take() {
                    None => Err(ReportError::CategoryNotStarted),
                    Some(mut item) => {
                        assert(old(self).item(ReportItemType::Remittance) == Some(item));
                        let r = item.merge_chunk(records, chunk_num, collect_indexing, type_report, kind);
                        self.remittance = Some(item);
                        r
                    },
                }
            },
            ReportItemType::Payments => {
                match self.payments.take() {
                    None => Err(ReportError::CategoryNotStarted),
                    Some(mut item) => {
                        assert(old(self).item(ReportItemType::Payments) == Some(item));
                        let r = item.merge_chunk(records, chunk_num, collect_indexing, type_report, kind);
                        self.payments = Some(item);
                        r
                    },
                }
            },
            _ => Err(ReportError::CategoryNotStarted),
        }
    }
}

impl Report {
    /// The first and last day the report covers: those of the remittances
    /// when that category was started, else those of the payments.
    pub fn get_remittance_and_payments_date(&self) -> (r: Option<(i64, i64)>)
        ensures
            self.item(ReportItemType::Remittance) matches Some(it) ==> is_day_range(it.aggregate.days.entries@, r),
            self.item(ReportItemType::Remittance) is None ==> (self.item(ReportItemType::Payments) matches Some(it) ==> is_day_range(it.aggregate.days.entries@, r)),
            self.item(ReportItemType::Remittance) is None && self.item(ReportItemType::Payments) is None ==> r is None,
    {
        match &self.remittance {
            Some(item) => item.day_range(),
            None => match &self.payments {
                Some(item) => item.day_range(),
                None => None,
            },
        }
    }
}

impl Report {
    /// Readies a category for `total_chunks` chunks: a started category with
    /// that many chunks is kept, to resume from the chunks merged so far
    /// (`Ok(true)`); otherwise the category starts empty (`Ok(false)`). A type
    /// that is no category is refused.
    pub fn prepare_category(&mut self, item_type: ReportItemType, filter: &Filter, total_chunks: u32) -> (r: Result<bool, ReportError>)
        requires
            old(self).wf(),
        ensures
            final(self).wf(),
            !is_category(item_type) ==> r == Err::<bool, ReportError>(ReportError::UnknownCategory) && *final(self) == *old(self),
            is_category(item_type) && (old(self).item(item_type) matches Some(it) && it.total_chunks == total_chunks)
                ==> r == Ok::<bool, ReportError>(true) && *final(self) == *old(self),
            is_category(item_type) && !(old(self).item(item_type) matches Some(it) && it.total_chunks == total_chunks)
                ==> r == Ok::<bool, ReportError>(false) && (final(self).item(item_type) matches Some(it) && it.view() == (ItemView {
                    agg: crate::aggregate::empty_agg(),
                    merged: Set::empty(),
                    total: total_chunks as int,
                })),
            forall|t: ReportItemType| t != item_type ==> #[trigger] final(self).item(t) == old(self).item(t),
    {
        let resume = match self.get_report_item(item_type) {
            Some(item) => item.total_chunks == total_chunks,
            None => false,
        };
        if resume {
            return Ok(true);
        }
        match self.set_report(item_type, filter, total_chunks) {
            Ok(()) => Ok(false),
            Err(e) => Err(e),
        }
    }
}

} // verus!
