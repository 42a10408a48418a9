use vstd::prelude::*;
use crate::error::ResponseError;
use crate::filter::{Filter, ReportType, Status};
use crate::text::{text_of, trim_of, trim_text};

verus! {

/// A report request: the organization it is for, its sub-filters (one per
/// source file) and its kind.
pub struct GenerateFile {
    pub provider_id: Option<String>,
    pub merchant_id: Option<String>,
    pub filters: Vec<Filter>,
    pub report_type: Option<ReportType>,
}

pub open spec fn ids_distinct(filters: Seq<Filter>) -> bool {
    forall|i: int, j: int| 0 <= i < j < filters.len() ==> #[trigger] filters[i].id != #[trigger] filters[j].id
}

impl GenerateFile {
    /// Ok when no two sub-filters name the same file.
    pub fn filters_validation_for_uniqueness(&self) -> (r: Result<(), ResponseError>)
        ensures
            r is Ok <==> ids_distinct(self.filters@),
            r matches Err(e) ==> e.0 == 6453453,
    {
        let n = self.filters.len();
        let mut i: usize = 0;
        while i < n
            invariant
                n == self.filters.len(),
                i <= n,
                forall|a: int, b: int| 0 <= a < b < n && a < i ==> #[trigger] self.filters@[a].id != #[trigger] self.filters@[b].id,
            decreases n - i,
        {
            let mut j: usize = i + 1;
            while j < n
                invariant
                    n == self.filters.len(),
                    i < n,
                    i + 1 <= j <= n,
                    forall|a: int, b: int| 0 <= a < b < n && a < i ==> #[trigger] self.filters@[a].id != #[trigger] self.filters@[b].id,
                    forall|b: int| i < b < j ==> self.filters@[i as int].id != #[trigger] self.filters@[b].id,
                decreases n - j,
            {
                if self.filters[i].id == self.filters[j].id {
                    return Err((6453453, text_of("У вас не может быть нескольких фильтров с одним и тем же id.")));
                }
                j = j + 1;
            }
            i = i + 1;
        }
        Ok(())
    }

    /// A merchant id is allowed only for merchant reports; the kind must be
    /// given.
    pub fn check_merchant_id_by_report_type(&self) -> (r: Result<(), ResponseError>)
        ensures
            self.report_type is None ==> (r matches Err(e) && e.0 == 7357542),
            self.report_type == Some(ReportType::Merchant) ==> r is Ok,
            (self.report_type matches Some(t) && t != ReportType::Merchant) ==> (r is Ok <==> self.merchant_id is None),
            r matches Err(e) ==> self.report_type is None || e.0 == 7357543,
    {
        match self.report_type {
            None => Err((7357542, text_of("report type не был передан в запрос"))),
            Some(ReportType::Merchant) => Ok(()),
            Some(_) => if self.merchant_id.is_none() {
                Ok(())
            } else {
                Err((7357543, text_of("merchant_id может быть передан только для отчета Merchant")))
            },
        }
    }

    /// A provider id is allowed only for agent and taxi-company reports; the
    /// kind must be given.
    pub fn check_provider_id_by_report_type(&self) -> (r: Result<(), ResponseError>)
        ensures
            self.report_type is None ==> (r matches Err(e) && e.0 == 7357542),
            (self.report_type == Some(ReportType::Agent) || self.report_type == Some(ReportType::TaxiCompany)) ==> r is Ok,
            (self.report_type == Some(ReportType::Merchant) || self.report_type == Some(ReportType::Unknown)) ==> (r is Ok <==> self.provider_id is None),
            r matches Err(e) ==> self.report_type is None || e.0 == 8357543,
    {
        match self.report_type {
            None => Err((7357542, text_of("report type не был передан в запрос"))),
            Some(ReportType::Agent) => Ok(()),
            Some(ReportType::TaxiCompany) => Ok(()),
            Some(_) => if self.provider_id.is_none() {
                Ok(())
            } else {
                Err((8357543, text_of("provider_id может быть передан только для отчета Agent/TaxiCompany")))
            },
        }
    }

    /// The field without surrounding whitespace; empty when absent.
    pub fn trim(field: &Option<String>) -> (r: String)
        ensures
            field is None ==> r@ == Seq::<char>::empty(),
            field matches Some(s) ==> r@ == trim_of(s@),
    {
        match field {
            None => String::new(),
            Some(s) => trim_text(s.as_str()),
        }
    }

    /// The organization id the request is for: the trimmed provider id for
    /// agent and taxi-company reports, the trimmed merchant id for merchant
    /// reports, empty otherwise.
    pub fn organization_id(&self) -> (r: String)
        ensures
            (self.report_type == Some(ReportType::Agent) || self.report_type == Some(ReportType::TaxiCompany)) ==> r@ == (match self.provider_id {
                Some(s) => trim_of(s@),
                None => Seq::<char>::empty(),
            }),
            self.report_type == Some(ReportType::Merchant) ==> r@ == (match self.merchant_id {
                Some(s) => trim_of(s@),
                None => Seq::<char>::empty(),
            }),
            (self.report_type is None || self.report_type == Some(ReportType::Unknown)) ==> r@ == Seq::<char>::empty(),
    {
        match self.report_type {
            Some(ReportType::Agent) => GenerateFile::trim(&self.provider_id),
            Some(ReportType::TaxiCompany) => GenerateFile::trim(&self.provider_id),
            Some(ReportType::Merchant) => GenerateFile::trim(&self.merchant_id),
            _ => String::new(),
        }
    }

    /// The statuses, modes and payment-system lists of the sub-filters, in
    /// order; an absent status reads as unknown, an absent mode or list as
    /// empty.
    pub fn get_all_s_m_p(&self) -> (r: (Vec<Status>, Vec<String>, Vec<Vec<String>>))
        ensures
            r.0.len() == self.filters.len() && r.1.len() == self.filters.len() && r.2.len() == self.filters.len(),
            forall|k: int| 0 <= k < self.filters.len() ==> #[trigger] r.0@[k] == (match self.filters@[k].status {
                Some(s) => s,
                None => Status::Unknown,
            }),
            forall|k: int| 0 <= k < self.filters.len() ==> #[trigger] r.1@[k]@ == (match self.filters@[k].mode {
                Some(m) => m@,
                None => Seq::<char>::empty(),
            }),
            forall|k: int| 0 <= k < self.filters.len() ==> #[trigger] r.2@[k].deep_view() == (match self.filters@[k].payments_system {
                Some(p) => p.deep_view(),
                None => Seq::<Seq<char>>::empty(),
            }),
    {
        let mut s: Vec<Status> = Vec::new();
        let mut m: Vec<String> = Vec::new();
        let mut p: Vec<Vec<String>> = Vec::new();
        let mut i: usize = 0;
        while i < self.filters.len()
            invariant
                i <= self.filters.len(),
                s.len() == i && m.len() == i && p.len() == i,
                forall|k: int| 0 <= k < i ==> #[trigger] s@[k] == (match self.filters@[k].status {
                    Some(x) => x,
                    None => Status::Unknown,
                }),
                forall|k: int| 0 <= k < i ==> #[trigger] m@[k]@ == (match self.filters@[k].mode {
                    Some(x) => x@,
                    None => Seq::<char>::empty(),
                }),
                forall|k: int| 0 <= k < i ==> #[trigger] p@[k].deep_view() == (match self.filters@[k].payments_system {
                    Some(x) => x.deep_view(),
                    None => Seq::<Seq<char>>::empty(),
                }),
            decreases self.filters.len() - i,
        {
            let f = &self.filters[i];
            s.push(match f.status {
                Some(x) => x,
                None => Status::Unknown,
            });
            m.push(match &f.mode {
                Some(x) => x.clone(),
                None => String::new(),
            });
            let list = match &f.payments_system {
                Some(x) => crate::chunks::copy_texts(x),
                None => Vec::new(),
            };
            assert(f.payments_system is None ==> list.deep_view() =~= Seq::<Seq<char>>::empty());
            p.push(list);
            i = i + 1;
        }
        (s, m, p)
    }
}

} // verus!
