use vstd::prelude::*;
use crate::error::{Field, ReportError};
use crate::filter::ReportItemType;
use crate::text::{lower_of, text_eq, to_lower};

verus! {

/// Positions of the columns the aggregation reads, found from a file's header.
#[derive(Clone, Copy, Debug, PartialEq, Eq, Structural)]
pub struct IndexingReport {
    pub index_commission: Option<usize>,
    pub index_commission_sys: Option<usize>,
    pub index_commission_bank: Option<usize>,
    pub index_commission_payment: Option<usize>,
    pub index_commission_eops: Option<usize>,
    pub index_commission_partner: Option<usize>,
    pub commission_secondbank: Option<usize>,
    pub index_date: Option<usize>,
    pub index_provider: Option<usize>,
    pub index_provider_id: Option<usize>,
    pub index_mode: Option<usize>,
    pub index_status: Option<usize>,
    pub index_amount: Option<usize>,
    pub index_vendor: Option<usize>,
    pub index_merchant_id: Option<usize>,
    pub index_tran_type: Option<usize>,
    pub index_payment_system: Option<usize>,
}

pub open spec fn pick(hit: bool, i: usize, prev: Option<usize>) -> Option<usize> {
    if hit { Some(i) } else { prev }
}

/// The index map after reading header cell `i`, lowercased to `h`.
pub open spec fn header_step(ix: IndexingReport, h: Seq<char>, i: usize, cat: ReportItemType) -> IndexingReport {
    let pay = cat == ReportItemType::Payments;
    let rem = cat == ReportItemType::Remittance;
    IndexingReport {
        index_provider: pick(h == "провайдер"@, i, ix.index_provider),
        index_provider_id: pick(h == "provider_id"@, i, ix.index_provider_id),
        index_status: pick(h == "статус"@, i, ix.index_status),
        index_mode: pick(h == "режим"@, i, ix.index_mode),
        index_amount: pick(h == "сумма"@, i, ix.index_amount),
        index_commission: pick(h == "комиссия"@, i, ix.index_commission),
        index_commission_eops: pick(h == "комиссия eops"@ || h == "commission_eops"@, i, ix.index_commission_eops),
        index_commission_sys: pick(h == "комиссия comanyname"@ || h == "commission_comanyname"@, i, ix.index_commission_sys),
        index_commission_bank: pick(h == "комиссия bank"@ || h == "commission_bank"@, i, ix.index_commission_bank),
        index_commission_partner: pick(h == "комиссия partner"@ || h == "commission_partner"@, i, ix.index_commission_partner),
        index_date: pick(h == "дата транзакции"@, i, ix.index_date),
        index_tran_type: pick(rem && h == "tran_type"@, i, ix.index_tran_type),
        index_commission_payment: pick(pay && h == "комиссия payment"@, i, ix.index_commission_payment),
        commission_secondbank: pick(pay && h == "commission_secondbank"@, i, ix.commission_secondbank),
        index_vendor: pick(pay && h == "вендор"@, i, ix.index_vendor),
        index_merchant_id: pick(pay && h == "вендор id"@, i, ix.index_merchant_id),
        index_payment_system: pick(pay && h == "платёжная система"@, i, ix.index_payment_system),
    }
}

/// The index map after reading a whole header row.
pub open spec fn apply_headers(ix: IndexingReport, hs: Seq<Seq<char>>, cat: ReportItemType) -> IndexingReport
    decreases hs.len(),
{
    if hs.len() == 0 {
        ix
    } else {
        header_step(apply_headers(ix, hs.drop_last(), cat), lower_of(hs.last()), (hs.len() - 1) as usize, cat)
    }
}

/// The first column, in checking order, that the category needs and the map
/// lacks.
pub open spec fn first_missing(ix: IndexingReport, cat: ReportItemType) -> Option<Field> {
    if ix.index_commission is None { Some(Field::Commission) }
    else if ix.index_date is None { Some(Field::Date) }
    else if ix.index_provider is None { Some(Field::Provider) }
    else if ix.index_provider_id is None { Some(Field::ProviderId) }
    else if ix.index_mode is None { Some(Field::Mode) }
    else if ix.index_status is None { Some(Field::Status) }
    else if ix.index_amount is None { Some(Field::Amount) }
    else if ix.index_commission_sys is None { Some(Field::CommissionSys) }
    else if ix.index_commission_bank is None { Some(Field::CommissionBank) }
    else if ix.index_commission_eops is None { Some(Field::CommissionEops) }
    else if ix.index_commission_partner is None { Some(Field::CommissionPartner) }
    else if cat == ReportItemType::Remittance && ix.index_tran_type is None { Some(Field::TranType) }
    else if cat == ReportItemType::Payments && ix.index_commission_payment is None { Some(Field::CommissionPayment) }
    else if cat == ReportItemType::Payments && ix.index_vendor is None { Some(Field::Vendor) }
    else { None }
}

fn pick_exec(hit: bool, i: usize, prev: Option<usize>) -> (r: Option<usize>)
    ensures
        r == pick(hit, i, prev),
{
    if hit { Some(i) } else { prev }
}

impl IndexingReport {
    /// A map with no column found.
    pub fn new() -> (r: IndexingReport)
        ensures
            r == (IndexingReport {
                index_commission: None,
                index_commission_sys: None,
                index_commission_bank: None,
                index_commission_payment: None,
                index_commission_eops: None,
                index_commission_partner: None,
                commission_secondbank: None,
                index_date: None,
                index_provider: None,
                index_provider_id: None,
                index_mode: None,
                index_status: None,
                index_amount: None,
                index_vendor: None,
                index_merchant_id: None,
                index_tran_type: None,
                index_payment_system: None,
            }),
    {
        IndexingReport {
            index_commission: None,
            index_commission_sys: None,
            index_commission_bank: None,
            index_commission_payment: None,
            index_commission_eops: None,
            index_commission_partner: None,
            commission_secondbank: None,
            index_date: None,
            index_provider: None,
            index_provider_id: None,
            index_mode: None,
            index_status: None,
            index_amount: None,
            index_vendor: None,
            index_merchant_id: None,
            index_tran_type: None,
            index_payment_system: None,
        }
    }

    fn record_header(&mut self, h: &str, i: usize, cat: ReportItemType)
        ensures
            *final(self) == header_step(*old(self), h@, i, cat),
    {
        let pay = cat == ReportItemType::Payments;
        let rem = cat == ReportItemType::Remittance;
        self.index_provider = pick_exec(text_eq(h, "провайдер"), i, self.index_provider);
        self.index_provider_id = pick_exec(text_eq(h, "provider_id"), i, self.index_provider_id);
        self.index_status = pick_exec(text_eq(h, "статус"), i, self.index_status);
        self.index_mode = pick_exec(text_eq(h, "режим"), i, self.index_mode);
        self.index_amount = pick_exec(text_eq(h, "сумма"), i, self.index_amount);
        self.index_commission = pick_exec(text_eq(h, "комиссия"), i, self.index_commission);
        self.index_commission_eops = pick_exec(text_eq(h, "комиссия eops") || text_eq(h, "commission_eops"), i, self.index_commission_eops);
        self.index_commission_sys = pick_exec(text_eq(h, "комиссия comanyname") || text_eq(h, "commission_comanyname"), i, self.index_commission_sys);
        self.index_commission_bank = pick_exec(text_eq(h, "комиссия bank") || text_eq(h, "commission_bank"), i, self.index_commission_bank);
        self.index_commission_partner = pick_exec(text_eq(h, "комиссия partner") || text_eq(h, "commission_partner"), i, self.index_commission_partner);
        self.index_date = pick_exec(text_eq(h, "дата транзакции"), i, self.index_date);
        self.index_tran_type = pick_exec(rem && text_eq(h, "tran_type"), i, self.index_tran_type);
        self.index_commission_payment = pick_exec(pay && text_eq(h, "комиссия payment"), i, self.index_commission_payment);
        self.commission_secondbank = pick_exec(pay && text_eq(h, "commission_secondbank"), i, self.commission_secondbank);
        self.index_vendor = pick_exec(pay && text_eq(h, "вендор"), i, self.index_vendor);
        self.index_merchant_id = pick_exec(pay && text_eq(h, "вендор id"), i, self.index_merchant_id);
        self.index_payment_system = pick_exec(pay && text_eq(h, "платёжная система"), i, self.index_payment_system);
    }

    /// Reads a header row: each cell, lowercased, that names a column the
    /// category uses sets that column's position; a later cell wins.
    pub fn find_index_by_name(&mut self, record: &Vec<String>, report_type: ReportItemType)
        ensures
            *final(self) == apply_headers(*old(self), record.deep_view(), report_type),
    {
        let ghost hs = record.deep_view();
        let ghost start = *self;
        let mut i: usize = 0;
        assert(hs.take(0) =~= Seq::<Seq<char>>::empty());
        while i < record.len()
            invariant
                i <= record.len(),
                hs == record.deep_view(),
                *self == apply_headers(start, hs.take(i as int), report_type),
            decreases record.len() - i,
        {
            let lower = to_lower(record[i].as_str());
            self.record_header(lower.as_str(), i, report_type);
            proof {
                let t = hs.take(i + 1);
                assert(t.drop_last() =~= hs.take(i as int));
                assert(t.last() == record@[i as int]@);
            }
            i = i + 1;
        }
        assert(hs.take(record.len() as int) =~= hs);
    }

    /// Ok when every column the category needs was found; otherwise the
    /// first one missing.
    pub fn check_which_fields_not_found(&self, report_type: ReportItemType) -> (r: Result<(), ReportError>)
        ensures
            r is Ok <==> first_missing(*self, report_type) is None,
            r matches Err(e) ==> first_missing(*self, report_type) matches Some(f) && e == ReportError::MissingRequiredColumn(f),
    {
        if self.index_commission.is_none() {
            return Err(ReportError::MissingRequiredColumn(Field::Commission));
        }
        if self.index_date.is_none() {
            return Err(ReportError::MissingRequiredColumn(Field::Date));
        }
        if self.index_provider.is_none() {
            return Err(ReportError::MissingRequiredColumn(Field::Provider));
        }
        if self.index_provider_id.is_none() {
            return Err(ReportError::MissingRequiredColumn(Field::ProviderId));
        }
        if self.index_mode.is_none() {
            return Err(ReportError::MissingRequiredColumn(Field::Mode));
        }
        if self.index_status.is_none() {
            return Err(ReportError::MissingRequiredColumn(Field::Status));
        }
        if self.index_amount.is_none() {
            return Err(ReportError::MissingRequiredColumn(Field::Amount));
        }
        if self.index_commission_sys.is_none() {
            return Err(ReportError::MissingRequiredColumn(Field::CommissionSys));
        }
        if self.index_commission_bank.is_none() {
            return Err(ReportError::MissingRequiredColumn(Field::CommissionBank));
        }
        if self.index_commission_eops.is_none() {
            return Err(ReportError::MissingRequiredColumn(Field::CommissionEops));
        }
        if self.index_commission_partner.is_none() {
            return Err(ReportError::MissingRequiredColumn(Field::CommissionPartner));
        }
        if report_type == ReportItemType::Remittance && self.index_tran_type.is_none() {
            return Err(ReportError::MissingRequiredColumn(Field::TranType));
        }
        if report_type == ReportItemType::Payments && self.index_commission_payment.is_none() {
            return Err(ReportError::MissingRequiredColumn(Field::CommissionPayment));
        }
        if report_type == ReportItemType::Payments && self.index_vendor.is_none() {
            return Err(ReportError::MissingRequiredColumn(Field::Vendor));
        }
        Ok(())
    }
}

} // verus!
