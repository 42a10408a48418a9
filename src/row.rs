use vstd::prelude::*;
use crate::error::Field;
use crate::fields::{date_value, money_value, parse_date, parse_money, MONEY_BOUND};
use crate::filter::{ReportItemType, ReportType};
use crate::index_map::IndexingReport;
use crate::text::{lower_of, to_lower};

verus! {

/// What one row contributes to the aggregates.
pub struct RowFacts {
    pub day: i32,
    pub amount: i128,
    pub commission: i128,
    pub pay_sys: i128,
    pub bank: i128,
    pub payment: i128,
    pub eops: i128,
    pub partner: i128,
    /// The vendor rollup's key: the transfer type, or else the vendor.
    pub vendor_key: String,
    pub provider: String,
    /// The vendor, for merchant reports; empty otherwise.
    pub vendor: String,
    /// The payment system in lowercase, for merchant reports; empty otherwise.
    pub system: String,
}

pub struct RowV {
    pub day: int,
    pub amount: int,
    pub commission: int,
    pub pay_sys: int,
    pub bank: int,
    pub payment: int,
    pub eops: int,
    pub partner: int,
    pub vendor_key: Seq<char>,
    pub provider: Seq<char>,
    pub vendor: Seq<char>,
    pub system: Seq<char>,
}

impl RowFacts {
    pub open spec fn view(&self) -> RowV {
        RowV {
            day: self.day as int,
            amount: self.amount as int,
            commission: self.commission as int,
            pay_sys: self.pay_sys as int,
            bank: self.bank as int,
            payment: self.payment as int,
            eops: self.eops as int,
            partner: self.partner as int,
            vendor_key: self.vendor_key@,
            provider: self.provider@,
            vendor: self.vendor@,
            system: self.system@,
        }
    }

    /// Every money value is below the bound in absolute value.
    pub open spec fn bounded(&self) -> bool {
        &&& -MONEY_BOUND < self.amount < MONEY_BOUND
        &&& -MONEY_BOUND < self.commission < MONEY_BOUND
        &&& -MONEY_BOUND < self.pay_sys < MONEY_BOUND
        &&& -MONEY_BOUND < self.bank < MONEY_BOUND
        &&& -MONEY_BOUND < self.payment < MONEY_BOUND
        &&& -MONEY_BOUND < self.eops < MONEY_BOUND
        &&& -MONEY_BOUND < self.partner < MONEY_BOUND
    }
}

/// The cell at a column, when the column is known and the row reaches it.
pub open spec fn cell(row: Seq<Seq<char>>, idx: Option<usize>) -> Option<Seq<char>> {
    match idx {
        Some(i) => if i < row.len() { Some(row[i as int]) } else { None },
        None => None,
    }
}

pub open spec fn money_cell(row: Seq<Seq<char>>, idx: Option<usize>) -> Option<int> {
    match cell(row, idx) {
        Some(c) => money_value(c),
        None => None,
    }
}

pub open spec fn date_cell(row: Seq<Seq<char>>, idx: Option<usize>) -> Option<int> {
    match cell(row, idx) {
        Some(c) => date_value(c),
        None => None,
    }
}

/// The column that keys the vendor rollup: the transfer type where the file
/// has one, else the vendor.
pub open spec fn key_index(ix: IndexingReport) -> Option<usize> {
    if ix.index_tran_type is Some { ix.index_tran_type } else { ix.index_vendor }
}

pub open spec fn key_field(ix: IndexingReport) -> Field {
    if ix.index_tran_type is Some { Field::TranType } else { Field::Vendor }
}

/// A row's facts, or the first field (in this order) that is missing or
/// malformed.
pub open spec fn row_view(row: Seq<Seq<char>>, ix: IndexingReport, kind: ReportType, cat: ReportItemType) -> Result<RowV, Field> {
    let merchant = kind == ReportType::Merchant;
    let pay = cat == ReportItemType::Payments;
    if date_cell(row, ix.index_date) is None { Err(Field::Date) }
    else if money_cell(row, ix.index_amount) is None { Err(Field::Amount) }
    else if money_cell(row, ix.index_commission) is None { Err(Field::Commission) }
    else if money_cell(row, ix.index_commission_sys) is None { Err(Field::CommissionSys) }
    else if money_cell(row, ix.index_commission_bank) is None { Err(Field::CommissionBank) }
    else if money_cell(row, ix.index_commission_eops) is None { Err(Field::CommissionEops) }
    else if money_cell(row, ix.index_commission_partner) is None { Err(Field::CommissionPartner) }
    else if pay && money_cell(row, ix.index_commission_payment) is None { Err(Field::CommissionPayment) }
    else if cell(row, key_index(ix)) is None { Err(key_field(ix)) }
    else if cell(row, ix.index_provider) is None { Err(Field::Provider) }
    else if merchant && cell(row, ix.index_vendor) is None { Err(Field::Vendor) }
    else if merchant && cell(row, ix.index_payment_system) is None { Err(Field::PaymentSystem) }
    else {
        Ok(RowV {
            day: date_cell(row, ix.index_date).unwrap(),
            amount: money_cell(row, ix.index_amount).unwrap(),
            commission: money_cell(row, ix.index_commission).unwrap(),
            pay_sys: money_cell(row, ix.index_commission_sys).unwrap(),
            bank: money_cell(row, ix.index_commission_bank).unwrap(),
            payment: if pay { money_cell(row, ix.index_commission_payment).unwrap() } else { 0 },
            eops: money_cell(row, ix.index_commission_eops).unwrap(),
            partner: money_cell(row, ix.index_commission_partner).unwrap(),
            vendor_key: cell(row, key_index(ix)).unwrap(),
            provider: cell(row, ix.index_provider).unwrap(),
            vendor: if merchant { cell(row, ix.index_vendor).unwrap() } else { Seq::empty() },
            system: if merchant { lower_of(cell(row, ix.index_payment_system).unwrap()) } else { Seq::empty() },
        })
    }
}

fn cell_at(row: &Vec<String>, idx: Option<usize>) -> (r: Option<&String>)
    ensures
        r matches Some(s) ==> cell(row.deep_view(), idx) == Some(s@),
        r is None ==> cell(row.deep_view(), idx) is None,
{
    match idx {
        Some(i) => if i < row.len() { Some(&row[i]) } else { None },
        None => None,
    }
}

fn money_at(row: &Vec<String>, idx: Option<usize>) -> (r: Option<i128>)
    ensures
        r matches Some(v) ==> money_cell(row.deep_view(), idx) == Some(v as int) && -MONEY_BOUND < v < MONEY_BOUND,
        r is None ==> money_cell(row.deep_view(), idx) is None,
{
    match cell_at(row, idx) {
        Some(c) => parse_money(c.as_str()),
        None => None,
    }
}

/// Reads the facts of one row.
pub fn parse_row(row: &Vec<String>, ix: &IndexingReport, kind: ReportType, cat: ReportItemType) -> (r: Result<RowFacts, Field>)
    ensures
        r matches Ok(f) ==> row_view(row.deep_view(), *ix, kind, cat) == Ok::<RowV, Field>(f.view()) && f.bounded(),
        r matches Err(e) ==> row_view(row.deep_view(), *ix, kind, cat) == Err::<RowV, Field>(e),
{
    let merchant = kind == ReportType::Merchant;
    let pay = cat == ReportItemType::Payments;
    let day = match cell_at(row, ix.index_date) {
        Some(c) => match parse_date(c.as_str()) {
            Some(d) => d,
            None => return Err(Field::Date),
        },
        None => return Err(Field::Date),
    };
    let amount = match money_at(row, ix.index_amount) { Some(v) => v, None => return Err(Field::Amount) };
    let commission = match money_at(row, ix.index_commission) { Some(v) => v, None => return Err(Field::Commission) };
    let pay_sys = match money_at(row, ix.index_commission_sys) { Some(v) => v, None => return Err(Field::CommissionSys) };
    let bank = match money_at(row, ix.index_commission_bank) { Some(v) => v, None => return Err(Field::CommissionBank) };
    let eops = match money_at(row, ix.index_commission_eops) { Some(v) => v, None => return Err(Field::CommissionEops) };
    let partner = match money_at(row, ix.index_commission_partner) { Some(v) => v, None => return Err(Field::CommissionPartner) };
    let payment = if pay {
        match money_at(row, ix.index_commission_payment) { Some(v) => v, None => return Err(Field::CommissionPayment) }
    } else {
        0
    };
    let key_idx = if ix.index_tran_type.is_some() { ix.index_tran_type } else { ix.index_vendor };
    let vendor_key = match cell_at(row, key_idx) {
        Some(c) => c.clone(),
        None => return Err(if ix.index_tran_type.is_some() { Field::TranType } else { Field::Vendor }),
    };
    let provider = match cell_at(row, ix.index_provider) { Some(c) => c.clone(), None => return Err(Field::Provider) };
    let mut vendor = String::new();
    let mut system = String::new();
    if merchant {
        vendor = match cell_at(row, ix.index_vendor) { Some(c) => c.clone(), None => return Err(Field::Vendor) };
        system = match cell_at(row, ix.index_payment_system) { Some(c) => to_lower(c.as_str()), None => return Err(Field::PaymentSystem) };
    }
    Ok(RowFacts { day, amount, commission, pay_sys, bank, payment, eops, partner, vendor_key, provider, vendor, system })
}

} // verus!
