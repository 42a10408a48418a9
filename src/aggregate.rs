use vstd::prelude::*;
use crate::filter::{ReportItemType, ReportType};
use crate::row::{RowFacts, RowV};
use crate::tally::{
    Tally, TallyTable, TallyV, KeyV, MAX_ROWS, ROW_BOUND, within, tally_within, map_add_one,
    map_sum, map_within, zero_tally, keys_unique, lemma_add_one_within, lemma_sum_within,
};

verus! {

/// Sums over all rows: amount, total commission, and the five commission parts.
#[derive(Clone, Copy, Debug)]
pub struct Totals {
    pub amount: i128,
    pub commission: i128,
    pub commission_pay_sys: i128,
    pub commission_bank: i128,
    pub commission_payment: i128,
    pub commission_eops: i128,
    pub commission_partner: i128,
}

pub type TotalsV = (int, int, int, int, int, int, int);

impl Totals {
    pub open spec fn view(&self) -> TotalsV {
        (
            self.amount as int,
            self.commission as int,
            self.commission_pay_sys as int,
            self.commission_bank as int,
            self.commission_payment as int,
            self.commission_eops as int,
            self.commission_partner as int,
        )
    }
}

pub open spec fn totals_add(a: TotalsV, b: TotalsV) -> TotalsV {
    (a.0 + b.0, a.1 + b.1, a.2 + b.2, a.3 + b.3, a.4 + b.4, a.5 + b.5, a.6 + b.6)
}

pub open spec fn totals_within(t: TotalsV, rows: nat) -> bool {
    within(t.0, rows) && within(t.1, rows) && within(t.2, rows) && within(t.3, rows) && within(t.4, rows)
        && within(t.5, rows) && within(t.6, rows)
}

/// An aggregate as numbers and maps.
pub struct AggView {
    pub rows: int,
    pub totals: TotalsV,
    /// Per day (key `(day, "", "")`): count, amount, commission.
    pub days: Map<KeyV, TallyV>,
    /// Per vendor key: count, amount, commission, bank fee, platform fee.
    pub vendors: Map<KeyV, TallyV>,
    /// Per provider, for taxi-company and agent reports: count, amount, commission.
    pub providers: Map<KeyV, TallyV>,
    /// Per provider, for agent remittances: count, amount, commission,
    /// platform plus bank fee, partner fee.
    pub agents: Map<KeyV, TallyV>,
    /// Per vendor and payment system, for merchant reports: count, amount, commission.
    pub merchants: Map<KeyV, TallyV>,
}

pub open spec fn empty_agg() -> AggView {
    AggView {
        rows: 0,
        totals: (0, 0, 0, 0, 0, 0, 0),
        days: Map::empty(),
        vendors: Map::empty(),
        providers: Map::empty(),
        agents: Map::empty(),
        merchants: Map::empty(),
    }
}

pub open spec fn day_key(d: int) -> KeyV {
    (d, Seq::empty(), Seq::empty())
}

pub open spec fn name_key(n: Seq<char>) -> KeyV {
    (0, n, Seq::empty())
}

/// The aggregate after one more row. The row counts on the day axis only
/// when its day lies in the span `lo..=hi`; every other sum takes it.
pub open spec fn agg_add_row(a: AggView, f: RowV, kind: ReportType, cat: ReportItemType, lo: int, hi: int) -> AggView {
    let pay = if cat == ReportItemType::Payments { f.payment } else { 0 };
    let base = (1, f.amount, f.commission, 0, 0);
    AggView {
        rows: a.rows + 1,
        totals: totals_add(a.totals, (f.amount, f.commission, f.pay_sys, f.bank, pay, f.eops, f.partner)),
        days: if lo <= f.day <= hi { map_add_one(a.days, day_key(f.day), base) } else { a.days },
        vendors: map_add_one(a.vendors, name_key(f.vendor_key), (1, f.amount, f.commission, f.bank, f.pay_sys)),
        providers: if kind == ReportType::TaxiCompany || kind == ReportType::Agent {
            map_add_one(a.providers, name_key(f.provider), base)
        } else {
            a.providers
        },
        agents: if kind == ReportType::Agent && cat == ReportItemType::Remittance {
            map_add_one(a.agents, name_key(f.provider), (1, f.amount, f.commission, f.pay_sys + f.bank, f.partner))
        } else {
            a.agents
        },
        merchants: if kind == ReportType::Merchant {
            map_add_one(a.merchants, (0, f.vendor, f.system), base)
        } else {
            a.merchants
        },
    }
}

/// The aggregate with day `d` on its day axis.
pub open spec fn agg_touch_day(a: AggView, d: int) -> AggView {
    AggView { days: map_add_one(a.days, day_key(d), zero_tally()), ..a }
}

/// The sum of two aggregates.
pub open spec fn agg_sum(a: AggView, b: AggView) -> AggView {
    AggView {
        rows: a.rows + b.rows,
        totals: totals_add(a.totals, b.totals),
        days: map_sum(a.days, b.days),
        vendors: map_sum(a.vendors, b.vendors),
        providers: map_sum(a.providers, b.providers),
        agents: map_sum(a.agents, b.agents),
        merchants: map_sum(a.merchants, b.merchants),
    }
}

/// Running aggregates over the rows merged so far.
pub struct Aggregate {
    pub rows: u64,
    pub totals: Totals,
    pub days: TallyTable,
    pub vendors: TallyTable,
    pub providers: TallyTable,
    pub agents: TallyTable,
    pub merchants: TallyTable,
}

fn tally_of(count: u64, amount: i128, commission: i128, fee_a: i128, fee_b: i128) -> (r: Tally)
    ensures
        r.view() == (count as int, amount as int, commission as int, fee_a as int, fee_b as int),
{
    Tally { count, amount, commission, fee_a, fee_b }
}

impl Aggregate {
    pub open spec fn view(&self) -> AggView {
        AggView {
            rows: self.rows as int,
            totals: self.totals.view(),
            days: self.days.view(),
            vendors: self.vendors.view(),
            providers: self.providers.view(),
            agents: self.agents.view(),
            merchants: self.merchants.view(),
        }
    }

    /// Every sum is within what the aggregate's rows can reach.
    pub open spec fn wf(&self) -> bool {
        let r = self.rows as nat;
        &&& totals_within(self.totals.view(), r)
        &&& self.days.wf(r)
        &&& self.vendors.wf(r)
        &&& self.providers.wf(r)
        &&& self.agents.wf(r)
        &&& self.merchants.wf(r)
    }

    pub fn new() -> (r: Aggregate)
        ensures
            r.wf(),
            r.view() == empty_agg(),
    {
        Aggregate {
            rows: 0,
            totals: Totals {
                amount: 0,
                commission: 0,
                commission_pay_sys: 0,
                commission_bank: 0,
                commission_payment: 0,
                commission_eops: 0,
                commission_partner: 0,
            },
            days: TallyTable::new(),
            vendors: TallyTable::new(),
            providers: TallyTable::new(),
            agents: TallyTable::new(),
            merchants: TallyTable::new(),
        }
    }

    /// Adds one row; it counts on the day axis only within `lo..=hi`.
    pub fn add_row(&mut self, f: &RowFacts, kind: ReportType, cat: ReportItemType, lo: i64, hi: i64)
        requires
            old(self).wf(),
            old(self).rows < MAX_ROWS,
            f.bounded(),
        ensures
            final(self).wf(),
            final(self).view() == agg_add_row(old(self).view(), f.view(), kind, cat, lo as int, hi as int),
    {
        let ghost r = self.rows as nat;
        let pay = if cat == ReportItemType::Payments { f.payment } else { 0 };
        proof {
            assert(r * ROW_BOUND + ROW_BOUND == (r + 1) * ROW_BOUND) by (nonlinear_arith);
            assert((r + 1) * ROW_BOUND <= MAX_ROWS * ROW_BOUND) by (nonlinear_arith)
                requires r + 1 <= MAX_ROWS;
        }
        self.totals = Totals {
            amount: self.totals.amount + f.amount,
            commission: self.totals.commission + f.commission,
            commission_pay_sys: self.totals.commission_pay_sys + f.pay_sys,
            commission_bank: self.totals.commission_bank + f.bank,
            commission_payment: self.totals.commission_payment + pay,
            commission_eops: self.totals.commission_eops + f.eops,
            commission_partner: self.totals.commission_partner + f.partner,
        };
        let empty = String::new();
        let base = tally_of(1, f.amount, f.commission, 0, 0);
        proof {
            assert(tally_within(base.view(), 1));
        }
        let ghost dk = (f.day as int, empty@, empty@);
        let day = f.day as i64;
        if lo <= day && day <= hi {
            proof { lemma_add_prep(self.days.view(), dk, base.view(), r); }
            self.days.add(day, &empty, &empty, &base, Ghost(r), Ghost(1));
        }
        let vt = tally_of(1, f.amount, f.commission, f.bank, f.pay_sys);
        proof { lemma_add_prep(self.vendors.view(), (0, f.vendor_key@, empty@), vt.view(), r); }
        self.vendors.add(0, &f.vendor_key, &empty, &vt, Ghost(r), Ghost(1));
        if kind == ReportType::TaxiCompany || kind == ReportType::Agent {
            proof { lemma_add_prep(self.providers.view(), (0, f.provider@, empty@), base.view(), r); }
            self.providers.add(0, &f.provider, &empty, &base, Ghost(r), Ghost(1));
        }
        if kind == ReportType::Agent && cat == ReportItemType::Remittance {
            let at = tally_of(1, f.amount, f.commission, f.pay_sys + f.bank, f.partner);
            proof { lemma_add_prep(self.agents.view(), (0, f.provider@, empty@), at.view(), r); }
            self.agents.add(0, &f.provider, &empty, &at, Ghost(r), Ghost(1));
        }
        if kind == ReportType::Merchant {
            proof { lemma_add_prep(self.merchants.view(), (0, f.vendor@, f.system@), base.view(), r); }
            self.merchants.add(0, &f.vendor, &f.system, &base, Ghost(r), Ghost(1));
        }
        self.rows = self.rows + 1;
        proof {
            assert(self.view().totals == totals_add(old(self).view().totals, (f.amount as int, f.commission as int, f.pay_sys as int, f.bank as int, pay as int, f.eops as int, f.partner as int)));
            self.lemma_tables_grow(r);
        }
    }

    proof fn lemma_tables_grow(&self, r: nat)
        requires
            self.rows == r + 1,
            keys_unique(self.days.entries@) && map_within(self.days.view(), r + 1),
            keys_unique(self.vendors.entries@) && map_within(self.vendors.view(), r + 1),
            keys_unique(self.providers.entries@) && (map_within(self.providers.view(), r) || map_within(self.providers.view(), r + 1)),
            keys_unique(self.agents.entries@) && (map_within(self.agents.view(), r) || map_within(self.agents.view(), r + 1)),
            keys_unique(self.merchants.entries@) && (map_within(self.merchants.view(), r) || map_within(self.merchants.view(), r + 1)),
            totals_within(self.totals.view(), r + 1),
        ensures
            self.wf(),
    {
        lemma_within_mono(self.providers.view(), r, r + 1);
        lemma_within_mono(self.agents.view(), r, r + 1);
        lemma_within_mono(self.merchants.view(), r, r + 1);
    }

    /// Puts a day on the day axis, with nothing added to it.
    pub fn touch_day(&mut self, day: i64)
        requires
            old(self).wf(),
        ensures
            final(self).wf(),
            final(self).view() == agg_touch_day(old(self).view(), day as int),
    {
        let ghost r = self.rows as nat;
        let empty = String::new();
        let z = Tally::zero();
        proof {
            let m = self.days.view();
            let k = (day as int, empty@, empty@);
            if m.contains_key(k) {
                assert(tally_within(m[k], r));
            }
            lemma_add_one_within(m, k, z.view(), r, 0);
        }
        self.days.add(day, &empty, &empty, &z, Ghost(r), Ghost(0));
    }

    /// Adds another aggregate into this one.
    pub fn absorb(&mut self, other: &Aggregate)
        requires
            old(self).wf(),
            other.wf(),
            old(self).rows + other.rows <= MAX_ROWS,
        ensures
            final(self).wf(),
            final(self).view() == agg_sum(old(self).view(), other.view()),
    {
        let ghost r = self.rows as nat;
        let ghost o = other.rows as nat;
        proof {
            assert(r * ROW_BOUND + o * ROW_BOUND == (r + o) * ROW_BOUND) by (nonlinear_arith);
            assert((r + o) * ROW_BOUND <= MAX_ROWS * ROW_BOUND) by (nonlinear_arith)
                requires r + o <= MAX_ROWS;
            lemma_sum_within(self.days.view(), other.days.view(), r, o);
            lemma_sum_within(self.vendors.view(), other.vendors.view(), r, o);
            lemma_sum_within(self.providers.view(), other.providers.view(), r, o);
            lemma_sum_within(self.agents.view(), other.agents.view(), r, o);
            lemma_sum_within(self.merchants.view(), other.merchants.view(), r, o);
        }
        self.totals = Totals {
            amount: self.totals.amount + other.totals.amount,
            commission: self.totals.commission + other.totals.commission,
            commission_pay_sys: self.totals.commission_pay_sys + other.totals.commission_pay_sys,
            commission_bank: self.totals.commission_bank + other.totals.commission_bank,
            commission_payment: self.totals.commission_payment + other.totals.commission_payment,
            commission_eops: self.totals.commission_eops + other.totals.commission_eops,
            commission_partner: self.totals.commission_partner + other.totals.commission_partner,
        };
        self.days.absorb(&other.days, Ghost(r), Ghost(o));
        self.vendors.absorb(&other.vendors, Ghost(r), Ghost(o));
        self.providers.absorb(&other.providers, Ghost(r), Ghost(o));
        self.agents.absorb(&other.agents, Ghost(r), Ghost(o));
        self.merchants.absorb(&other.merchants, Ghost(r), Ghost(o));
        self.rows = self.rows + other.rows;
    }
}

proof fn lemma_add_prep(m: Map<KeyV, TallyV>, k: KeyV, t: TallyV, r: nat)
    requires
        map_within(m, r),
        tally_within(t, 1),
    ensures
        tally_within(crate::tally::get_or_zero(m, k), r),
        map_within(map_add_one(m, k, t), r + 1),
{
    if m.contains_key(k) {
        assert(tally_within(m[k], r));
    }
    lemma_add_one_within(m, k, t, r, 1);
}

pub proof fn lemma_within_mono(m: Map<KeyV, TallyV>, a: nat, b: nat)
    requires
        a <= b,
    ensures
        map_within(m, a) ==> map_within(m, b),
{
    assert(a * ROW_BOUND <= b * ROW_BOUND) by (nonlinear_arith)
        requires a <= b;
    if map_within(m, a) {
        assert forall|k: KeyV| #[trigger] m.contains_key(k) implies tally_within(m[k], b) by {
            assert(tally_within(m[k], a));
        }
    }
}

} // verus!
