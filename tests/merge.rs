use report_engine::error::{Field, ReportError};
use report_engine::fields::{parse_date, parse_money};
use report_engine::filter::{Filter, ReportItemType, ReportType};
use report_engine::index_map::IndexingReport;
use report_engine::report::Report;
use report_engine::report_item::ReportItem;
use report_engine::tally::TallyTable;

fn strings(v: &[&str]) -> Vec<String> {
    v.iter().map(|s| s.to_string()).collect()
}

fn payments_header() -> Vec<String> {
    strings(&[
        "Провайдер", "provider_id", "Статус", "Режим", "Сумма", "Комиссия", "Комиссия EOPS",
        "Комиссия COMANYNAME", "Комиссия bank", "Комиссия partner", "Дата транзакции",
        "Комиссия payment", "Вендор", "Платёжная система",
    ])
}

fn payments_index() -> IndexingReport {
    let mut ix = IndexingReport::new();
    ix.find_index_by_name(&payments_header(), ReportItemType::Payments);
    ix
}

fn row(provider: &str, amount: &str, commission: &str, date: &str, vendor: &str, system: &str) -> Vec<String> {
    strings(&[provider, "77", "Завершена", "Боевой", amount, commission, "0.1", "0.2", "0.3", "0.4", date, "0.5", vendor, system])
}

fn filter() -> Filter {
    Filter {
        id: 1,
        status: None,
        mode: None,
        payments_system: None,
        type_report_that_generated: Some(ReportItemType::Payments),
        type_of_report_we_depend: Some("pay".to_string()),
        path_to_file: None,
    }
}

fn chunk_a() -> Vec<Vec<String>> {
    vec![
        row("Taxi1", "100.50", "1.5", "2023-03-01 10:00:00", "VendorA", "Humo"),
        row("Taxi2", "200", "2", "2023-03-03 11:00:00", "VendorB", "Uzcard"),
    ]
}

fn chunk_b() -> Vec<Vec<String>> {
    vec![row("Taxi1", "50", "0.5", "2023-03-02 09:00:00", "VendorA", "HUMO")]
}

fn chunk_c() -> Vec<Vec<String>> {
    vec![row("Taxi3", "-10.25", "0", "2023-03-05", "VendorC", "Humo")]
}

fn sorted_table(t: &TallyTable) -> Vec<(i64, String, String, u64, i128, i128, i128, i128)> {
    let mut v: Vec<_> = t
        .entries
        .iter()
        .map(|e| (e.day, e.name.clone(), e.system.clone(), e.tally.count, e.tally.amount, e.tally.commission, e.tally.fee_a, e.tally.fee_b))
        .collect();
    v.sort();
    v
}

fn state(item: &ReportItem) -> (u64, Vec<i128>, Vec<Vec<(i64, String, String, u64, i128, i128, i128, i128)>>, Vec<u32>) {
    let a = &item.aggregate;
    let t = &a.totals;
    let mut ids = item.id_having_chunk.clone();
    ids.sort();
    (
        a.rows,
        vec![t.amount, t.commission, t.commission_pay_sys, t.commission_bank, t.commission_payment, t.commission_eops, t.commission_partner],
        vec![sorted_table(&a.days), sorted_table(&a.vendors), sorted_table(&a.providers), sorted_table(&a.agents), sorted_table(&a.merchants)],
        ids,
    )
}

#[test]
fn money_fields_parse_to_ten_thousandths() {
    assert_eq!(parse_money("12.5"), Some(125000));
    assert_eq!(parse_money("-3"), Some(-30000));
    assert_eq!(parse_money("0.0001"), Some(1));
    assert_eq!(parse_money("99999999999999.9999"), Some(999999999999999999));
    assert_eq!(parse_money("1.23456"), Some(12346));
    assert_eq!(parse_money("1.23454"), Some(12345));
    assert_eq!(parse_money("0.99995"), Some(10000));
    assert_eq!(parse_money("0.00004"), Some(0));
    assert_eq!(parse_money("+5"), Some(50000));
    assert_eq!(parse_money(".5"), Some(5000));
    assert_eq!(parse_money("1."), Some(10000));
    assert_eq!(parse_money("00000000000000000012"), Some(120000));
    assert_eq!(parse_money("12,5"), None);
    assert_eq!(parse_money(""), None);
    assert_eq!(parse_money("-"), None);
    assert_eq!(parse_money("."), None);
    assert_eq!(parse_money("1.2.3"), None);
    assert_eq!(parse_money("123456789012345"), None);
    assert_eq!(parse_money("99999999999999.99995"), None);
}

#[test]
fn date_fields_parse_to_day_numbers() {
    assert_eq!(parse_date("2023-03-01 10:00:00"), Some(738580));
    assert_eq!(parse_date("2023-03-02"), Some(738581));
    assert_eq!(parse_date("0001-01-01"), Some(1));
    assert_eq!(parse_date("2024-02-29"), Some(738945));
    assert_eq!(parse_date("2023-02-29"), None);
    assert_eq!(parse_date("2023-13-01"), None);
    assert_eq!(parse_date("0000-01-01"), Some(-365));
    assert_eq!(parse_date("2023-3-1"), None);
    assert_eq!(parse_date("2023-03-01T10:00"), None);
}

#[test]
fn header_scan_finds_columns_case_insensitively() {
    let ix = payments_index();
    assert_eq!(ix.index_provider, Some(0));
    assert_eq!(ix.index_amount, Some(4));
    assert_eq!(ix.index_commission_eops, Some(6));
    assert_eq!(ix.index_commission_sys, Some(7));
    assert_eq!(ix.index_date, Some(10));
    assert_eq!(ix.index_vendor, Some(12));
    assert_eq!(ix.index_payment_system, Some(13));
    assert_eq!(ix.index_tran_type, None);
    assert_eq!(ix.check_which_fields_not_found(ReportItemType::Payments), Ok(()));
}

#[test]
fn missing_column_is_reported_by_name() {
    let mut header = payments_header();
    header[4] = "Итого".to_string();
    let mut ix = IndexingReport::new();
    ix.find_index_by_name(&header, ReportItemType::Payments);
    assert_eq!(
        ix.check_which_fields_not_found(ReportItemType::Payments),
        Err(ReportError::MissingRequiredColumn(Field::Amount))
    );
    let mut item = ReportItem::new(&filter(), 1);
    let r = item.merge_chunk(&chunk_a(), 0, &ix, ReportItemType::Payments, ReportType::TaxiCompany);
    assert_eq!(r, Err(ReportError::MissingRequiredColumn(Field::Amount)));
    assert_eq!(item.aggregate.rows, 0);
    assert!(item.id_having_chunk.is_empty());
}

#[test]
fn errors_carry_their_messages() {
    let ix = IndexingReport::new();
    let e = ix.check_which_fields_not_found(ReportItemType::Payments).unwrap_err();
    assert_eq!(e.to_response(), (423134, "index_commission field is None".to_string()));
    assert_eq!(
        ReportError::UnknownCategory.to_response(),
        (543544, "Не известный тип переданного отчета".to_string())
    );
    assert_eq!(Field::TranType.name(), "tran_type");
}

#[test]
fn remittance_needs_transfer_type() {
    let ix = payments_index();
    assert_eq!(
        ix.check_which_fields_not_found(ReportItemType::Remittance),
        Err(ReportError::MissingRequiredColumn(Field::TranType))
    );
}

#[test]
fn malformed_field_rejects_whole_chunk() {
    let ix = payments_index();
    let mut item = ReportItem::new(&filter(), 2);
    let mut bad = chunk_a();
    bad[1][4] = "20O".to_string();
    let r = item.merge_chunk(&bad, 0, &ix, ReportItemType::Payments, ReportType::TaxiCompany);
    assert_eq!(r, Err(ReportError::UnparseableField { row: 1, field: Field::Amount }));
    assert_eq!(item.aggregate.rows, 0);
    assert_eq!(item.aggregate.totals.amount, 0);
    assert!(item.aggregate.days.entries.is_empty());
    assert!(item.id_having_chunk.is_empty());
    let short = vec![strings(&["Taxi1", "77"])];
    let r = item.merge_chunk(&short, 0, &ix, ReportItemType::Payments, ReportType::TaxiCompany);
    assert_eq!(r, Err(ReportError::UnparseableField { row: 0, field: Field::Date }));
}

#[test]
fn merge_sums_rows_and_fills_day_span() {
    let ix = payments_index();
    let mut item = ReportItem::new(&filter(), 2);
    let r = item.merge_chunk(&chunk_a(), 0, &ix, ReportItemType::Payments, ReportType::TaxiCompany);
    assert_eq!(r, Ok(50));
    let a = &item.aggregate;
    assert_eq!(a.rows, 2);
    assert_eq!(a.totals.amount, 3005000);
    assert_eq!(a.totals.commission, 35000);
    assert_eq!(a.totals.commission_pay_sys, 4000);
    assert_eq!(a.totals.commission_payment, 10000);
    let days = sorted_table(&a.days);
    assert_eq!(days.len(), 3);
    assert_eq!((days[0].0, days[0].3, days[0].4), (738580, 1, 1005000));
    assert_eq!((days[1].0, days[1].3, days[1].4), (738581, 0, 0));
    assert_eq!((days[2].0, days[2].3, days[2].4), (738582, 1, 2000000));
    let vendors = sorted_table(&a.vendors);
    assert_eq!(vendors.len(), 2);
    assert_eq!(vendors[0].1, "VendorA");
    assert_eq!((vendors[0].3, vendors[0].4, vendors[0].5, vendors[0].6, vendors[0].7), (1, 1005000, 15000, 3000, 2000));
    assert_eq!(sorted_table(&a.providers).len(), 2);
    assert!(a.agents.entries.is_empty());
    assert!(a.merchants.entries.is_empty());
}

#[test]
fn day_axis_is_exactly_the_first_to_last_span() {
    let ix = payments_index();
    let mut item = ReportItem::new(&filter(), 2);
    let rows = vec![
        row("Taxi1", "1", "0", "2023-03-02 08:00:00", "VendorA", "Humo"),
        row("Taxi1", "2", "0", "2023-03-01 09:00:00", "VendorA", "Humo"),
        row("Taxi1", "4", "0", "2023-03-02 10:00:00", "VendorA", "Humo"),
    ];
    item.merge_chunk(&rows, 0, &ix, ReportItemType::Payments, ReportType::TaxiCompany).unwrap();
    let days = sorted_table(&item.aggregate.days);
    assert_eq!(days.len(), 1);
    assert_eq!((days[0].0, days[0].3, days[0].4), (738581, 2, 50000));
    assert_eq!(item.aggregate.totals.amount, 70000);
    assert_eq!(item.aggregate.rows, 3);
    let reversed = vec![
        row("Taxi1", "1", "0", "2023-03-03", "VendorA", "Humo"),
        row("Taxi1", "2", "0", "2023-03-01", "VendorA", "Humo"),
    ];
    item.merge_chunk(&reversed, 1, &ix, ReportItemType::Payments, ReportType::TaxiCompany).unwrap();
    assert_eq!(sorted_table(&item.aggregate.days).len(), 1);
    assert_eq!(item.aggregate.totals.amount, 100000);
}

#[test]
fn rows_inside_a_chunk_may_come_in_any_order() {
    let ix = payments_index();
    let first = row("Taxi1", "1", "0.1", "2023-03-01", "VendorA", "Humo");
    let last = row("Taxi1", "8", "0.8", "2023-03-04", "VendorC", "Humo");
    let b = row("Taxi2", "2", "0.2", "2023-03-03", "VendorB", "Uzcard");
    let c = row("Taxi1", "4", "0.4", "2023-03-02", "VendorA", "Humo");
    let mut one = ReportItem::new(&filter(), 1);
    let mut two = ReportItem::new(&filter(), 1);
    one.merge_chunk(&vec![first.clone(), b.clone(), c.clone(), last.clone()], 0, &ix, ReportItemType::Payments, ReportType::Merchant).unwrap();
    two.merge_chunk(&vec![first, c, b, last], 0, &ix, ReportItemType::Payments, ReportType::Merchant).unwrap();
    assert_eq!(state(&one), state(&two));
}

#[test]
fn merchant_rollup_keys_payment_system_in_lowercase() {
    let ix = payments_index();
    let mut item = ReportItem::new(&filter(), 2);
    item.merge_chunk(&chunk_a(), 0, &ix, ReportItemType::Payments, ReportType::Merchant).unwrap();
    item.merge_chunk(&chunk_b(), 1, &ix, ReportItemType::Payments, ReportType::Merchant).unwrap();
    let m = sorted_table(&item.aggregate.merchants);
    assert_eq!(m.len(), 2);
    assert_eq!((m[0].1.as_str(), m[0].2.as_str(), m[0].3, m[0].4), ("VendorA", "humo", 2, 1505000));
    assert_eq!((m[1].1.as_str(), m[1].2.as_str(), m[1].3), ("VendorB", "uzcard", 1));
    assert!(item.aggregate.providers.entries.is_empty());
}

#[test]
fn merging_a_chunk_twice_changes_nothing() {
    let ix = payments_index();
    let mut item = ReportItem::new(&filter(), 3);
    assert_eq!(item.merge_chunk(&chunk_a(), 0, &ix, ReportItemType::Payments, ReportType::TaxiCompany), Ok(33));
    let once = state(&item);
    assert_eq!(item.merge_chunk(&chunk_a(), 0, &ix, ReportItemType::Payments, ReportType::TaxiCompany), Ok(33));
    assert_eq!(state(&item), once);
    assert_eq!(item.id_having_chunk, vec![0]);
}

#[test]
fn merge_order_does_not_change_the_result() {
    let ix = payments_index();
    let chunks = [chunk_a(), chunk_b(), chunk_c()];
    let orders = [[0usize, 1, 2], [0, 2, 1], [1, 0, 2], [1, 2, 0], [2, 0, 1], [2, 1, 0]];
    let mut states = Vec::new();
    for order in orders.iter() {
        let mut item = ReportItem::new(&filter(), 3);
        for &c in order.iter() {
            item.merge_chunk(&chunks[c], c as u32, &ix, ReportItemType::Payments, ReportType::Agent).unwrap();
        }
        states.push(state(&item));
    }
    for s in states.iter() {
        assert_eq!(*s, states[0]);
    }
    assert_eq!(states[0].0, 4);
    assert_eq!(states[0].1[0], 3005000 + 500000 - 102500);
}

#[test]
fn load_percent_grows_to_exactly_one_hundred() {
    let ix = payments_index();
    let chunks = [chunk_a(), chunk_b(), chunk_c()];
    let mut item = ReportItem::new(&filter(), 3);
    assert_eq!(item.get_percent_load(), 0);
    let mut seen = vec![0];
    for (i, c) in chunks.iter().enumerate() {
        let p = item.merge_chunk(c, i as u32, &ix, ReportItemType::Payments, ReportType::TaxiCompany).unwrap();
        seen.push(p);
    }
    assert_eq!(seen, vec![0, 33, 66, 100]);
    assert_eq!(item.get_percent_load(), 100);
}

#[test]
fn category_is_resumed_only_with_the_same_chunk_count() {
    let ix = payments_index();
    let mut report = Report::new(ReportType::TaxiCompany, "42".to_string(), 0);
    assert_eq!(report.prepare_category(ReportItemType::Payments, &filter(), 2), Ok(false));
    report.push_in_share_records_by_chunks(&chunk_a(), 0, &ix, ReportItemType::Payments).unwrap();
    assert_eq!(report.prepare_category(ReportItemType::Payments, &filter(), 2), Ok(true));
    assert_eq!(report.get_report_item(ReportItemType::Payments).unwrap().remaining_chunks(), vec![1]);
    assert_eq!(report.prepare_category(ReportItemType::Payments, &filter(), 3), Ok(false));
    assert_eq!(report.get_report_item(ReportItemType::Payments).unwrap().remaining_chunks(), vec![0, 1, 2]);
    assert_eq!(report.prepare_category(ReportItemType::Null, &filter(), 1), Err(ReportError::UnknownCategory));
}

#[test]
fn category_without_chunks_is_complete() {
    let mut report = Report::new(ReportType::Merchant, "".to_string(), 0);
    report.create_empty_item(ReportItemType::Remittance, &filter()).unwrap();
    assert_eq!(report.get_report_item(ReportItemType::Remittance).unwrap().get_percent_load(), 100);
}

#[test]
fn report_refuses_unknown_or_unstarted_category() {
    let ix = payments_index();
    let mut report = Report::new(ReportType::TaxiCompany, "42".to_string(), 0);
    assert_eq!(report.set_report(ReportItemType::Unknown, &filter(), 1), Err(ReportError::UnknownCategory));
    assert_eq!(
        report.push_in_share_records_by_chunks(&chunk_a(), 0, &ix, ReportItemType::Payments),
        Err(ReportError::CategoryNotStarted)
    );
    report.set_report(ReportItemType::Payments, &filter(), 1).unwrap();
    assert_eq!(report.push_in_share_records_by_chunks(&chunk_a(), 0, &ix, ReportItemType::Payments), Ok(100));
    assert_eq!(report.get_percent_load_by_report_item_type(&filter()), 100);
    assert_eq!(report.get_all_report_item_keys(), vec![ReportItemType::Payments]);
}

#[test]
fn first_chunk_names_the_organization() {
    let ix = payments_index();
    let mut report = Report::new(ReportType::TaxiCompany, "42".to_string(), 0);
    report.set_report(ReportItemType::Payments, &filter(), 2).unwrap();
    report.push_in_share_records_by_chunks(&chunk_b(), 1, &ix, ReportItemType::Payments).unwrap();
    assert_eq!(report.get_provider_name(), "");
    report.push_in_share_records_by_chunks(&chunk_a(), 0, &ix, ReportItemType::Payments).unwrap();
    assert_eq!(report.get_provider_name(), "Taxi1");
}

#[test]
fn organization_id_and_name_are_set_once() {
    let mut report = Report::new(ReportType::Agent, "".to_string(), 5);
    report.set_provider_id("".to_string());
    assert_eq!(report.get_organization_id(), "");
    report.set_provider_id("77".to_string());
    report.set_provider_id("78".to_string());
    assert_eq!(report.get_organization_id(), "77");
    report.set_Provider_name("Taxi1".to_string());
    report.set_Provider_name("Taxi2".to_string());
    assert_eq!(report.get_provider_name(), "Taxi1");
    assert!(!report.is_read());
    report.set_report_read_true();
    assert!(report.is_read());
    assert_eq!(report.get_create_at(), 5);
    assert_eq!(report.get_report_type(), ReportType::Agent);
}

#[test]
fn agent_remittances_roll_up_fees_per_provider() {
    let header = strings(&[
        "Провайдер", "provider_id", "Статус", "Режим", "Сумма", "Комиссия", "commission_eops",
        "commission_comanyname", "commission_bank", "commission_partner", "Дата транзакции", "tran_type",
    ]);
    let mut ix = IndexingReport::new();
    ix.find_index_by_name(&header, ReportItemType::Remittance);
    assert_eq!(ix.check_which_fields_not_found(ReportItemType::Remittance), Ok(()));
    let rows = vec![
        strings(&["Agent1", "77", "ok", "m", "10", "1", "0.1", "0.2", "0.3", "0.4", "2023-03-01", "card"]),
        strings(&["Agent1", "77", "ok", "m", "20", "2", "0.1", "0.2", "0.3", "0.4", "2023-03-01", "card"]),
    ];
    let mut item = ReportItem::new(&filter(), 1);
    assert_eq!(item.merge_chunk(&rows, 0, &ix, ReportItemType::Remittance, ReportType::Agent), Ok(100));
    let agents = sorted_table(&item.aggregate.agents);
    assert_eq!(agents.len(), 1);
    assert_eq!((agents[0].3, agents[0].4, agents[0].5, agents[0].6, agents[0].7), (2, 300000, 30000, 10000, 8000));
    let vendors = sorted_table(&item.aggregate.vendors);
    assert_eq!(vendors[0].1, "card");
    assert_eq!(item.aggregate.totals.commission_payment, 0);
}
