use report_engine::chunks::{build_chunks_for_share, chunks_of_category, create_chunks_by_types, CHUNK_SIZE};
use report_engine::filter::{Filter, ReportItemType, ReportType, Status};
use report_engine::index_map::IndexingReport;
use report_engine::report_item::ReportItem;

fn strings(v: &[&str]) -> Vec<String> {
    v.iter().map(|s| s.to_string()).collect()
}

fn header() -> Vec<String> {
    strings(&[
        "Провайдер", "provider_id", "Статус", "Режим", "Сумма", "Комиссия", "Комиссия EOPS",
        "Комиссия COMANYNAME", "Комиссия bank", "Комиссия partner", "Дата транзакции",
        "Комиссия payment", "Вендор", "Платёжная система", "Вендор id",
    ])
}

fn index() -> IndexingReport {
    let mut ix = IndexingReport::new();
    ix.find_index_by_name(&header(), ReportItemType::Payments);
    ix
}

fn row(org: &str, status: &str, mode: &str, system: &str) -> Vec<String> {
    strings(&["Taxi1", org, status, mode, "10", "1", "0", "0", "0", "0", "2023-03-01", "0", "VendorA", system, "m1"])
}

fn filter(status: Option<Status>, mode: Option<&str>, systems: Option<&[&str]>) -> Filter {
    Filter {
        id: 1,
        status,
        mode: mode.map(|m| m.to_string()),
        payments_system: systems.map(strings),
        type_report_that_generated: Some(ReportItemType::Payments),
        type_of_report_we_depend: Some("pay".to_string()),
        path_to_file: None,
    }
}

#[test]
fn filter_checks_status_mode_organization_and_platform() {
    let ix = index();
    let f = filter(Some(Status::Completed), Some("Боевой"), Some(&["humo", "uzcard"]));
    let kind = ReportType::TaxiCompany;
    assert_eq!(f.filter_validation(&row("77", "Завершена", "Боевой", "HUMO"), &ix, "77", &kind), Ok(true));
    assert_eq!(f.filter_validation(&row("77", "Создана", "Боевой", "HUMO"), &ix, "77", &kind), Ok(false));
    assert_eq!(f.filter_validation(&row("77", "Завершена", "Тестовый", "HUMO"), &ix, "77", &kind), Ok(false));
    assert_eq!(f.filter_validation(&row("78", "Завершена", "Боевой", "HUMO"), &ix, "77", &kind), Ok(false));
    assert_eq!(f.filter_validation(&row("78", "Завершена", "Боевой", "HUMO"), &ix, "", &kind), Ok(true));
    assert_eq!(f.filter_validation(&row("77", "Завершена", "Боевой", "Visa"), &ix, "77", &kind), Ok(false));
    let unknown = filter(Some(Status::Unknown), None, None);
    assert_eq!(unknown.filter_validation(&row("77", "Unknown", "Боевой", "HUMO"), &ix, "", &kind), Ok(false));
    let open = filter(None, Some(""), Some(&[]));
    assert_eq!(open.filter_validation(&row("77", "x", "y", "z"), &ix, "", &kind), Ok(true));
    assert_eq!(f.filter_validation(&row("77", "Завершена", "Боевой", "HUMO"), &ix, "", &ReportType::Unknown).unwrap_err().0, 3443245);
    assert_eq!(f.filter_validation(&row("m1", "Завершена", "Боевой", "HUMO"), &ix, "m1", &ReportType::Merchant), Ok(true));
}

#[test]
fn chunks_hold_accepted_rows_in_order_and_size() {
    let ix = index();
    let f = filter(None, None, None);
    let mut rows = Vec::new();
    for i in 0..600 {
        rows.push(row(if i % 3 == 0 { "78" } else { "77" }, "x", "y", "z"));
    }
    let chunks = build_chunks_for_share(&rows, "77", &f, &ix, &ReportType::Agent).unwrap();
    assert_eq!(chunks.len(), 2);
    assert_eq!(chunks[0].len(), CHUNK_SIZE);
    assert_eq!(chunks[1].len(), 400 - CHUNK_SIZE);
    assert!(chunks.iter().all(|c| c.iter().all(|r| r[1] == "77")));
    assert!(build_chunks_for_share(&vec![], "77", &f, &ix, &ReportType::Agent).unwrap().is_empty());
    assert_eq!(build_chunks_for_share(&rows, "77", &f, &ix, &ReportType::Unknown).unwrap_err().0, 3443245);
}

#[test]
fn chunks_by_type_resolve_categories_and_columns() {
    let mut filters = vec![filter(None, None, None), filter(None, None, None)];
    filters[0].type_report_that_generated = None;
    filters[1].type_of_report_we_depend = Some("pay_f".to_string());
    let files = vec![
        (header(), vec![row("77", "x", "y", "z"), row("77", "x", "y", "z")]),
        (header(), vec![row("77", "x", "y", "z")]),
    ];
    let out = create_chunks_by_types(&mut filters, &files, "77", ReportType::TaxiCompany).unwrap();
    assert_eq!(out.len(), 2);
    assert_eq!(out[0].0, ReportItemType::Payments);
    assert_eq!(out[0].2, 0);
    assert_eq!(out[0].1[0].len(), 2);
    assert_eq!(out[1].1[0].len(), 1);
    assert_eq!(filters[0].get_type_report_that_generated(), Some(ReportItemType::Payments));

    let mut bad_kind = vec![filter(None, None, None)];
    bad_kind[0].type_of_report_we_depend = Some("terminal".to_string());
    let errors = create_chunks_by_types(&mut bad_kind, &vec![(header(), vec![])], "77", ReportType::TaxiCompany).unwrap_err();
    assert_eq!(errors[0].0, 543544);

    let mut short_header = vec![filter(None, None, None)];
    let errors = create_chunks_by_types(&mut short_header, &vec![(strings(&["Сумма"]), vec![])], "77", ReportType::TaxiCompany).unwrap_err();
    assert_eq!(errors[0].0, 423134);

    let mut no_amount = header();
    no_amount[4] = "Итого".to_string();
    let mut two = vec![filter(None, None, None), filter(None, None, None)];
    let errors = create_chunks_by_types(
        &mut two,
        &vec![(header(), vec![row("77", "x", "y", "z")]), (no_amount, vec![row("77", "x", "y", "z")])],
        "77",
        ReportType::TaxiCompany,
    )
    .unwrap_err();
    assert_eq!(errors.len(), 1);
    assert_eq!(errors[0].0, 423146);

    let mut missing_kind = vec![filter(None, None, None)];
    missing_kind[0].type_of_report_we_depend = None;
    let errors = create_chunks_by_types(&mut missing_kind, &vec![(header(), vec![])], "77", ReportType::TaxiCompany).unwrap_err();
    assert_eq!(errors[0].0, 5436574);
}

#[test]
fn remaining_chunks_are_those_not_merged() {
    let ix = index();
    let f = filter(None, None, None);
    let mut item = ReportItem::new(&f, 4);
    assert_eq!(item.remaining_chunks(), vec![0, 1, 2, 3]);
    item.merge_chunk(&vec![row("77", "x", "y", "z")], 2, &ix, ReportItemType::Payments, ReportType::TaxiCompany).unwrap();
    item.merge_chunk(&vec![row("77", "x", "y", "z")], 0, &ix, ReportItemType::Payments, ReportType::TaxiCompany).unwrap();
    assert_eq!(item.remaining_chunks(), vec![1, 3]);
}

#[test]
fn chunk_ids_run_on_across_files_of_a_category() {
    let counts = vec![
        (ReportItemType::Payments, 3),
        (ReportItemType::Remittance, 2),
        (ReportItemType::Payments, 4),
    ];
    assert_eq!(chunks_of_category(&counts, 0, ReportItemType::Payments), Some(0));
    assert_eq!(chunks_of_category(&counts, 2, ReportItemType::Payments), Some(3));
    assert_eq!(chunks_of_category(&counts, 3, ReportItemType::Payments), Some(7));
    assert_eq!(chunks_of_category(&counts, 3, ReportItemType::Remittance), Some(2));
    let huge = vec![(ReportItemType::Payments, u32::MAX as usize), (ReportItemType::Payments, 1)];
    assert_eq!(chunks_of_category(&huge, 1, ReportItemType::Payments), Some(u32::MAX));
    assert_eq!(chunks_of_category(&huge, 2, ReportItemType::Payments), None);
}
