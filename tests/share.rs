use std::sync::{Arc, Mutex};

use report_engine::admission::Admission;
use report_engine::cache::{Reports, Share, StartOutcome};
use report_engine::error::ReportError;
use report_engine::filter::{Filter, ReportItemType, ReportType, Status};
use report_engine::fingerprint::create_file_name;
use report_engine::helper::artifact_path;
use report_engine::index_map::IndexingReport;
use report_engine::report::Report;

type Handle = Arc<Mutex<Report>>;

fn strings(v: &[&str]) -> Vec<String> {
    v.iter().map(|s| s.to_string()).collect()
}

fn request_fingerprint(reorder: bool) -> String {
    let mut ids = vec![11, 12];
    let mut systems = vec![strings(&["humo", "uzcard"]), strings(&["mir pay"])];
    if reorder {
        ids.reverse();
        systems.reverse();
        systems[1].reverse();
    }
    create_file_name(
        &ReportType::TaxiCompany,
        "77",
        &vec![("2023-03-01".to_string(), "2023-03-31".to_string())],
        &vec![Status::Completed],
        &strings(&["Боевой"]),
        &ids,
        &systems,
    )
}

fn payments_index() -> IndexingReport {
    let header = strings(&[
        "Провайдер", "provider_id", "Статус", "Режим", "Сумма", "Комиссия", "Комиссия EOPS",
        "Комиссия COMANYNAME", "Комиссия bank", "Комиссия partner", "Дата транзакции",
        "Комиссия payment", "Вендор", "Платёжная система",
    ]);
    let mut ix = IndexingReport::new();
    ix.find_index_by_name(&header, ReportItemType::Payments);
    ix
}

fn row(amount: &str, date: &str) -> Vec<String> {
    strings(&["Taxi1", "77", "Завершена", "Боевой", amount, "1", "0", "0", "0", "0", date, "0", "VendorA", "Humo"])
}

fn filter() -> Filter {
    Filter {
        id: 11,
        status: Some(Status::Completed),
        mode: None,
        payments_system: None,
        type_report_that_generated: Some(ReportItemType::Payments),
        type_of_report_we_depend: Some("pay".to_string()),
        path_to_file: None,
    }
}

fn fresh(at: i64) -> Handle {
    Arc::new(Mutex::new(Report::new(ReportType::TaxiCompany, "77".to_string(), at)))
}

#[test]
fn admission_never_exceeds_its_bound_nor_goes_below_zero() {
    let mut a = Admission::new(2);
    assert!(a.try_enter());
    assert!(a.try_enter());
    assert!(!a.try_enter());
    assert_eq!(a.current(), 2);
    a.leave();
    a.leave();
    a.leave();
    assert_eq!(a.current(), 0);
    assert!(a.try_enter());
    assert_eq!(a.current(), 1);
    assert_eq!(a.max_concurrent(), 2);
}

#[test]
fn new_request_creates_report_merges_two_chunks_concurrently_and_names_artifact() {
    let mut share: Share<Handle> = Share::new(4, 1000);
    let fp = request_fingerprint(false);
    assert_eq!(fp.len(), 16);
    assert_eq!(share.start_generation(&fp, false, 1000, fresh(1000)), Ok(StartOutcome::Create));
    assert_eq!(share.get_number_simultaneous_generations(), 1);
    let report = share.get_processed_report(&fp).unwrap().clone();
    report.lock().unwrap().set_report(ReportItemType::Payments, &filter(), 2).unwrap();
    let chunks = vec![vec![row("10", "2023-03-01")], vec![row("20", "2023-03-02")]];
    // Two holders of the shared handle merge; the later chunk arrives first.
    let holders = [Arc::clone(&report), Arc::clone(&report)];
    for (i, chunk) in chunks.iter().enumerate().rev() {
        let ix = payments_index();
        let r = holders[i].lock().unwrap().push_in_share_records_by_chunks(chunk, i as u32, &ix, ReportItemType::Payments);
        assert!(r.is_ok());
    }
    let guard = report.lock().unwrap();
    let item = guard.get_report_item(ReportItemType::Payments).unwrap();
    assert_eq!(item.get_percent_load(), 100);
    assert_eq!(item.aggregate.totals.amount, 300000);
    drop(guard);
    let path = artifact_path("/srv/reports", "42", &fp);
    assert_eq!(path, format!("/srv/reports/42/{}.xlsx", fp));
    share.finish_generation(&fp);
    assert_eq!(share.get_number_simultaneous_generations(), 0);
    assert!(!share.is_generating(&fp));
}

#[test]
fn identical_request_during_generation_is_refused_and_no_second_report_is_made() {
    let mut share: Share<Handle> = Share::new(4, 1000);
    let first = request_fingerprint(false);
    let second = request_fingerprint(true);
    assert_eq!(first, second);
    assert_eq!(share.start_generation(&first, false, 10, fresh(10)), Ok(StartOutcome::Create));
    assert_eq!(
        share.start_generation(&second, false, 11, fresh(11)),
        Err(ReportError::DuplicateFingerprintInFlight)
    );
    assert_eq!(share.get_keys().len(), 1);
    assert_eq!(share.get_processed_report(&first).unwrap().lock().unwrap().get_create_at(), 10);
    assert_eq!(share.get_number_simultaneous_generations(), 1);
    share.finish_generation(&first);
    assert_eq!(share.start_generation(&second, false, 12, fresh(12)), Ok(StartOutcome::Attach));
    assert_eq!(share.get_keys().len(), 1);
}

#[test]
fn existing_artifact_short_circuits_without_report_or_slot() {
    let mut share: Share<Handle> = Share::new(1, 1000);
    let fp = request_fingerprint(false);
    assert_eq!(share.start_generation(&fp, true, 10, fresh(10)), Ok(StartOutcome::ArtifactReady));
    assert_eq!(share.get_number_simultaneous_generations(), 0);
    assert!(share.get_keys().is_empty());
    assert!(!share.is_generating(&fp));
}

#[test]
fn admission_limit_refuses_new_generation() {
    let mut share: Share<Handle> = Share::new(1, 1000);
    assert_eq!(share.start_generation(&"aaaa".to_string(), false, 1, fresh(1)), Ok(StartOutcome::Create));
    assert_eq!(
        share.start_generation(&"bbbb".to_string(), false, 1, fresh(1)),
        Err(ReportError::AdmissionLimitExceeded)
    );
    assert!(!share.is_exist_report("bbbb"));
    share.finish_generation("aaaa");
    assert_eq!(share.start_generation(&"bbbb".to_string(), false, 2, fresh(2)), Ok(StartOutcome::Create));
}

#[test]
fn missing_report_is_an_error() {
    let share: Share<Handle> = Share::new(1, 1000);
    assert_eq!(
        share.get_processed_report("0123456789abcdef").err(),
        Some((1334300, "Не удалось найти скалькулированных данных для отчета 0123456789abcdef".to_string()))
    );
    assert_eq!(ReportError::ReportNotFound.code(), 1334300);
    assert_eq!(share.get_max_count_record_in_reports(), 1000);
}

#[test]
fn janitor_removes_reports_at_or_past_retention_only() {
    let mut share: Share<Handle> = Share::new(4, 1000);
    let now = 100_000;
    assert_eq!(share.start_generation(&"old".to_string(), false, now - 1801, fresh(now - 1801)), Ok(StartOutcome::Create));
    assert_eq!(share.start_generation(&"young".to_string(), false, now - 1799, fresh(now - 1799)), Ok(StartOutcome::Create));
    assert_eq!(share.start_generation(&"edge".to_string(), false, now - 1800, fresh(now - 1800)), Ok(StartOutcome::Create));
    let mut removed = share.remove_report(now, 1800);
    removed.sort();
    assert_eq!(removed, vec!["edge".to_string(), "old".to_string()]);
    assert!(!share.is_exist_report("old"));
    assert!(share.is_exist_report("young"));
    assert_eq!(share.get_keys(), vec!["young".to_string()]);
}

#[test]
fn cache_keeps_the_first_report_for_a_key() {
    let mut reports: Reports<u32> = Reports::new();
    assert!(reports.insert_new_report("k".to_string(), 1, 10));
    assert!(!reports.insert_new_report("k".to_string(), 2, 20));
    assert_eq!(reports.get_report("k"), Some(&10));
    assert_eq!(reports.created_at("k"), Some(1));
    assert!(reports.is_exist_report("k"));
    reports.remove("k");
    assert_eq!(reports.get_report("k"), None);
    assert!(reports.get_keys().is_empty());
}
