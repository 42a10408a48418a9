use report_engine::filter::{Filter, ReportItemType, ReportType, Status};
use report_engine::index_map::IndexingReport;
use report_engine::report::Report;
use report_engine::request::GenerateFile;

fn strings(v: &[&str]) -> Vec<String> {
    v.iter().map(|s| s.to_string()).collect()
}

fn filter(id: u32, status: Option<Status>, mode: Option<&str>, systems: Option<&[&str]>) -> Filter {
    Filter {
        id,
        status,
        mode: mode.map(|m| m.to_string()),
        payments_system: systems.map(strings),
        type_report_that_generated: None,
        type_of_report_we_depend: None,
        path_to_file: None,
    }
}

fn request(kind: Option<ReportType>, provider: Option<&str>, merchant: Option<&str>, ids: &[u32]) -> GenerateFile {
    GenerateFile {
        provider_id: provider.map(|s| s.to_string()),
        merchant_id: merchant.map(|s| s.to_string()),
        filters: ids.iter().map(|&i| filter(i, None, None, None)).collect(),
        report_type: kind,
    }
}

#[test]
fn file_ids_must_be_unique() {
    assert!(request(Some(ReportType::Agent), None, None, &[1, 2, 3]).filters_validation_for_uniqueness().is_ok());
    assert_eq!(request(Some(ReportType::Agent), None, None, &[1, 2, 1]).filters_validation_for_uniqueness().unwrap_err().0, 6453453);
    assert!(request(Some(ReportType::Agent), None, None, &[]).filters_validation_for_uniqueness().is_ok());
}

#[test]
fn organization_ids_fit_the_report_kind() {
    assert_eq!(request(None, None, None, &[1]).check_merchant_id_by_report_type().unwrap_err().0, 7357542);
    assert!(request(Some(ReportType::Merchant), None, Some("m"), &[1]).check_merchant_id_by_report_type().is_ok());
    assert_eq!(request(Some(ReportType::Agent), None, Some("m"), &[1]).check_merchant_id_by_report_type().unwrap_err().0, 7357543);
    assert!(request(Some(ReportType::Agent), Some("p"), None, &[1]).check_provider_id_by_report_type().is_ok());
    assert_eq!(request(Some(ReportType::Merchant), Some("p"), None, &[1]).check_provider_id_by_report_type().unwrap_err().0, 8357543);
    assert_eq!(request(None, None, None, &[1]).check_provider_id_by_report_type().unwrap_err().0, 7357542);
}

#[test]
fn organization_id_is_trimmed() {
    assert_eq!(request(Some(ReportType::TaxiCompany), Some("  77 \t"), None, &[1]).organization_id(), "77");
    assert_eq!(request(Some(ReportType::Merchant), Some("77"), Some(" m1 "), &[1]).organization_id(), "m1");
    assert_eq!(request(Some(ReportType::Unknown), Some("77"), None, &[1]).organization_id(), "");
    assert_eq!(GenerateFile::trim(&None), "");
    assert_eq!(GenerateFile::trim(&Some("\u{3000}m 1\u{A0}\n".to_string())), "m 1");
    assert_eq!(GenerateFile::trim(&Some(" \t ".to_string())), "");
}

#[test]
fn statuses_modes_and_systems_are_collected_in_order() {
    let r = GenerateFile {
        provider_id: None,
        merchant_id: None,
        filters: vec![
            filter(1, Some(Status::Completed), Some("Боевой"), Some(&["uzcard", "humo"])),
            filter(2, None, None, None),
        ],
        report_type: Some(ReportType::Agent),
    };
    let (s, m, p) = r.get_all_s_m_p();
    assert_eq!(s, vec![Status::Completed, Status::Unknown]);
    assert_eq!(m, strings(&["Боевой", ""]));
    assert_eq!(p, vec![strings(&["uzcard", "humo"]), vec![]]);
}

#[test]
fn report_covers_days_of_remittances_first() {
    let header = strings(&[
        "Провайдер", "provider_id", "Статус", "Режим", "Сумма", "Комиссия", "commission_eops",
        "commission_comanyname", "commission_bank", "commission_partner", "Дата транзакции", "tran_type",
    ]);
    let mut ix = IndexingReport::new();
    ix.find_index_by_name(&header, ReportItemType::Remittance);
    let f = filter(1, None, None, None);
    let mut report = Report::new(ReportType::Agent, "77".to_string(), 0);
    assert_eq!(report.get_remittance_and_payments_date(), None);
    report.set_report(ReportItemType::Payments, &f, 1).unwrap();
    assert_eq!(report.get_remittance_and_payments_date(), None);
    report.set_report(ReportItemType::Remittance, &f, 1).unwrap();
    let rows = vec![
        strings(&["Agent1", "77", "ok", "m", "10", "1", "0", "0", "0", "0", "2023-03-02", "card"]),
        strings(&["Agent1", "77", "ok", "m", "10", "1", "0", "0", "0", "0", "2023-03-05", "card"]),
    ];
    report.push_in_share_records_by_chunks(&rows, 0, &ix, ReportItemType::Remittance).unwrap();
    assert_eq!(report.get_remittance_and_payments_date(), Some((738581, 738584)));
}
