use report_engine::cache::Reports;
use report_engine::filter::{ReportType, Status};
use report_engine::fingerprint::{create_file_name, digest_input, fingerprint_from_digest};

fn strings(v: &[&str]) -> Vec<String> {
    v.iter().map(|s| s.to_string()).collect()
}

fn range(a: &str, b: &str) -> (String, String) {
    (a.to_string(), b.to_string())
}

fn base_fingerprint() -> String {
    create_file_name(
        &ReportType::Agent,
        "42",
        &vec![range("2023-01-01", "2023-01-31"), range("2023-02-01", "2023-02-28")],
        &vec![Status::Completed, Status::Created],
        &strings(&["Боевой", "Тестовый"]),
        &vec![7, 3],
        &vec![strings(&["humo", "uzcard"]), strings(&["mir pay"])],
    )
}

#[test]
fn fingerprint_is_sixteen_lowercase_hex_digits() {
    let fp = base_fingerprint();
    assert_eq!(fp.len(), 16);
    assert!(fp.chars().all(|c| c.is_ascii_hexdigit() && !c.is_ascii_uppercase()));
}

#[test]
fn fingerprint_ignores_order_of_sub_filters_and_payment_systems() {
    let reordered = create_file_name(
        &ReportType::Agent,
        "42",
        &vec![range("2023-02-01", "2023-02-28"), range("2023-01-01", "2023-01-31")],
        &vec![Status::Created, Status::Completed],
        &strings(&["Тестовый", "Боевой"]),
        &vec![3, 7],
        &vec![strings(&["mir pay"]), strings(&["uzcard", "humo"])],
    );
    assert_eq!(reordered, base_fingerprint());
}

#[test]
fn fingerprint_is_stable_across_calls() {
    assert_eq!(base_fingerprint(), base_fingerprint());
}

#[test]
fn fingerprint_changes_with_each_field() {
    let base = base_fingerprint();
    let dates = vec![range("2023-01-01", "2023-01-31"), range("2023-02-01", "2023-02-28")];
    let statuses = vec![Status::Completed, Status::Created];
    let modes = strings(&["Боевой", "Тестовый"]);
    let systems = vec![strings(&["humo", "uzcard"]), strings(&["mir pay"])];
    let variants = vec![
        create_file_name(&ReportType::Merchant, "42", &dates, &statuses, &modes, &vec![7, 3], &systems),
        create_file_name(&ReportType::Agent, "43", &dates, &statuses, &modes, &vec![7, 3], &systems),
        create_file_name(
            &ReportType::Agent,
            "42",
            &vec![range("2023-01-01", "2023-01-30"), range("2023-02-01", "2023-02-28")],
            &statuses,
            &modes,
            &vec![7, 3],
            &systems,
        ),
        create_file_name(&ReportType::Agent, "42", &dates, &vec![Status::Completed, Status::Cancel], &modes, &vec![7, 3], &systems),
        create_file_name(&ReportType::Agent, "42", &dates, &statuses, &strings(&["Боевой", "Боевой"]), &vec![7, 3], &systems),
        create_file_name(&ReportType::Agent, "42", &dates, &statuses, &modes, &vec![7, 4], &systems),
        create_file_name(&ReportType::Agent, "42", &dates, &statuses, &modes, &vec![7, 3], &vec![strings(&["humo"]), strings(&["uzcard", "mir pay"])]),
    ];
    for v in variants {
        assert_ne!(v, base);
    }
}

#[test]
fn fingerprint_framing_keeps_fields_apart() {
    let a = create_file_name(&ReportType::Agent, "", &vec![], &vec![], &strings(&["ab", "c"]), &vec![], &vec![]);
    let b = create_file_name(&ReportType::Agent, "", &vec![], &vec![], &strings(&["a", "bc"]), &vec![], &vec![]);
    assert_ne!(a, b);
}

#[test]
fn initial_key_matches_create_file_name() {
    let reports: Reports<u8> = Reports::new();
    let key = reports.initial_key(
        &ReportType::Agent,
        "42",
        &vec![range("2023-01-01", "2023-01-31"), range("2023-02-01", "2023-02-28")],
        (vec![Status::Completed, Status::Created], strings(&["Боевой", "Тестовый"]), vec![strings(&["humo", "uzcard"]), strings(&["mir pay"])]),
        &vec![7, 3],
    );
    assert_eq!(key, base_fingerprint());
}

#[test]
fn fingerprint_is_hex_of_first_eight_digest_bytes() {
    let d = vec![0x01, 0xab, 0x00, 0xff, 0x10, 0x7c, 0x9e, 0x42, 0x55, 0x66, 0x77, 0x88, 0x99, 0xaa, 0xbb, 0xcc];
    assert_eq!(fingerprint_from_digest(&d), "01ab00ff107c9e42");
}

#[test]
fn digest_input_frames_each_field_by_length() {
    let bytes = digest_input(&ReportType::TaxiCompany, "ab", &vec![], &vec![Status::Cancel], &vec![], &vec![], &vec![]);
    let mut expected = vec![1, 0, 0, 0, 0, 0, 0, 0, 1];
    expected.extend_from_slice(&[2, 0, 0, 0, 0, 0, 0, 0, b'a', b'b']);
    expected.extend_from_slice(&[0; 8]);
    expected.extend_from_slice(&[9, 0, 0, 0, 0, 0, 0, 0, 1, 0, 0, 0, 0, 0, 0, 0, 3]);
    for _ in 0..3 {
        expected.extend_from_slice(&[0; 8]);
    }
    assert_eq!(bytes, expected);
}

#[test]
fn fingerprint_is_the_md5_of_the_digest_input() {
    let dates = vec![range("2023-01-01", "2023-01-31")];
    let statuses = vec![Status::Completed];
    let modes = strings(&["Боевой"]);
    let systems = vec![strings(&["humo"])];
    let input = digest_input(&ReportType::Agent, "42", &dates, &statuses, &modes, &vec![7], &systems);
    let digest = md5::compute(&input);
    let hex: String = digest.0.iter().take(8).map(|b| format!("{:02x}", b)).collect();
    assert_eq!(create_file_name(&ReportType::Agent, "42", &dates, &statuses, &modes, &vec![7], &systems), hex);
}

#[test]
fn changing_a_field_changes_the_digest_input() {
    let a = digest_input(&ReportType::Agent, "42", &vec![], &vec![], &strings(&["x"]), &vec![1, 2], &vec![]);
    let b = digest_input(&ReportType::Agent, "42", &vec![], &vec![], &strings(&["x"]), &vec![2, 1], &vec![]);
    let c = digest_input(&ReportType::Agent, "42", &vec![], &vec![], &strings(&["x"]), &vec![1, 3], &vec![]);
    assert_eq!(a, b);
    assert_ne!(a, c);
}
