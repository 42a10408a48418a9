use report_engine::args::{ArgReqeust, Settings};
use report_engine::download::{DownloadReportChunks, IDownloadReportChunks};
use report_engine::error::ReportError;
use report_engine::filter::{get_status, Filter, ReportItemType, ReportType, Status};
use report_engine::helper::{
    build_date_ymd, compare_user_id, create_file, get_date_from_to, is_empty_chunk, type_report_that_generated, PaymentSystem,
};
use report_engine::responses::{
    chunk_is_empty, get_first_error_message_and_code, get_last_error_message_and_code, is_check_on_errors_message_and_code,
    map_io_error, CustomError, IoFailure, UserInfo,
};
use report_engine::tokens::{Token, TokensStorage};

fn strings(v: &[&str]) -> Vec<String> {
    v.iter().map(|s| s.to_string()).collect()
}

fn filter(kind: Option<&str>) -> Filter {
    Filter {
        id: 3,
        status: Some(Status::Mistake),
        mode: Some("Боевой".to_string()),
        payments_system: Some(strings(&["HUMO", "Mir Pay"])),
        type_report_that_generated: None,
        type_of_report_we_depend: kind.map(|k| k.to_string()),
        path_to_file: None,
    }
}

#[test]
fn settings_follow_command_line() {
    let mut s = Settings::new();
    assert!(!s.get_prod());
    assert_eq!(s.set_prod(strings(&["proda=TRUE", "ignored"])), Ok(()));
    assert!(s.get_prod());
    assert_eq!(s.set_prod(strings(&["PRODA=false"])), Ok(()));
    assert!(!s.get_prod());
    assert_eq!(s.set_prod(strings(&["proda=maybe"])).unwrap_err().0, 1574320);
    assert_eq!(s.set_prod(strings(&["x=1", "proda=true"])).unwrap_err().0, 5435432);
    assert!(s.get_prod());
}

#[test]
fn arguments_need_exactly_one_equals_sign() {
    let args = ArgReqeust::check_for_starting_arguments(strings(&["a=b", "c", "d=e=f", "=g", "h="]));
    let pairs: Vec<(String, String)> = args.into_iter().map(|a| (a.key, a.val)).collect();
    assert_eq!(
        pairs,
        vec![("a".to_string(), "b".to_string()), ("".to_string(), "g".to_string()), ("h".to_string(), "".to_string())]
    );
}

#[test]
fn filter_category_follows_file_kind() {
    let mut f = filter(Some("pay_f"));
    assert_eq!(f.set_type_report_that_generated(), Ok(()));
    assert_eq!(f.get_type_report_that_generated(), Some(ReportItemType::Payments));
    let mut f = filter(Some("c2card"));
    assert_eq!(f.set_type_report_that_generated(), Ok(()));
    assert_eq!(f.get_type_report_that_generated(), Some(ReportItemType::Remittance));
    let mut f = filter(Some("terminal"));
    assert_eq!(f.set_type_report_that_generated(), Err(ReportError::UnknownCategory));
    assert_eq!(f.get_type_report_that_generated(), None);
    let mut f = filter(None);
    assert_eq!(f.set_type_report_that_generated(), Err(ReportError::FileKindMissing));
    assert_eq!(ReportError::FileKindMissing.to_response().0, 5436574);
    assert_eq!(ReportError::UnknownCategory.to_response().0, 543544);
    for kind in ["c2cCOMANYNAME", "c2ccomanyname"] {
        let mut f = filter(Some(kind));
        assert_eq!(f.set_type_report_that_generated(), Ok(()));
        assert_eq!(f.get_type_report_that_generated(), Some(ReportItemType::Remittance));
    }
}

#[test]
fn filter_setters_and_getters() {
    let mut f = filter(None);
    f.set_to_lowercase_payments_system_field();
    assert_eq!(f.get_filter_payments_system(), Some(&strings(&["humo", "mir pay"])));
    assert_eq!(f.get_path_to_file(), Err((4324223, "Путь до файла отсуствует".to_string())));
    f.set_path_to_file("/data/f.csv".to_string());
    assert_eq!(f.get_path_to_file(), Ok("/data/f.csv".to_string()));
    f.set_type_of_report_we_depend("pay".to_string());
    assert_eq!(f.type_of_report_we_depend, Some("pay".to_string()));
    assert_eq!(get_status(&f), Some("Ошибка"));
    assert_eq!(ReportType::TaxiCompany.report_type_to_string(), "taxi_compony");
    assert_eq!(ReportType::Merchant.report_type_to_string(), "merchant");
}

#[test]
fn payment_platforms_map_to_currencies() {
    assert!(matches!(PaymentSystem::new("HUMO".to_string()), PaymentSystem::UZS(s) if s == "Национальная валюта"));
    assert!(matches!(PaymentSystem::new("Mir Pay".to_string()), PaymentSystem::RUB(s) if s == "₽"));
    assert!(matches!(PaymentSystem::new("ecomm kapital24 EUR".to_string()), PaymentSystem::EUR(s) if s == "€"));
    assert!(matches!(PaymentSystem::new("visa".to_string()), PaymentSystem::NULL));
}

#[test]
fn file_kinds_by_type_number() {
    assert_eq!(type_report_that_generated(1), "pay");
    assert_eq!(type_report_that_generated(2), "c2card");
    assert_eq!(type_report_that_generated(9), "c2cuzcard");
    assert_eq!(type_report_that_generated(0), "null");
}

#[test]
fn user_must_own_every_file() {
    assert!(compare_user_id(&Some("42".to_string()), &vec![42, 42]));
    assert!(!compare_user_id(&Some("42".to_string()), &vec![42, 43]));
    assert!(!compare_user_id(&Some("-1".to_string()), &vec![-1]));
    assert!(!compare_user_id(&Some("abc".to_string()), &vec![]));
    assert!(!compare_user_id(&None, &vec![]));
    assert!(compare_user_id(&Some("7".to_string()), &vec![]));
    assert!(compare_user_id(&Some("+42".to_string()), &vec![42]));
    assert!(compare_user_id(&Some("0000000000000000000042".to_string()), &vec![42]));
    assert!(compare_user_id(&Some("9223372036854775807".to_string()), &vec![isize::MAX]));
    assert!(compare_user_id(&Some("-9223372036854775808".to_string()), &vec![isize::MIN]));
    assert!(!compare_user_id(&Some("9223372036854775808".to_string()), &vec![]));
    assert!(!compare_user_id(&Some("+".to_string()), &vec![]));
    assert!(!compare_user_id(&Some("4 2".to_string()), &vec![42]));
}

#[test]
fn file_and_date_helpers() {
    assert_eq!(create_file("/srv/reports/42".to_string(), "abc"), "/srv/reports/42/abc.xlsx");
    assert_eq!(build_date_ymd(&strings(&["05", "03", "23"])), "05 Март 2023г");
    assert_eq!(build_date_ymd(&strings(&["05", "13", "23"])), "");
    let chunks = vec![
        vec![strings(&["x", "2023-03-01 10:00:00"]), strings(&["y", "2023-03-02 10:00:00"])],
        vec![strings(&["z", "2023-03-09"])],
    ];
    assert_eq!(get_date_from_to(&chunks, 1), ("2023-03-01".to_string(), "2023-03-09".to_string()));
}

#[test]
fn last_partial_chunk_is_filed() {
    let mut chunks: Vec<Vec<Vec<String>>> = vec![vec![strings(&["a"])]];
    let mut chunk = vec![strings(&["b"]), strings(&["c"])];
    is_empty_chunk(&mut chunks, &mut chunk);
    assert_eq!(chunks.len(), 2);
    assert_eq!(chunks[1], vec![strings(&["b"]), strings(&["c"])]);
    assert!(chunk.is_empty());
    is_empty_chunk(&mut chunks, &mut chunk);
    assert_eq!(chunks.len(), 2);
}

#[test]
fn error_lists_and_empty_chunks() {
    let errors = vec![(1, "first".to_string()), (2, "second".to_string())];
    assert!(is_check_on_errors_message_and_code(&errors));
    assert!(!is_check_on_errors_message_and_code(&vec![]));
    assert_eq!(get_first_error_message_and_code(&errors), (1, "first".to_string()));
    assert_eq!(get_last_error_message_and_code(&errors), (2, "second".to_string()));
    let e = chunk_is_empty(&vec![], 17).unwrap_err();
    assert_eq!(e.0, 4334304);
    assert_eq!(e.1, "Файл под id 17 не содержит в себе нужных вам данных");
    assert_eq!(chunk_is_empty(&vec![vec![]], 17), Ok(()));
}

#[test]
fn download_errors() {
    assert_eq!(map_io_error(IoFailure::NotFound), CustomError::NotFound);
    assert_eq!(map_io_error(IoFailure::PermissionDenied), CustomError::Forbidden);
    assert_eq!(map_io_error(IoFailure::Other), CustomError::Unknown);
    assert_eq!(CustomError::NotFoundFile.error_name(), "NotFoundFile");
    assert_eq!(CustomError::Unauthorized.status_code(), 401);
}

#[test]
fn user_fields() {
    assert_eq!(UserInfo::get_pub_fields(&None), "None");
    assert_eq!(UserInfo::get_pub_fields(&Some("Ann".to_string())), "Ann");
    assert_eq!(
        UserInfo::check_on_error("None".to_string()),
        Err((1334302, "Не удалось создать или найти папку для текущего пользователя".to_string()))
    );
    assert_eq!(UserInfo::check_on_error("42".to_string()), Ok("42".to_string()));
}

#[test]
fn tokens_are_stored_once_and_cleaned_up() {
    let mut store = TokensStorage::new();
    assert!(store.set_new_token("u1".to_string(), Some("2".to_string()), 100));
    assert!(!store.set_new_token("u1".to_string(), None, 101));
    assert!(store.set_new_token("admin".to_string(), Some("-1".to_string()), 110));
    let mut fresh = TokensStorage::new();
    assert!(fresh.set_new_token("u".to_string(), None, 1000));
    assert!(fresh.is_exist_token(&"u".to_string()));
    assert!(store.is_exist_token(&"u1".to_string()));
    assert_eq!(store.find_admin_token(), Some("admin".to_string()));
    store.clean_up(116);
    assert!(!store.is_exist_token(&"u1".to_string()));
    assert!(store.is_exist_token(&"admin".to_string()));
    store.clean_up(126);
    assert_eq!(store.find_admin_token(), None);
}

#[test]
fn token_window_resets_when_it_ends() {
    let mut t = Token::new(200, None, 100);
    assert!(!t.get_is_admin());
    assert_eq!(t.max_requests_sent, 10);
    t.requests_sent = 4;
    t.update_token_info(150);
    assert_eq!((t.requests_sent, t.limited_time_to), (4, 200));
    t.update_token_info(200);
    assert_eq!((t.requests_sent, t.limited_time_to), (0, 261));
    assert!(Token::new(0, Some("-1".to_string()), 5).get_is_admin());
}

#[test]
fn user_tokens_are_rate_limited_per_window() {
    let mut t = Token::new(200, None, 100);
    for _ in 0..10 {
        assert!(t.admit_request(150).is_ok());
    }
    assert_eq!(t.admit_request(150).unwrap_err().0, 1854691);
    assert_eq!(t.requests_sent, 10);
    assert!(t.admit_request(200).is_ok());
    assert_eq!((t.requests_sent, t.limited_time_to), (1, 261));
    let mut admin = Token::new(0, Some("-1".to_string()), 5);
    for _ in 0..20 {
        assert!(admin.admit_request(6).is_ok());
    }
}

#[test]
fn download_counter_counts() {
    let mut d = DownloadReportChunks::new();
    d.increment();
    d.increment();
    assert_eq!(d.chunk_num, 2);
    let mut full = DownloadReportChunks { chunk_num: usize::MAX };
    full.increment();
    assert_eq!(full.chunk_num, usize::MAX);
}
