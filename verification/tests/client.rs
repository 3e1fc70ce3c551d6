use kronox::client::{
    check_status, programme_params, request_url, schedule_params, start_datum, PROGRAMMES_PATH,
    SCHEDULE_PATH,
};
use kronox::error::KronoxError;

fn pairs(v: &[(String, String)]) -> Vec<(&str, &str)> {
    v.iter().map(|(k, x)| (k.as_str(), x.as_str())).collect()
}

#[test]
fn start_date_is_today_or_iso() {
    assert_eq!(start_datum(None).as_deref(), Some("idag"));
    assert_eq!(start_datum(Some((2026, 7, 22))).as_deref(), Some("2026-07-22"));
    assert_eq!(start_datum(Some((987, 1, 2))).as_deref(), Some("0987-01-02"));
    assert_eq!(start_datum(Some((2024, 2, 29))).as_deref(), Some("2024-02-29"));
    assert_eq!(start_datum(Some((2026, 2, 29))), None);
    assert_eq!(start_datum(Some((2026, 13, 1))), None);
}

#[test]
fn schedule_request_parameters() {
    let params = schedule_params("idag", &["p.A".to_owned(), "p.B".to_owned()]);
    assert_eq!(
        pairs(&params),
        vec![
            ("startDatum", "idag"),
            ("intervallTyp", "a"),
            ("intervallAntal", "1"),
            ("sprak", "EN"),
            ("sokMedAND", "false"),
            ("forklaringar", "true"),
            ("resurser", "p.A,p.B"),
        ]
    );
}

#[test]
fn programme_search_parameters() {
    let params = programme_params("data");
    assert_eq!(
        pairs(&params),
        vec![
            ("sokord", "data"),
            ("startDatum", "idag"),
            ("slutDatum", ""),
            ("intervallTyp", "m"),
            ("intervallAntal", "6"),
        ]
    );
}

#[test]
fn request_urls_join_base_and_path() {
    assert_eq!(
        request_url("https://schema.hkr.se/", SCHEDULE_PATH).unwrap(),
        "https://schema.hkr.se/setup/jsp/SchemaXML.jsp"
    );
    assert_eq!(
        request_url("https://kronox.mau.se", PROGRAMMES_PATH).unwrap(),
        "https://kronox.mau.se/ajax/ajax_sokResurser.jsp"
    );
    assert!(matches!(request_url("not a url", SCHEDULE_PATH), Err(KronoxError::Url(_))));
}

#[test]
fn request_urls_are_normalized() {
    assert_eq!(
        request_url("HTTPS://Schema.HKR.se:443//", SCHEDULE_PATH).unwrap(),
        "https://schema.hkr.se/setup/jsp/SchemaXML.jsp"
    );
}

#[test]
fn only_2xx_is_success() {
    assert!(check_status(200).is_ok());
    assert!(check_status(299).is_ok());
    assert!(matches!(check_status(302), Err(KronoxError::Upstream { status: 302 })));
    assert!(matches!(check_status(500), Err(KronoxError::Upstream { status: 500 })));
    assert!(matches!(check_status(199), Err(KronoxError::Upstream { status: 199 })));
}
