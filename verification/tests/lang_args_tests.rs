use kanttiinit::args::{plan_command, Args, Plan};
use kanttiinit::lang::{get_lang, Lang};
use kanttiinit::MenuError;

fn args() -> Args {
    Args {
        query: None,
        geo: None,
        day: 0,
        filter: None,
        number: None,
        address: false,
        url: false,
        hide_closed: false,
        set_lang: None,
    }
}

#[test]
fn lang_codes_parse() {
    assert_eq!(Lang::from_str("fi").unwrap(), Lang::Fi);
    assert_eq!(Lang::from_str("en").unwrap(), Lang::En);
    assert_eq!(Lang::from_str("sv"), Err(MenuError::Validation));
    assert_eq!(Lang::from_str(""), Err(MenuError::Validation));
    assert_eq!(Lang::from_str("EN"), Err(MenuError::Validation));
}

#[test]
fn lang_round_trips_to_code() {
    assert_eq!(Lang::Fi.as_str(), "fi");
    assert_eq!(Lang::En.as_str(), "en");
}

#[test]
fn missing_config_defaults_to_english() {
    assert_eq!(get_lang(&None).unwrap(), "en");
}

#[test]
fn stored_lang_is_validated() {
    assert_eq!(get_lang(&Some("fi".to_string())).unwrap(), "fi");
    assert_eq!(get_lang(&Some("en".to_string())).unwrap(), "en");
    assert_eq!(get_lang(&Some("xx".to_string())), Err(MenuError::Validation));
}

#[test]
fn set_lang_wins_over_everything() {
    let mut a = args();
    a.set_lang = Some("fi".to_string());
    a.query = Some("otaniemi".to_string());
    a.geo = Some("Otakaari 8".to_string());
    assert!(matches!(plan_command(a), Plan::SetLanguage { lang } if lang == "fi"));
}

#[test]
fn missing_query_and_geo_is_rejected() {
    assert!(matches!(plan_command(args()), Plan::MissingQuery));
}

#[test]
fn query_and_geo_together_are_rejected() {
    let mut a = args();
    a.query = Some("otaniemi".to_string());
    a.geo = Some("Otakaari 8".to_string());
    assert!(matches!(plan_command(a), Plan::QueryGeoConflict));
}

#[test]
fn day_offset_with_hide_closed_is_rejected() {
    let mut a = args();
    a.query = Some("otaniemi".to_string());
    a.day = 1;
    a.hide_closed = true;
    assert!(matches!(plan_command(a), Plan::DayHideClosedConflict));
}

#[test]
fn query_runs_the_pipeline() {
    let mut a = args();
    a.query = Some("alvari".to_string());
    a.day = 2;
    a.filter = Some("salad".to_string());
    a.number = Some(3);
    a.address = true;
    match plan_command(a) {
        Plan::RunQuery { query, day, filter, number, address, url, hide_closed } => {
            assert_eq!(query, "alvari");
            assert_eq!(day, 2);
            assert_eq!(filter.as_deref(), Some("salad"));
            assert_eq!(number, Some(3));
            assert!(address);
            assert!(!url);
            assert!(!hide_closed);
        }
        _ => panic!("expected a query run"),
    }
}

#[test]
fn geo_alone_is_unsupported() {
    let mut a = args();
    a.geo = Some("Otakaari 8".to_string());
    assert!(matches!(plan_command(a), Plan::GeoUnsupported));
}

#[test]
fn hide_closed_with_today_is_allowed() {
    let mut a = args();
    a.query = Some("alvari".to_string());
    a.hide_closed = true;
    assert!(matches!(plan_command(a), Plan::RunQuery { hide_closed: true, .. }));
}

#[test]
fn error_descriptions_name_the_kind() {
    assert_eq!(MenuError::Network.describe(), "network error");
    assert_eq!(MenuError::Decode.describe(), "malformed response");
    assert_eq!(MenuError::Parse.describe(), "malformed field");
    assert_eq!(MenuError::Validation.describe(), "invalid option");
}
