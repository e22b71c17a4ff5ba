use recall::settings::{clear_caches_result, SettingsHarvest};

#[test]
fn credentials_require_enabled_and_both_fields() {
    let s = SettingsHarvest {
        enabled: true,
        access_token: " tok ".into(),
        account_id: " 42 ".into(),
    };
    assert_eq!(s.credentials(), Some(("tok", "42")));
    let disabled = SettingsHarvest {
        enabled: false,
        ..s.clone()
    };
    assert_eq!(disabled.credentials(), None);
    let missing = SettingsHarvest {
        enabled: true,
        access_token: "tok".into(),
        account_id: "".into(),
    };
    assert_eq!(missing.credentials(), None);
}

#[test]
fn credentials_treat_whitespace_only_as_missing() {
    let s = SettingsHarvest {
        enabled: true,
        access_token: "   ".into(),
        account_id: "42".into(),
    };
    assert_eq!(s.credentials(), None);
}

#[test]
fn clearing_caches_counts_days_and_occurrences() {
    assert_eq!(clear_caches_result(0, 0).rows_deleted, 0);
    assert_eq!(clear_caches_result(2, 3).rows_deleted, 5);
}
