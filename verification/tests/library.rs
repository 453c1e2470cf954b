use cwfleet::alarms::alarm_record_from_raw;
use cwfleet::alarms::AlarmRecord;
use cwfleet::alarms::ComparisonOperator;
use cwfleet::alarms::RawAlarm;
use cwfleet::alarms::Statistic;
use cwfleet::aws_regions::convert_to_name;
use cwfleet::aws_regions::AWSRegionName;
use cwfleet::aws_regions::AirportCode;
use cwfleet::credentials::build_scoped_credentials;
use cwfleet::credentials::session_name;
use cwfleet::credentials::CredentialError;
use cwfleet::inventory::filter_accounts;
use cwfleet::inventory::AccountConfig;
use cwfleet::inventory::AccountsConfig;
use cwfleet::numbers::i32_to_dec;
use cwfleet::numbers::u64_to_dec;
use cwfleet::run::image_file_name;
use cwfleet::run::plan_widget_request;
use cwfleet::run::FailureStage;
use cwfleet::template::render_template;
use cwfleet::text::contains_substr;
use cwfleet::text::replace_all;
use cwfleet::text::str_eq;

fn account(namespace: &str, region: &str, role_arn: &str) -> AccountConfig {
    AccountConfig {
        namespace: namespace.to_string(),
        region: region.to_string(),
        role_arn: role_arn.to_string(),
    }
}

fn raw_alarm_empty() -> RawAlarm {
    RawAlarm {
        alarm_name: None,
        alarm_arn: None,
        alarm_description: None,
        dimension_names: vec![],
        actions_enabled: None,
        period: None,
        threshold: None,
        comparison_operator: None,
        treat_missing_data: None,
        statistic: None,
    }
}

#[test]
fn region_known_values_map_to_themselves() {
    assert_eq!(convert_to_name("us-east-1"), "us-east-1");
    assert_eq!(convert_to_name("us-west-2"), "us-west-2");
    assert_eq!(convert_to_name("eu-west-1"), "eu-west-1");
}

#[test]
fn region_unknown_values_map_to_default() {
    assert_eq!(convert_to_name("eu-central-1"), "us-west-2");
    assert_eq!(convert_to_name(""), "us-west-2");
    assert_eq!(convert_to_name("US-EAST-1"), "us-west-2");
}

#[test]
fn airport_codes_name_their_regions() {
    assert_eq!(AirportCode::IAD.name(), "us-east-1");
    assert_eq!(AirportCode::PDX.name(), "us-west-2");
    assert_eq!(AirportCode::DUB.name(), "eu-west-1");
}

#[test]
fn filter_without_pattern_returns_everything_in_order() {
    let inv = AccountsConfig {
        account: vec![
            account("Alpha", "us-east-1", "arn:aws:iam::1:role/x"),
            account("Beta", "eu-west-1", "arn:aws:iam::2:role/y"),
        ],
    };
    let out = filter_accounts(None, Some(inv));
    assert_eq!(out.len(), 2);
    assert_eq!(out[0].namespace, "Alpha");
    assert_eq!(out[1].namespace, "Beta");
}

#[test]
fn filter_keeps_substring_matches_in_order() {
    let inv = AccountsConfig {
        account: vec![
            account("ItemDPP", "us-east-1", "a"),
            account("Orders", "us-west-2", "b"),
            account("ItemSearch", "eu-west-1", "c"),
        ],
    };
    let out = filter_accounts(Some("Item"), Some(inv));
    assert_eq!(out.len(), 2);
    assert_eq!(out[0].namespace, "ItemDPP");
    assert_eq!(out[1].namespace, "ItemSearch");
}

#[test]
fn filter_is_case_sensitive_and_may_be_empty() {
    let inv = AccountsConfig { account: vec![account("alpha", "us-east-1", "a")] };
    let out = filter_accounts(Some("Alpha"), Some(inv));
    assert!(out.is_empty());
}

#[test]
fn template_substitutes_all_placeholders() {
    let rendered = render_template(
        "{{NAMESPACE}}-{{REGION}}-{{PERIOD}}",
        "Foo",
        "us-east-1",
        "4320H",
        "0H",
        "3600",
    );
    assert_eq!(rendered, "Foo-us-east-1-3600");
}

#[test]
fn template_substitutes_period_start_and_end() {
    let rendered = render_template(
        "start={{PERIOD_START}} end={{PERIOD_END}}",
        "Foo",
        "us-east-1",
        "4320H",
        "0H",
        "3600",
    );
    assert_eq!(rendered, "start=4320H end=0H");
}

#[test]
fn template_leaves_unmatched_placeholder_verbatim() {
    let rendered = render_template("{{UNKNOWN}}-{{NAMESPACE}}", "Foo", "r", "s", "e", "p");
    assert_eq!(rendered, "{{UNKNOWN}}-Foo");
}

#[test]
fn template_without_placeholders_is_identity() {
    let text = "{\"metrics\": [[\"AWS/Lambda\", \"Errors\"]]}";
    let rendered = render_template(text, "Foo", "us-east-1", "4320H", "0H", "3600");
    assert_eq!(rendered, text);
}

#[test]
fn template_replaces_every_occurrence() {
    let rendered = render_template("{{REGION}}/{{REGION}}", "n", "eu-west-1", "s", "e", "p");
    assert_eq!(rendered, "eu-west-1/eu-west-1");
}

#[test]
fn file_name_is_derived_from_parts_and_timestamp() {
    let name = image_file_name("Foo", "metric", "us-east-1", "4320H", 1700000000);
    assert_eq!(name, "Foo-metric-us-east-1-4320H-1700000000.png");
}

#[test]
fn plan_widget_request_renders_and_names() {
    let acc = account("Foo", "us-east-1", "arn:aws:iam::1:role/x");
    let req = plan_widget_request(
        &acc,
        "metric",
        "4320H",
        "0H",
        "3600",
        Some("{\"region\":\"{{REGION}}\",\"ns\":\"{{NAMESPACE}}\"}"),
        42,
    )
    .unwrap();
    assert_eq!(req.widget_json, "{\"region\":\"us-east-1\",\"ns\":\"Foo\"}");
    assert_eq!(req.file_name, "Foo-metric-us-east-1-4320H-42.png");
}

#[test]
fn plan_widget_request_without_template_is_a_render_failure() {
    let acc = account("Foo", "us-east-1", "arn");
    let err = plan_widget_request(&acc, "t", "s", "e", "p", None, 0).unwrap_err();
    assert_eq!(err, FailureStage::RenderTemplate);
}

#[test]
fn credentials_need_all_three_fields() {
    let ok = build_scoped_credentials(
        Some("AKID".to_string()),
        Some("wJalrXUtnFEMI".to_string()),
        Some("TOKEN".to_string()),
        1000,
    )
    .unwrap();
    assert_eq!(ok.access_key_id, "AKID");
    assert_eq!(ok.secret_access_key, "wJalrXUtnFEMI");
    assert_eq!(ok.session_token, "TOKEN");
    assert_eq!(ok.expires_at, 1000 + 1800);
}

#[test]
fn credentials_report_the_missing_field() {
    let e1 = build_scoped_credentials(None, Some("s".to_string()), Some("t".to_string()), 0);
    assert_eq!(e1.unwrap_err(), CredentialError::MissingAccessKeyId);
    let e2 = build_scoped_credentials(Some("a".to_string()), None, Some("t".to_string()), 0);
    assert_eq!(e2.unwrap_err(), CredentialError::MissingSecretAccessKey);
    let e3 = build_scoped_credentials(Some("a".to_string()), Some("s".to_string()), None, 0);
    assert_eq!(e3.unwrap_err(), CredentialError::MissingSessionToken);
}

#[test]
fn session_name_is_fixed() {
    assert_eq!(session_name(), "dev-cli");
}

#[test]
fn raw_alarm_defaults_fill_every_field() {
    let rec: AlarmRecord = alarm_record_from_raw("Prog", raw_alarm_empty());
    assert_eq!(rec.program_name, "Prog");
    assert_eq!(rec.alarm_name, "");
    assert_eq!(rec.alarm_arn, "");
    assert_eq!(rec.alarm_description, "");
    assert!(rec.dimensions.is_empty());
    assert!(!rec.actions_enabled);
    assert_eq!(rec.period, 0);
    assert_eq!(rec.threshold, "0");
    assert_eq!(rec.comparison_operator, ComparisonOperator::Unknown);
    assert_eq!(rec.treat_missing_data, "");
    assert_eq!(rec.statistic, Statistic::Unknown);
}

#[test]
fn raw_alarm_known_names_map_to_variants() {
    let mut raw = raw_alarm_empty();
    raw.comparison_operator = Some("GreaterThanThreshold".to_string());
    raw.statistic = Some("SampleCount".to_string());
    raw.threshold = Some("12.5".to_string());
    raw.period = Some(300);
    raw.actions_enabled = Some(true);
    raw.dimension_names = vec![Some("FunctionName".to_string()), None];
    let rec = alarm_record_from_raw("P", raw);
    assert_eq!(rec.comparison_operator, ComparisonOperator::GreaterThanThreshold);
    assert_eq!(rec.statistic, Statistic::SampleCount);
    assert_eq!(rec.threshold, "12.5");
    assert_eq!(rec.period, 300);
    assert!(rec.actions_enabled);
    assert_eq!(rec.dimensions, vec!["FunctionName".to_string(), "".to_string()]);
}

#[test]
fn raw_alarm_garbage_threshold_becomes_zero() {
    let mut raw = raw_alarm_empty();
    raw.threshold = Some("not a number".to_string());
    let rec = alarm_record_from_raw("P", raw);
    assert_eq!(rec.threshold, "0");
}

#[test]
fn decimal_rendering_matches_expected_text() {
    assert_eq!(u64_to_dec(0), "0");
    assert_eq!(u64_to_dec(9), "9");
    assert_eq!(u64_to_dec(1700000000), "1700000000");
    assert_eq!(i32_to_dec(-42), "-42");
    assert_eq!(i32_to_dec(2147483647), "2147483647");
    assert_eq!(i32_to_dec(-2147483648), "-2147483648");
}

#[test]
fn text_utilities_behave_as_specified() {
    assert!(str_eq("abc", "abc"));
    assert!(!str_eq("abc", "abd"));
    assert!(contains_substr("ItemDPP", "DPP"));
    assert!(!contains_substr("ItemDPP", "dpp"));
    assert!(contains_substr("anything", ""));
    assert_eq!(replace_all("aaa", "aa", "b"), "ba");
    assert_eq!(replace_all("xyx", "y", "yy"), "xyyx");
}
