use cwfleet::alarms::AlarmRecord;
use cwfleet::alarms::ComparisonOperator;
use cwfleet::alarms::RawAlarm;
use cwfleet::alarms::Statistic;
use cwfleet::inventory::filter_accounts;
use cwfleet::inventory::AccountConfig;
use cwfleet::inventory::AccountsConfig;
use cwfleet::json::alarms_from_json;
use cwfleet::json::alarms_to_json;
use cwfleet::run::AlarmsRun;
use cwfleet::run::FailureStage;

fn record(program: &str, name: &str) -> AlarmRecord {
    AlarmRecord {
        program_name: program.to_string(),
        alarm_name: name.to_string(),
        alarm_arn: format!("arn:aws:cloudwatch:us-east-1:1:alarm:{}", name),
        alarm_description: "errors are high".to_string(),
        dimensions: vec!["FunctionName".to_string(), "Stage".to_string()],
        actions_enabled: true,
        period: 300,
        threshold: "5.5".to_string(),
        comparison_operator: ComparisonOperator::GreaterThanOrEqualToThreshold,
        treat_missing_data: "missing".to_string(),
        statistic: Statistic::Sum,
    }
}

fn raw(name: &str) -> RawAlarm {
    RawAlarm {
        alarm_name: Some(name.to_string()),
        alarm_arn: Some(format!("arn:{}", name)),
        alarm_description: None,
        dimension_names: vec![Some("Queue".to_string())],
        actions_enabled: Some(true),
        period: Some(60),
        threshold: Some("1.5".to_string()),
        comparison_operator: Some("LessThanThreshold".to_string()),
        treat_missing_data: Some("breaching".to_string()),
        statistic: Some("Average".to_string()),
    }
}

#[test]
fn empty_report_is_an_empty_array() {
    let records: Vec<AlarmRecord> = vec![];
    let text = alarms_to_json(&records);
    assert_eq!(text, "[]");
    assert_eq!(alarms_from_json(&text), Some(vec![]));
}

#[test]
fn three_records_round_trip() {
    let records = vec![record("A", "alarm-1"), record("B", "alarm-2"), record("C", "alarm-3")];
    let text = alarms_to_json(&records);
    let back = alarms_from_json(&text).expect("report text parses back");
    assert_eq!(back, records);
}

#[test]
fn awkward_strings_round_trip() {
    let mut r = record("A", "al\"arm");
    r.alarm_description = "a \\ b \" c".to_string();
    r.dimensions = vec!["".to_string(), "d\"im".to_string(), "d\\im".to_string()];
    r.treat_missing_data = "".to_string();
    r.period = -7;
    r.threshold = "-3e-2".to_string();
    r.comparison_operator = ComparisonOperator::Unknown;
    r.statistic = Statistic::Minimum;
    let records = vec![r];
    let text = alarms_to_json(&records);
    let back = alarms_from_json(&text).expect("report text parses back");
    assert_eq!(back, records);
}

#[test]
fn report_text_is_valid_json_with_expected_fields() {
    let records = vec![record("Prog", "my-alarm")];
    let text = alarms_to_json(&records);
    let value: serde_json::Value = serde_json::from_str(&text).expect("output is valid JSON");
    let arr = value.as_array().expect("output is an array");
    assert_eq!(arr.len(), 1);
    let obj = &arr[0];
    assert_eq!(obj["program_name"], "Prog");
    assert_eq!(obj["alarm_name"], "my-alarm");
    assert_eq!(obj["dimensions"][0], "FunctionName");
    assert_eq!(obj["dimensions"][1], "Stage");
    assert_eq!(obj["actions_enabled"], true);
    assert_eq!(obj["period"], 300);
    assert_eq!(obj["threshold"], 5.5);
    assert_eq!(obj["comparison_operator"], "GreaterThanOrEqualToThreshold");
    assert_eq!(obj["treat_missing_data"], "missing");
    assert_eq!(obj["statistic"], "Sum");
}

#[test]
fn every_operator_and_statistic_round_trips() {
    let operators = [
        ComparisonOperator::GreaterThanOrEqualToThreshold,
        ComparisonOperator::GreaterThanThreshold,
        ComparisonOperator::LessThanThreshold,
        ComparisonOperator::LessThanOrEqualToThreshold,
        ComparisonOperator::Unknown,
    ];
    let statistics = [
        Statistic::Average,
        Statistic::Maximum,
        Statistic::Minimum,
        Statistic::SampleCount,
        Statistic::Sum,
        Statistic::Unknown,
    ];
    let mut records = vec![];
    for (k, op) in operators.iter().enumerate() {
        let mut r = record("P", &format!("alarm-{}", k));
        r.comparison_operator = *op;
        r.statistic = statistics[k % statistics.len()];
        records.push(r);
    }
    let back = alarms_from_json(&alarms_to_json(&records)).expect("report parses back");
    assert_eq!(back, records);
}

#[test]
fn non_ascii_text_round_trips() {
    let mut r = record("Überwachung", "温度警报");
    r.alarm_description = "café ☕ \"quoted\"".to_string();
    r.dimensions = vec!["régiön".to_string()];
    let records = vec![r];
    let back = alarms_from_json(&alarms_to_json(&records)).expect("report parses back");
    assert_eq!(back, records);
}

#[test]
fn malformed_report_text_is_rejected() {
    assert_eq!(alarms_from_json(""), None);
    assert_eq!(alarms_from_json("["), None);
    assert_eq!(alarms_from_json("{}"), None);
    assert_eq!(alarms_from_json("[]x"), None);
    assert_eq!(alarms_from_json("[{\"program_name\":\"A\"}]"), None);
}

fn account(namespace: &str, region: &str, role_arn: &str) -> AccountConfig {
    AccountConfig {
        namespace: namespace.to_string(),
        region: region.to_string(),
        role_arn: role_arn.to_string(),
    }
}

#[test]
fn alarms_mode_scenario_processes_exactly_the_filtered_account() {
    let inv = AccountsConfig {
        account: vec![
            account("A", "us-east-1", "arn:aws:iam::1:role/x"),
            account("B", "eu-west-1", "arn:aws:iam::2:role/y"),
        ],
    };
    let filtered = filter_accounts(Some("A"), Some(inv));
    assert_eq!(filtered.len(), 1);
    assert_eq!(filtered[0].namespace, "A");

    let mut run = AlarmsRun::new(filtered);
    let plan = run.next_account().expect("one account to process");
    assert_eq!(plan.namespace, "A");
    assert_eq!(plan.region, "us-east-1");
    assert_eq!(plan.role_arn, "arn:aws:iam::1:role/x");
    assert_eq!(plan.session_name, "dev-cli");

    run.account_succeeded(vec![raw("q-depth")]);
    assert!(run.next_account().is_none());

    let text = run.report_json();
    let back = alarms_from_json(&text).expect("report parses back");
    assert_eq!(back.len(), 1);
    assert_eq!(back[0].program_name, "A");
    assert_eq!(back[0].alarm_name, "q-depth");
    assert_eq!(back[0].comparison_operator, ComparisonOperator::LessThanThreshold);
    assert_eq!(back[0].statistic, Statistic::Average);
}

#[test]
fn failure_for_one_account_does_not_stop_the_run() {
    let accounts = vec![
        account("A", "us-east-1", "arn:aws:iam::1:role/x"),
        account("B", "eu-west-1", "arn:aws:iam::2:role/y"),
    ];
    let mut run = AlarmsRun::new(accounts);

    run.account_failed(FailureStage::AssumeRole, "access denied".to_string());
    let plan = run.next_account().expect("run continues after a failure");
    assert_eq!(plan.namespace, "B");
    run.account_succeeded(vec![raw("b-alarm")]);
    assert!(run.next_account().is_none());

    let back = alarms_from_json(&run.report_json()).expect("report parses back");
    assert_eq!(back.len(), 1);
    assert_eq!(back[0].program_name, "B");
    assert_eq!(run.failures.len(), 1);
    assert_eq!(run.failures[0].namespace, "A");
    assert_eq!(run.failures[0].stage, FailureStage::AssumeRole);
    assert_eq!(run.failures[0].cause, "access denied");
    assert_eq!(run.summary(), "succeeded: 1, failed: 1");
}
