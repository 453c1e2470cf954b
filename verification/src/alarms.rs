//! Alarm records: the typed, persisted form of a described CloudWatch
//! alarm, and the total mapping from the raw optional fields a service
//! response carries into a record, defaulting absent fields.

use vstd::prelude::*;

use crate::numbers::spec_is_digit;
use crate::text::str_eq;

verus! {

/// The comparison operator of an alarm, as persisted.
#[derive(Clone, Copy, PartialEq, Eq, Structural, Debug)]
pub enum ComparisonOperator {
    GreaterThanOrEqualToThreshold,
    GreaterThanThreshold,
    LessThanThreshold,
    LessThanOrEqualToThreshold,
    Unknown,
}

/// The statistic of an alarm, as persisted.
#[derive(Clone, Copy, PartialEq, Eq, Structural, Debug)]
pub enum Statistic {
    Average,
    Maximum,
    Minimum,
    SampleCount,
    Sum,
    Unknown,
}

/// The persisted name of a comparison operator.
pub open spec fn spec_operator_name(op: ComparisonOperator) -> Seq<char> {
    match op {
        ComparisonOperator::GreaterThanOrEqualToThreshold => "GreaterThanOrEqualToThreshold"@,
        ComparisonOperator::GreaterThanThreshold => "GreaterThanThreshold"@,
        ComparisonOperator::LessThanThreshold => "LessThanThreshold"@,
        ComparisonOperator::LessThanOrEqualToThreshold => "LessThanOrEqualToThreshold"@,
        ComparisonOperator::Unknown => "Unknown"@,
    }
}

/// The operator a raw name stands for; anything unrecognized is
/// `Unknown`.
pub open spec fn spec_operator_from_name(s: Seq<char>) -> ComparisonOperator {
    if s == "GreaterThanOrEqualToThreshold"@ {
        ComparisonOperator::GreaterThanOrEqualToThreshold
    } else if s == "GreaterThanThreshold"@ {
        ComparisonOperator::GreaterThanThreshold
    } else if s == "LessThanThreshold"@ {
        ComparisonOperator::LessThanThreshold
    } else if s == "LessThanOrEqualToThreshold"@ {
        ComparisonOperator::LessThanOrEqualToThreshold
    } else {
        ComparisonOperator::Unknown
    }
}

/// The persisted name of a statistic.
pub open spec fn spec_statistic_name(st: Statistic) -> Seq<char> {
    match st {
        Statistic::Average => "Average"@,
        Statistic::Maximum => "Maximum"@,
        Statistic::Minimum => "Minimum"@,
        Statistic::SampleCount => "SampleCount"@,
        Statistic::Sum => "Sum"@,
        Statistic::Unknown => "Unknown"@,
    }
}

/// The statistic a raw name stands for; anything unrecognized is
/// `Unknown`.
pub open spec fn spec_statistic_from_name(s: Seq<char>) -> Statistic {
    if s == "Average"@ {
        Statistic::Average
    } else if s == "Maximum"@ {
        Statistic::Maximum
    } else if s == "Minimum"@ {
        Statistic::Minimum
    } else if s == "SampleCount"@ {
        Statistic::SampleCount
    } else if s == "Sum"@ {
        Statistic::Sum
    } else {
        Statistic::Unknown
    }
}

/// Returns the persisted name of `op`.
pub fn operator_name(op: ComparisonOperator) -> (r: &'static str)
    ensures
        r@ == spec_operator_name(op),
{
    match op {
        ComparisonOperator::GreaterThanOrEqualToThreshold => "GreaterThanOrEqualToThreshold",
        ComparisonOperator::GreaterThanThreshold => "GreaterThanThreshold",
        ComparisonOperator::LessThanThreshold => "LessThanThreshold",
        ComparisonOperator::LessThanOrEqualToThreshold => "LessThanOrEqualToThreshold",
        ComparisonOperator::Unknown => "Unknown",
    }
}

/// Maps a raw operator name to the operator it stands for.
pub fn operator_from_name(s: &str) -> (op: ComparisonOperator)
    ensures
        op == spec_operator_from_name(s@),
{
    if str_eq(s, "GreaterThanOrEqualToThreshold") {
        ComparisonOperator::GreaterThanOrEqualToThreshold
    } else if str_eq(s, "GreaterThanThreshold") {
        ComparisonOperator::GreaterThanThreshold
    } else if str_eq(s, "LessThanThreshold") {
        ComparisonOperator::LessThanThreshold
    } else if str_eq(s, "LessThanOrEqualToThreshold") {
        ComparisonOperator::LessThanOrEqualToThreshold
    } else {
        ComparisonOperator::Unknown
    }
}

/// Returns the persisted name of `st`.
pub fn statistic_name(st: Statistic) -> (r: &'static str)
    ensures
        r@ == spec_statistic_name(st),
{
    match st {
        Statistic::Average => "Average",
        Statistic::Maximum => "Maximum",
        Statistic::Minimum => "Minimum",
        Statistic::SampleCount => "SampleCount",
        Statistic::Sum => "Sum",
        Statistic::Unknown => "Unknown",
    }
}

/// Maps a raw statistic name to the statistic it stands for.
pub fn statistic_from_name(s: &str) -> (st: Statistic)
    ensures
        st == spec_statistic_from_name(s@),
{
    if str_eq(s, "Average") {
        Statistic::Average
    } else if str_eq(s, "Maximum") {
        Statistic::Maximum
    } else if str_eq(s, "Minimum") {
        Statistic::Minimum
    } else if str_eq(s, "SampleCount") {
        Statistic::SampleCount
    } else if str_eq(s, "Sum") {
        Statistic::Sum
    } else {
        Statistic::Unknown
    }
}

/// Reading a persisted operator name back yields the operator.
pub proof fn lemma_operator_name_round_trip(op: ComparisonOperator)
    ensures
        spec_operator_from_name(spec_operator_name(op)) == op,
{
    broadcast use vstd::string::group_string_axioms;

    reveal_strlit("GreaterThanOrEqualToThreshold");
    reveal_strlit("GreaterThanThreshold");
    reveal_strlit("LessThanThreshold");
    reveal_strlit("LessThanOrEqualToThreshold");
    reveal_strlit("Unknown");
    assert("GreaterThanOrEqualToThreshold"@.len() == 29);
    assert("GreaterThanThreshold"@.len() == 20);
    assert("LessThanThreshold"@.len() == 17);
    assert("LessThanOrEqualToThreshold"@.len() == 26);
    assert("Unknown"@.len() == 7);
}

/// Reading a persisted statistic name back yields the statistic.
pub proof fn lemma_statistic_name_round_trip(st: Statistic)
    ensures
        spec_statistic_from_name(spec_statistic_name(st)) == st,
{
    broadcast use vstd::string::group_string_axioms;

    reveal_strlit("Average");
    reveal_strlit("Maximum");
    reveal_strlit("Minimum");
    reveal_strlit("SampleCount");
    reveal_strlit("Sum");
    reveal_strlit("Unknown");
    assert("Average"@.len() == 7);
    assert("Maximum"@.len() == 7);
    assert("Minimum"@.len() == 7);
    assert("SampleCount"@.len() == 11);
    assert("Sum"@.len() == 3);
    assert("Unknown"@.len() == 7);
    assert("Average"@[0] == 'A');
    assert("Maximum"@[0] == 'M');
    assert("Minimum"@[0] == 'M');
    assert("Unknown"@[0] == 'U');
    assert("Maximum"@[1] == 'a');
    assert("Minimum"@[1] == 'i');
}

/// `s` is plausible number text: non-empty and made only of digits,
/// sign, exponent and decimal-point characters. The persisted report
/// embeds such text verbatim as a JSON number.
pub open spec fn spec_number_text(s: Seq<char>) -> bool {
    s.len() > 0 && forall|i: int| 0 <= i < s.len() ==> spec_is_number_char(#[trigger] s[i])
}

/// A character that may appear in number text.
pub open spec fn spec_is_number_char(c: char) -> bool {
    spec_is_digit(c) || c == '.' || c == '-' || c == '+' || c == 'e' || c == 'E'
}

/// The views of a sequence of strings.
pub open spec fn spec_string_views(ds: Seq<String>) -> Seq<Seq<char>> {
    ds.map_values(|d: String| d@)
}

/// The texts a sequence of raw optional names contributes.
pub open spec fn spec_opt_texts(ds: Seq<Option<String>>) -> Seq<Seq<char>> {
    ds.map_values(|o: Option<String>| spec_opt_text(o))
}

/// One alarm of one account, in the persisted shape.
#[derive(Debug, PartialEq)]
pub struct AlarmRecord {
    pub program_name: String,
    pub alarm_name: String,
    pub alarm_arn: String,
    pub alarm_description: String,
    pub dimensions: Vec<String>,
    pub actions_enabled: bool,
    pub period: i32,
    /// Decimal text of the alarm threshold, embedded verbatim as a
    /// JSON number; always satisfies `spec_number_text`.
    pub threshold: String,
    pub comparison_operator: ComparisonOperator,
    pub treat_missing_data: String,
    pub statistic: Statistic,
}

/// The mathematical shape of an alarm record.
pub ghost struct AlarmRecordView {
    pub program_name: Seq<char>,
    pub alarm_name: Seq<char>,
    pub alarm_arn: Seq<char>,
    pub alarm_description: Seq<char>,
    pub dimensions: Seq<Seq<char>>,
    pub actions_enabled: bool,
    pub period: int,
    pub threshold: Seq<char>,
    pub comparison_operator: ComparisonOperator,
    pub treat_missing_data: Seq<char>,
    pub statistic: Statistic,
}

impl View for AlarmRecord {
    type V = AlarmRecordView;

    open spec fn view(&self) -> AlarmRecordView {
        AlarmRecordView {
            program_name: self.program_name@,
            alarm_name: self.alarm_name@,
            alarm_arn: self.alarm_arn@,
            alarm_description: self.alarm_description@,
            dimensions: spec_string_views(self.dimensions@),
            actions_enabled: self.actions_enabled,
            period: self.period as int,
            threshold: self.threshold@,
            comparison_operator: self.comparison_operator,
            treat_missing_data: self.treat_missing_data@,
            statistic: self.statistic,
        }
    }
}

/// A record is well formed when its threshold text is plausible number
/// text and its period fits the persisted integer width.
pub open spec fn spec_wf_record(rv: AlarmRecordView) -> bool {
    spec_number_text(rv.threshold) && i32::MIN <= rv.period <= i32::MAX
}

/// The raw optional fields of one alarm as a service response carries
/// them, already reduced to plain values.
#[derive(Debug)]
pub struct RawAlarm {
    pub alarm_name: Option<String>,
    pub alarm_arn: Option<String>,
    pub alarm_description: Option<String>,
    pub dimension_names: Vec<Option<String>>,
    pub actions_enabled: Option<bool>,
    pub period: Option<i32>,
    /// Decimal text of the threshold, as the application rendered it.
    pub threshold: Option<String>,
    pub comparison_operator: Option<String>,
    pub treat_missing_data: Option<String>,
    pub statistic: Option<String>,
}

/// The text an absent-or-present raw string field contributes.
pub open spec fn spec_opt_text(o: Option<String>) -> Seq<char> {
    match o {
        Some(s) => s@,
        None => Seq::<char>::empty(),
    }
}

/// The threshold text a raw threshold field contributes: the rendered
/// text when it is plausible number text, and `"0"` otherwise.
pub open spec fn spec_threshold_text(o: Option<String>) -> Seq<char> {
    match o {
        Some(s) => if spec_number_text(s@) {
            s@
        } else {
            seq!['0']
        },
        None => seq!['0'],
    }
}

/// The record view that mapping one raw alarm for the account named
/// `pn` produces: every absent field defaulted.
pub open spec fn spec_mapped_record(pn: Seq<char>, raw: RawAlarm) -> AlarmRecordView {
    AlarmRecordView {
        program_name: pn,
        alarm_name: spec_opt_text(raw.alarm_name),
        alarm_arn: spec_opt_text(raw.alarm_arn),
        alarm_description: spec_opt_text(raw.alarm_description),
        dimensions: spec_opt_texts(raw.dimension_names@),
        actions_enabled: match raw.actions_enabled {
            Some(b) => b,
            None => false,
        },
        period: match raw.period {
            Some(p) => p as int,
            None => 0,
        },
        threshold: spec_threshold_text(raw.threshold),
        comparison_operator: spec_operator_from_name(spec_opt_text(raw.comparison_operator)),
        treat_missing_data: spec_opt_text(raw.treat_missing_data),
        statistic: spec_statistic_from_name(spec_opt_text(raw.statistic)),
    }
}

/// The record views that mapping a response's raw alarms produces, in
/// order.
pub open spec fn spec_mapped_records(pn: Seq<char>, raws: Seq<RawAlarm>) -> Seq<AlarmRecordView> {
    raws.map_values(|ra: RawAlarm| spec_mapped_record(pn, ra))
}

/// Checks that `s` is plausible number text.
pub fn is_number_text(s: &str) -> (r: bool)
    ensures
        r == spec_number_text(s@),
{
    let n = s.unicode_len();
    if n == 0 {
        return false;
    }
    let mut i: usize = 0;
    while i < n
        invariant
            n == s@.len(),
            i <= n,
            forall|j: int| 0 <= j < i ==> spec_is_number_char(#[trigger] s@[j]),
        decreases n - i,
    {
        let c = s.get_char(i);
        let u = c as u32;
        let ok = (48 <= u && u <= 57) || c == '.' || c == '-' || c == '+' || c == 'e' || c == 'E';
        if !ok {
            return false;
        }
        i += 1;
    }
    true
}

/// Takes ownership of a raw string field, or the empty string when it
/// is absent.
fn opt_text(o: Option<String>) -> (r: String)
    ensures
        r@ == spec_opt_text(o),
{
    match o {
        Some(s) => s,
        None => String::new(),
    }
}

/// Maps the raw dimension names, defaulting each absent name to the
/// empty string and keeping the order.
fn dimension_names(raw: Vec<Option<String>>) -> (r: Vec<String>)
    ensures
        spec_string_views(r@) == spec_opt_texts(raw@),
{
    let ghost orig: Seq<Option<String>> = raw@;
    let mut rest = raw;
    let mut out: Vec<String> = Vec::new();
    while rest.len() > 0
        invariant
            rest@.len() <= orig.len(),
            rest@ == orig.subrange(orig.len() - rest@.len(), orig.len() as int),
            spec_string_views(out@) == spec_opt_texts(orig.take(orig.len() - rest@.len())),
        decreases rest@.len(),
    {
        let ghost done: int = orig.len() - rest@.len();
        let ghost prev: Seq<Option<String>> = rest@;
        let x = rest.remove(0);
        let t = opt_text(x);
        let ghost out0: Seq<String> = out@;
        let ghost tv: Seq<char> = t@;
        out.push(t);
        proof {
            assert(prev == orig.subrange(done, orig.len() as int));
            assert(rest@ =~= orig.subrange(done + 1, orig.len() as int));
            assert(x == prev[0]);
            assert(x == orig[done]);
            assert(out@ == out0.push(t));
            assert(spec_string_views(out@) =~= spec_string_views(out0).push(tv));
            assert(spec_opt_texts(orig.take(done + 1)) =~= spec_opt_texts(orig.take(done)).push(
                spec_opt_text(orig[done]),
            ));
        }
    }
    proof {
        assert(orig.take(orig.len() as int) =~= orig);
    }
    out
}

/// Builds the persisted record for one alarm of the account named
/// `program_name`, defaulting every absent raw field: empty text,
/// `false`, zero, `"0"` threshold, `Unknown` operator and statistic.
pub fn alarm_record_from_raw(program_name: &str, raw: RawAlarm) -> (r: AlarmRecord)
    ensures
        r@.program_name == program_name@,
        r@.alarm_name == spec_opt_text(raw.alarm_name),
        r@.alarm_arn == spec_opt_text(raw.alarm_arn),
        r@.alarm_description == spec_opt_text(raw.alarm_description),
        r@.dimensions == spec_opt_texts(raw.dimension_names@),
        r@.actions_enabled == (match raw.actions_enabled {
            Some(b) => b,
            None => false,
        }),
        r@.period == (match raw.period {
            Some(p) => p as int,
            None => 0,
        }),
        r@.threshold == spec_threshold_text(raw.threshold),
        r@.comparison_operator == spec_operator_from_name(spec_opt_text(raw.comparison_operator)),
        r@.treat_missing_data == spec_opt_text(raw.treat_missing_data),
        r@.statistic == spec_statistic_from_name(spec_opt_text(raw.statistic)),
        r@ == spec_mapped_record(program_name@, raw),
        spec_wf_record(r@),
{
    let threshold = match raw.threshold {
        Some(t) => {
            if is_number_text(t.as_str()) {
                t
            } else {
                let mut z = String::new();
                crate::text::push_char(&mut z, '0');
                proof {
                    assert(z@ =~= seq!['0']);
                }
                z
            }
        },
        None => {
            let mut z = String::new();
            crate::text::push_char(&mut z, '0');
            proof {
                assert(z@ =~= seq!['0']);
            }
            z
        },
    };
    let op_name = opt_text(raw.comparison_operator);
    let st_name = opt_text(raw.statistic);
    proof {
        assert(spec_number_text(seq!['0'])) by {
            assert(seq!['0'][0] == '0');
            assert(spec_is_digit('0'));
        }
    }
    AlarmRecord {
        program_name: String::from_str(program_name),
        alarm_name: opt_text(raw.alarm_name),
        alarm_arn: opt_text(raw.alarm_arn),
        alarm_description: opt_text(raw.alarm_description),
        dimensions: dimension_names(raw.dimension_names),
        actions_enabled: match raw.actions_enabled {
            Some(b) => b,
            None => false,
        },
        period: match raw.period {
            Some(p) => p,
            None => 0,
        },
        threshold,
        comparison_operator: operator_from_name(op_name.as_str()),
        treat_missing_data: opt_text(raw.treat_missing_data),
        statistic: statistic_from_name(st_name.as_str()),
    }
}

} // verus!
