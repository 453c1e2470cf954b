//! The run orchestrator's decisions: which account comes next, what
//! client to build for it, what request to issue, and how each
//! per-account outcome — success or structured failure — advances the
//! run without ever aborting it. The surrounding application performs
//! the network and file work and reports each outcome back.

use vstd::prelude::*;

use crate::alarms::alarm_record_from_raw;
use crate::alarms::spec_mapped_records;
use crate::alarms::AlarmRecord;
use crate::alarms::AlarmRecordView;
use crate::alarms::RawAlarm;
use crate::aws_regions::convert_to_name;
use crate::aws_regions::spec_resolve_region;
use crate::credentials::session_name;
use crate::inventory::AccountConfig;
use crate::json::alarms_to_json;
use crate::json::spec_json_records;
use crate::json::spec_record_views;
use crate::numbers::spec_nat_dec;
use crate::numbers::u64_to_dec;
use crate::template::render_template;
use crate::template::spec_render;
use vstd::string::StringExecFns;

verus! {

/// The stage of one account's processing at which it failed.
#[derive(Clone, Copy, PartialEq, Eq, Structural, Debug)]
pub enum FailureStage {
    AssumeRole,
    RenderTemplate,
    ServiceCall,
    WriteArtifact,
}

/// One account's structured failure, kept in the run report instead of
/// aborting the run.
pub struct AccountFailure {
    pub namespace: String,
    pub region: String,
    pub role_arn: String,
    pub stage: FailureStage,
    pub cause: String,
}

/// The mathematical shape of a recorded failure.
pub ghost struct FailureView {
    pub namespace: Seq<char>,
    pub region: Seq<char>,
    pub role_arn: Seq<char>,
    pub stage: FailureStage,
    pub cause: Seq<char>,
}

impl View for AccountFailure {
    type V = FailureView;

    open spec fn view(&self) -> FailureView {
        FailureView {
            namespace: self.namespace@,
            region: self.region@,
            role_arn: self.role_arn@,
            stage: self.stage,
            cause: self.cause@,
        }
    }
}

/// The views of the recorded failures.
pub open spec fn spec_failure_views(fs: Seq<AccountFailure>) -> Seq<FailureView> {
    fs.map_values(|f: AccountFailure| f@)
}

/// What the application must build to reach one account: a client
/// bound to the resolved region, the role to assume, and the fixed
/// session name.
pub struct ClientPlan {
    pub namespace: String,
    pub region: String,
    pub role_arn: String,
    pub session_name: String,
}

/// One account's metric-widget request: the rendered widget definition
/// and the file name for the downloaded image.
#[derive(Debug)]
pub struct ImageRequest {
    pub widget_json: String,
    pub file_name: String,
}

/// The derived image file name:
/// `{namespace}-{title}-{region}-{start}-{timestamp}.png`.
pub open spec fn spec_image_file_name(
    namespace: Seq<char>,
    title: Seq<char>,
    region: Seq<char>,
    start: Seq<char>,
    timestamp: u64,
) -> Seq<char> {
    namespace + "-"@ + title + "-"@ + region + "-"@ + start + "-"@ + spec_nat_dec(
        timestamp as nat,
    ) + ".png"@
}

/// Derives the image file name for one account's download.
pub fn image_file_name(
    namespace: &str,
    title: &str,
    region: &str,
    start: &str,
    timestamp: u64,
) -> (r: String)
    ensures
        r@ == spec_image_file_name(namespace@, title@, region@, start@, timestamp),
{
    let mut out = String::from_str(namespace);
    out.append("-");
    out.append(title);
    out.append("-");
    out.append(region);
    out.append("-");
    out.append(start);
    out.append("-");
    let ts = u64_to_dec(timestamp);
    out.append(ts.as_str());
    out.append(".png");
    out
}

/// Plans one account's metric-widget request: renders the template
/// with the account's values and derives the artifact name. Succeeds
/// exactly when the template text is available; an unreadable template
/// is a structured per-account failure, not a crash.
pub fn plan_widget_request(
    acc: &AccountConfig,
    title: &str,
    start: &str,
    end: &str,
    period: &str,
    template: Option<&str>,
    timestamp: u64,
) -> (r: Result<ImageRequest, FailureStage>)
    ensures
        (r is Ok) == (template is Some),
        r matches Ok(q) ==> q.widget_json@ == spec_render(
            template.unwrap()@,
            acc.namespace@,
            acc.region@,
            start@,
            end@,
            period@,
        ) && q.file_name@ == spec_image_file_name(
            acc.namespace@,
            title@,
            acc.region@,
            start@,
            timestamp,
        ),
        r matches Err(e) ==> e == FailureStage::RenderTemplate,
{
    let contents = match template {
        Some(t) => t,
        None => {
            return Err(FailureStage::RenderTemplate);
        },
    };
    let widget_json = render_template(
        contents,
        acc.namespace.as_str(),
        acc.region.as_str(),
        start,
        end,
        period,
    );
    let file_name = image_file_name(
        acc.namespace.as_str(),
        title,
        acc.region.as_str(),
        start,
        timestamp,
    );
    Ok(ImageRequest { widget_json, file_name })
}

/// Builds the client plan for one account record: the canonical
/// region, the role ARN, and the fixed session name.
fn client_plan_for(acc: &AccountConfig) -> (r: ClientPlan)
    ensures
        r.namespace@ == acc.namespace@,
        r.region@ == spec_resolve_region(acc.region@),
        r.role_arn@ == acc.role_arn@,
        r.session_name@ == "dev-cli"@,
{
    ClientPlan {
        namespace: acc.namespace.clone(),
        region: String::from_str(convert_to_name(acc.region.as_str())),
        role_arn: acc.role_arn.clone(),
        session_name: String::from_str(session_name()),
    }
}

/// The mathematical state of an alarms-mode run.
pub ghost struct AlarmsRunView {
    pub accounts: Seq<AccountConfig>,
    pub next: int,
    pub collected: Seq<AlarmRecordView>,
    pub succeeded: int,
    pub failed: int,
    pub failures: Seq<FailureView>,
}

/// A run state is well formed: the cursor stays inside the inventory
/// and every processed account is counted exactly once.
pub open spec fn spec_run_wf(v: AlarmsRunView) -> bool {
    0 <= v.next <= v.accounts.len() && v.succeeded >= 0 && v.failed >= 0 && v.succeeded + v.failed
        == v.next
}

/// How a per-account failure advances the run: the cursor and the
/// failure count move, the collected records stay.
pub open spec fn spec_step_failed(v: AlarmsRunView, f: FailureView) -> AlarmsRunView {
    AlarmsRunView {
        accounts: v.accounts,
        next: v.next + 1,
        collected: v.collected,
        succeeded: v.succeeded,
        failed: v.failed + 1,
        failures: v.failures.push(f),
    }
}

/// How a per-account success advances the run: the cursor and the
/// success count move, and the account's mapped records are appended.
pub open spec fn spec_step_succeeded(
    v: AlarmsRunView,
    pn: Seq<char>,
    raws: Seq<RawAlarm>,
) -> AlarmsRunView {
    AlarmsRunView {
        accounts: v.accounts,
        next: v.next + 1,
        collected: v.collected + spec_mapped_records(pn, raws),
        succeeded: v.succeeded + 1,
        failed: v.failed,
        failures: v.failures,
    }
}

/// An alarms-mode run over a filtered inventory: accounts are
/// processed strictly one at a time, every outcome is recorded, and
/// no outcome stops the run.
pub struct AlarmsRun {
    pub accounts: Vec<AccountConfig>,
    pub next: usize,
    pub collected: Vec<AlarmRecord>,
    pub succeeded: usize,
    pub failed: usize,
    pub failures: Vec<AccountFailure>,
}

impl View for AlarmsRun {
    type V = AlarmsRunView;

    open spec fn view(&self) -> AlarmsRunView {
        AlarmsRunView {
            accounts: self.accounts@,
            next: self.next as int,
            collected: spec_record_views(self.collected@),
            succeeded: self.succeeded as int,
            failed: self.failed as int,
            failures: spec_failure_views(self.failures@),
        }
    }
}

impl AlarmsRun {
    /// Starts a run over the filtered accounts.
    pub fn new(accounts: Vec<AccountConfig>) -> (r: Self)
        ensures
            r@.accounts == accounts@,
            r@.next == 0,
            r@.collected == Seq::<AlarmRecordView>::empty(),
            r@.succeeded == 0,
            r@.failed == 0,
            r@.failures == Seq::<FailureView>::empty(),
            spec_run_wf(r@),
    {
        let r = AlarmsRun {
            accounts,
            next: 0,
            collected: Vec::new(),
            succeeded: 0,
            failed: 0,
            failures: Vec::new(),
        };
        proof {
            assert(spec_record_views(r.collected@) =~= Seq::<AlarmRecordView>::empty());
            assert(spec_failure_views(r.failures@) =~= Seq::<FailureView>::empty());
        }
        r
    }

    /// The client plan for the account the run will process next, or
    /// nothing when every account has been processed.
    pub fn next_account(&self) -> (r: Option<ClientPlan>)
        ensures
            (r is Some) == (self@.next < self@.accounts.len()),
            r matches Some(p) ==> {
                let acc = self@.accounts[self@.next];
                p.namespace@ == acc.namespace@ && p.region@ == spec_resolve_region(acc.region@)
                    && p.role_arn@ == acc.role_arn@ && p.session_name@ == "dev-cli"@
            },
    {
        if self.next < self.accounts.len() {
            Some(client_plan_for(&self.accounts[self.next]))
        } else {
            None
        }
    }

    /// Records one account's successful describe-alarms response: its
    /// raw alarms are mapped and appended, and the run moves on.
    pub fn account_succeeded(&mut self, raw_alarms: Vec<RawAlarm>)
        requires
            spec_run_wf(old(self)@),
            old(self)@.next < old(self)@.accounts.len(),
        ensures
            final(self)@ == spec_step_succeeded(
                old(self)@,
                old(self)@.accounts[old(self)@.next].namespace@,
                raw_alarms@,
            ),
            spec_run_wf(final(self)@),
    {
        let ghost orig: Seq<RawAlarm> = raw_alarms@;
        let ghost base: Seq<AlarmRecordView> = spec_record_views(self.collected@);
        let pn = self.accounts[self.next].namespace.clone();
        let ghost pnv: Seq<char> = pn@;
        let mut rest = raw_alarms;
        while rest.len() > 0
            invariant
                pnv == pn@,
                rest@.len() <= orig.len(),
                rest@ == orig.subrange(orig.len() - rest@.len(), orig.len() as int),
                spec_record_views(self.collected@) == base + spec_mapped_records(
                    pnv,
                    orig.take(orig.len() - rest@.len()),
                ),
                self.accounts@ == old(self).accounts@,
                self.next == old(self).next,
                self.succeeded == old(self).succeeded,
                self.failed == old(self).failed,
                self.failures@ == old(self).failures@,
            decreases rest@.len(),
        {
            let ghost done: int = orig.len() - rest@.len();
            let ghost prev: Seq<RawAlarm> = rest@;
            let raw = rest.remove(0);
            let rec = alarm_record_from_raw(pn.as_str(), raw);
            let ghost col0: Seq<AlarmRecord> = self.collected@;
            self.collected.push(rec);
            proof {
                assert(prev == orig.subrange(done, orig.len() as int));
                assert(rest@ =~= orig.subrange(done + 1, orig.len() as int));
                assert(raw == prev[0]);
                assert(raw == orig[done]);
                assert(spec_record_views(self.collected@) =~= spec_record_views(col0).push(rec@));
                assert(spec_mapped_records(pnv, orig.take(done + 1)) =~= spec_mapped_records(
                    pnv,
                    orig.take(done),
                ).push(rec@));
                assert(base + spec_mapped_records(pnv, orig.take(done + 1)) =~= (base
                    + spec_mapped_records(pnv, orig.take(done))).push(rec@));
            }
        }
        // the length call bounds the cursor below usize::MAX
        let accounts_len = self.accounts.len();
        self.next = self.next + 1;
        self.succeeded = self.succeeded + 1;
        proof {
            assert(self.next <= accounts_len);
            assert(orig.take(orig.len() as int) =~= orig);
            assert(final(self)@ =~= spec_step_succeeded(
                old(self)@,
                old(self)@.accounts[old(self)@.next].namespace@,
                orig,
            ));
        }
    }

    /// Records one account's structured failure and moves on: the
    /// collected records are untouched and the run is not aborted.
    pub fn account_failed(&mut self, stage: FailureStage, cause: String)
        requires
            spec_run_wf(old(self)@),
            old(self)@.next < old(self)@.accounts.len(),
        ensures
            final(self)@ == spec_step_failed(
                old(self)@,
                FailureView {
                    namespace: old(self)@.accounts[old(self)@.next].namespace@,
                    region: old(self)@.accounts[old(self)@.next].region@,
                    role_arn: old(self)@.accounts[old(self)@.next].role_arn@,
                    stage: stage,
                    cause: cause@,
                },
            ),
            spec_run_wf(final(self)@),
    {
        let acc = &self.accounts[self.next];
        let failure = AccountFailure {
            namespace: acc.namespace.clone(),
            region: acc.region.clone(),
            role_arn: acc.role_arn.clone(),
            stage,
            cause,
        };
        let ghost f0: Seq<AccountFailure> = self.failures@;
        let ghost fv: FailureView = failure@;
        // the length call bounds the cursor below usize::MAX
        let accounts_len = self.accounts.len();
        self.failures.push(failure);
        self.next = self.next + 1;
        self.failed = self.failed + 1;
        proof {
            assert(self.next <= accounts_len);
            assert(spec_failure_views(self.failures@) =~= spec_failure_views(f0).push(fv));
        }
    }

    /// The persisted report text for everything collected so far.
    pub fn report_json(&self) -> (r: String)
        ensures
            r@ == spec_json_records(self@.collected),
    {
        alarms_to_json(&self.collected)
    }

    /// The run summary line: how many accounts succeeded and failed.
    pub fn summary(&self) -> (r: String)
        ensures
            r@ == "succeeded: "@ + spec_nat_dec(self@.succeeded as nat) + ", failed: "@
                + spec_nat_dec(self@.failed as nat),
    {
        let mut out = String::from_str("succeeded: ");
        let sc = u64_to_dec(self.succeeded as u64);
        out.append(sc.as_str());
        out.append(", failed: ");
        let fc = u64_to_dec(self.failed as u64);
        out.append(fc.as_str());
        out
    }
}

/// Failure isolation: one account's failure never stops the run. After
/// a failure for one account and a success for the next, the report
/// holds exactly the earlier records plus the succeeding account's
/// records, the failure is logged, and the run has moved past both
/// accounts.
pub proof fn lemma_failure_isolation(
    v: AlarmsRunView,
    f: FailureView,
    pn: Seq<char>,
    raws: Seq<RawAlarm>,
)
    requires
        spec_run_wf(v),
        v.next + 2 <= v.accounts.len(),
    ensures
        spec_run_wf(spec_step_failed(v, f)),
        spec_run_wf(spec_step_succeeded(spec_step_failed(v, f), pn, raws)),
        spec_step_succeeded(spec_step_failed(v, f), pn, raws).collected == v.collected
            + spec_mapped_records(pn, raws),
        spec_step_succeeded(spec_step_failed(v, f), pn, raws).failures == v.failures.push(f),
        spec_step_succeeded(spec_step_failed(v, f), pn, raws).succeeded == v.succeeded + 1,
        spec_step_succeeded(spec_step_failed(v, f), pn, raws).failed == v.failed + 1,
        spec_step_succeeded(spec_step_failed(v, f), pn, raws).next == v.next + 2,
{
}

/// An images-mode run over a filtered inventory: the same per-account
/// march as the alarms run, with the artifact written by the
/// application as each account succeeds.
pub struct ImagesRun {
    pub accounts: Vec<AccountConfig>,
    pub next: usize,
    pub succeeded: usize,
    pub failed: usize,
    pub failures: Vec<AccountFailure>,
}

impl ImagesRun {
    /// Starts a run over the filtered accounts.
    pub fn new(accounts: Vec<AccountConfig>) -> (r: Self)
        ensures
            r.accounts@ == accounts@,
            r.next == 0,
            r.succeeded == 0,
            r.failed == 0,
            r.failures@.len() == 0,
    {
        ImagesRun { accounts, next: 0, succeeded: 0, failed: 0, failures: Vec::new() }
    }

    /// The account the run will process next, or nothing when done.
    pub fn next_account(&self) -> (r: Option<ClientPlan>)
        requires
            self.next <= self.accounts@.len(),
        ensures
            (r is Some) == (self.next < self.accounts@.len()),
            r matches Some(p) ==> {
                let acc = self.accounts@[self.next as int];
                p.namespace@ == acc.namespace@ && p.region@ == spec_resolve_region(acc.region@)
                    && p.role_arn@ == acc.role_arn@ && p.session_name@ == "dev-cli"@
            },
    {
        if self.next < self.accounts.len() {
            Some(client_plan_for(&self.accounts[self.next]))
        } else {
            None
        }
    }

    /// Records one account's successful download and moves on.
    pub fn account_succeeded(&mut self)
        requires
            old(self).next < old(self).accounts@.len(),
            old(self).succeeded < usize::MAX,
        ensures
            final(self).accounts@ == old(self).accounts@,
            final(self).next == old(self).next + 1,
            final(self).succeeded == old(self).succeeded + 1,
            final(self).failed == old(self).failed,
            final(self).failures@ == old(self).failures@,
    {
        // the length call bounds the cursor below usize::MAX
        let accounts_len = self.accounts.len();
        self.next = self.next + 1;
        self.succeeded = self.succeeded + 1;
        proof {
            assert(self.next <= accounts_len);
        }
    }

    /// Records one account's structured failure and moves on: the run
    /// is not aborted.
    pub fn account_failed(&mut self, stage: FailureStage, cause: String)
        requires
            old(self).next < old(self).accounts@.len(),
            old(self).failed < usize::MAX,
        ensures
            final(self).accounts@ == old(self).accounts@,
            final(self).next == old(self).next + 1,
            final(self).succeeded == old(self).succeeded,
            final(self).failed == old(self).failed + 1,
            final(self).failures@.len() == old(self).failures@.len() + 1,
            final(self).failures@[final(self).failures@.len() - 1]@.namespace == old(
                self,
            ).accounts@[old(self).next as int].namespace@,
            final(self).failures@[final(self).failures@.len() - 1]@.stage == stage,
            final(self).failures@[final(self).failures@.len() - 1]@.cause == cause@,
    {
        let acc = &self.accounts[self.next];
        let failure = AccountFailure {
            namespace: acc.namespace.clone(),
            region: acc.region.clone(),
            role_arn: acc.role_arn.clone(),
            stage,
            cause,
        };
        // the length call bounds the cursor below usize::MAX
        let accounts_len = self.accounts.len();
        self.failures.push(failure);
        self.next = self.next + 1;
        self.failed = self.failed + 1;
        proof {
            assert(self.next <= accounts_len);
        }
    }
}

} // verus!
