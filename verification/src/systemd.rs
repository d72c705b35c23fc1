//! systemd user timers: the unit files of a job, and the steps that put them in place and
//! take them away again. The steps are for the caller to carry out.
use crate::cron_convert::{calendar_of, cron_to_oncalendar, zero_step, CronError, CronFault};
use crate::job::{Job, JobView, Schedule, ScheduleView};
use crate::moment::{is_local_text, local_text, Pattern, Timestamp};
use crate::path::{join_path, path_join};
use crate::text::{
    chars_of, contains_string, contains_text, ends_with, has_text, is_white, is_whitespace,
    law_suffixes_are_taken_off, law_text_within, same,
    starts_with, string_views, strip_prefix, strip_suffix, trim, trim_end_matches, trimmed,
    without_suffixes,
};
use vstd::prelude::*;

verus! {

/// What a step's failure means.
#[derive(Clone, Copy, Debug, PartialEq, Eq, Structural)]
pub enum Failure {
    /// Nothing: the plan goes on.
    Ignored,
    /// The units could not be read anew.
    Reload,
    /// The timer could not be enabled.
    Enable,
    /// The timer could not be stopped.
    Stop,
}

impl Failure {
    /// What is said where systemctl could not be started.
    pub open spec fn spawn_text(self) -> Seq<char> {
        match self {
            Failure::Ignored => Seq::empty(),
            Failure::Reload => "Failed to daemon-reload"@,
            Failure::Enable => "Failed to enable timer"@,
            Failure::Stop => "Failed to stop timer"@,
        }
    }

    /// What is said where systemctl failed, before what it said itself.
    pub open spec fn status_text(self) -> Seq<char> {
        match self {
            Failure::Ignored => Seq::empty(),
            Failure::Reload => "daemon-reload failed: "@,
            Failure::Enable => "Failed to enable timer: "@,
            Failure::Stop => "Failed to stop timer: "@,
        }
    }

    /// What becomes of a plan after a call of systemctl: `ran` tells whether it succeeded
    /// and what it wrote to its error output, unless it could not be started at all.
    pub open spec fn spec_outcome(self, ran: Option<(bool, Seq<char>)>) -> Result<(), Seq<char>> {
        match ran {
            Some((true, _)) => Ok(()),
            _ if self == Failure::Ignored => Ok(()),
            Some((false, stderr)) => Err(self.status_text() + stderr),
            None => Err(self.spawn_text()),
        }
    }

    /// What becomes of a plan after a call of systemctl.
    pub fn outcome(self, ran: Option<(bool, &str)>) -> (r: Result<(), String>)
        ensures
            (match r {
                Ok(_) => Ok::<(), Seq<char>>(()),
                Err(e) => Err(e@),
            }) == self.spec_outcome(
                match ran {
                    Some((ok, stderr)) => Some((ok, stderr@)),
                    None => None,
                },
            ),
    {
        match ran {
            Some((true, _)) => Ok(()),
            Some((false, stderr)) => {
                let mut e = match self {
                    Failure::Ignored => {
                        return Ok(());
                    },
                    Failure::Reload => "daemon-reload failed: ".to_owned(),
                    Failure::Enable => "Failed to enable timer: ".to_owned(),
                    Failure::Stop => "Failed to stop timer: ".to_owned(),
                };
                e.append(stderr);
                Err(e)
            },
            None => match self {
                Failure::Ignored => Ok(()),
                Failure::Reload => Err("Failed to daemon-reload".to_owned()),
                Failure::Enable => Err("Failed to enable timer".to_owned()),
                Failure::Stop => Err("Failed to stop timer".to_owned()),
            },
        }
    }
}

/// One thing to do. A plan ends at the first step that fails, unless its failure is ignored.
#[derive(Debug)]
pub enum Step {
    /// Make a directory and those above it.
    CreateDir(String),
    /// Write a file anew.
    WriteFile { path: String, content: String },
    /// Remove a file; it is no failure where that cannot be done.
    RemoveFile(String),
    /// Call systemctl.
    Systemctl { args: Vec<String>, failure: Failure },
}

#[verifier::ext_equal]
pub enum StepView {
    CreateDir(Seq<char>),
    WriteFile { path: Seq<char>, content: Seq<char> },
    RemoveFile(Seq<char>),
    Systemctl { args: Seq<Seq<char>>, failure: Failure },
}

impl View for Step {
    type V = StepView;

    open spec fn view(&self) -> StepView {
        match *self {
            Step::CreateDir(p) => StepView::CreateDir(p@),
            Step::WriteFile { path, content } => StepView::WriteFile {
                path: path@,
                content: content@,
            },
            Step::RemoveFile(p) => StepView::RemoveFile(p@),
            Step::Systemctl { args, failure } => StepView::Systemctl {
                args: string_views(args@),
                failure,
            },
        }
    }
}

pub open spec fn step_views(steps: Seq<Step>) -> Seq<StepView> {
    steps.map_values(|s: Step| s@)
}

/// What a unit needs to know of the machine.
#[derive(Debug)]
pub struct UnitEnv {
    /// The directory of the user's units.
    pub systemd_dir: String,
    /// The program that a timer starts.
    pub usched_path: String,
    /// The search path that the program is started with.
    pub path_env: String,
}

#[verifier::ext_equal]
pub struct UnitEnvView {
    pub systemd_dir: Seq<char>,
    pub usched_path: Seq<char>,
    pub path_env: Seq<char>,
}

impl View for UnitEnv {
    type V = UnitEnvView;

    open spec fn view(&self) -> UnitEnvView {
        UnitEnvView {
            systemd_dir: self.systemd_dir@,
            usched_path: self.usched_path@,
            path_env: self.path_env@,
        }
    }
}

/// The steps that bring a timer into being, and the name of its unit.
#[derive(Debug)]
pub struct Plan {
    pub unit: String,
    pub steps: Vec<Step>,
}

#[verifier::ext_equal]
pub struct PlanView {
    pub unit: Seq<char>,
    pub steps: Seq<StepView>,
}

impl View for Plan {
    type V = PlanView;

    open spec fn view(&self) -> PlanView {
        PlanView { unit: self.unit@, steps: step_views(self.steps@) }
    }
}

/// The directory of a user's units, in their home directory.
pub fn systemd_user_dir(home: &str) -> (r: String)
    ensures
        r@ == path_join(home@, ".config/systemd/user"@),
{
    join_path(home, ".config/systemd/user")
}

/// A character that systemd would not take as it stands within an argument.
pub open spec fn is_special(c: char) -> bool {
    is_white(c) || c == '"' || c == '\\' || c == '\'' || c == '$' || c == '%' || c == '`' || c
        == ';' || c == '&' || c == '|'
}

pub open spec fn needs_quote(s: Seq<char>) -> bool {
    s.len() == 0 || exists|i: int| 0 <= i < s.len() && is_special(#[trigger] s[i])
}

/// A character as it stands within double quotes.
pub open spec fn escaped_char(c: char) -> Seq<char> {
    if c == '\\' {
        seq!['\\', '\\']
    } else if c == '"' {
        seq!['\\', '"']
    } else if c == '$' {
        seq!['$', '$']
    } else if c == '%' {
        seq!['%', '%']
    } else {
        seq![c]
    }
}

/// A text as it stands within double quotes.
pub open spec fn escaped(s: Seq<char>) -> Seq<char>
    decreases s.len(),
{
    if s.len() == 0 {
        Seq::empty()
    } else {
        escaped(s.drop_last()) + escaped_char(s.last())
    }
}

/// A text as one argument of a command line in a unit.
pub open spec fn systemd_quoted(s: Seq<char>) -> Seq<char> {
    if needs_quote(s) {
        seq!['"'] + escaped(s) + seq!['"']
    } else {
        s
    }
}

/// A text as one argument of a command line in a unit: text with no special characters as it
/// stands, other text within double quotes.
pub fn systemd_quote(s: &str) -> (r: String)
    ensures
        r@ == systemd_quoted(s@),
{
    let v = chars_of(s);
    let mut special = v.len() == 0;
    let mut i: usize = 0;
    while i < v.len()
        invariant
            i <= v@.len(),
            special <==> v@.len() == 0 || exists|j: int| 0 <= j < i && is_special(#[trigger] v@[j]),
        decreases v.len() - i,
    {
        let c = v[i];
        if is_whitespace(c) || c == '"' || c == '\\' || c == '\'' || c == '$' || c == '%' || c
            == '`' || c == ';' || c == '&' || c == '|' {
            assert(is_special(v@[i as int]));
            special = true;
        }
        i += 1;
    }
    if !special {
        return s.to_owned();
    }
    let mut r = String::new();
    r.push('"');
    let mut k: usize = 0;
    assert(v@.take(0) == Seq::<char>::empty());
    assert(r@ == seq!['"'] + escaped(v@.take(0)));
    while k < v.len()
        invariant
            k <= v@.len(),
            r@ == seq!['"'] + escaped(v@.take(k as int)),
        decreases v.len() - k,
    {
        let c = v[k];
        let ghost before = r@;
        if c == '\\' || c == '"' {
            r.push('\\');
        } else if c == '$' || c == '%' {
            r.push(c);
        }
        r.push(c);
        proof {
            assert(v@.take(k + 1).drop_last() == v@.take(k as int));
            assert(v@.take(k + 1).last() == c);
            assert(r@ == before + escaped_char(c));
        }
        k += 1;
    }
    assert(v@.take(k as int) == v@);
    r.push('"');
    r
}

/// Text within double quotes as systemd reads it: a backslash takes the character after it
/// as it stands, and a doubled dollar or percent sign is a single one.
pub open spec fn unescaped(s: Seq<char>) -> Seq<char>
    decreases s.len(),
{
    if s.len() == 0 {
        Seq::empty()
    } else if s.len() >= 2 && (s[0] == '\\' || (s[0] == '$' && s[1] == '$') || (s[0] == '%' && s[1]
        == '%')) {
        seq![s[1]] + unescaped(s.skip(2))
    } else {
        seq![s[0]] + unescaped(s.skip(1))
    }
}

/// The escaped form of a text, taken from its front.
proof fn lemma_escaped_front(s: Seq<char>)
    requires
        s.len() > 0,
    ensures
        escaped(s) == escaped_char(s[0]) + escaped(s.skip(1)),
    decreases s.len(),
{
    if s.len() == 1 {
        assert(s.drop_last() == Seq::<char>::empty());
        assert(s.skip(1) == Seq::<char>::empty());
        assert(escaped(Seq::<char>::empty()) == Seq::<char>::empty());
        assert(s.last() == s[0]);
    } else {
        lemma_escaped_front(s.drop_last());
        assert(s.drop_last().skip(1) == s.skip(1).drop_last());
        assert(s.skip(1).last() == s.last());
        assert(escaped(s) == escaped_char(s[0]) + (escaped(s.skip(1).drop_last()) + escaped_char(
            s.last(),
        )));
    }
}

/// What stands within the quotes reads back as the text that was quoted.
pub proof fn law_quote_reads_back(s: Seq<char>)
    ensures
        unescaped(escaped(s)) == s,
    decreases s.len(),
{
    if s.len() > 0 {
        lemma_escaped_front(s);
        law_quote_reads_back(s.skip(1));
        let e = escaped(s);
        let n = escaped_char(s[0]).len() as int;
        assert(e.skip(n) == escaped(s.skip(1)));
        assert(unescaped(e) == seq![s[0]] + s.skip(1));
        assert(seq![s[0]] + s.skip(1) == s);
    }
}

/// Two texts are never quoted alike.
pub proof fn law_quote_is_injective(a: Seq<char>, b: Seq<char>)
    requires
        systemd_quoted(a) == systemd_quoted(b),
    ensures
        a == b,
{
    law_quote_reads_back(a);
    law_quote_reads_back(b);
    let qa = systemd_quoted(a);
    let qb = systemd_quoted(b);
    if needs_quote(a) && needs_quote(b) {
        assert(qa.subrange(1, qa.len() - 1) == escaped(a));
        assert(qb.subrange(1, qb.len() - 1) == escaped(b));
    } else if needs_quote(a) {
        assert(qa[0] == '"' && is_special(b[0]));
    } else if needs_quote(b) {
        assert(qb[0] == '"' && is_special(a[0]));
    }
}

/// Text with no special characters stays as it stands.
pub proof fn law_plain_text_is_not_quoted(s: Seq<char>)
    requires
        s.len() > 0,
        forall|i: int| 0 <= i < s.len() ==> !is_special(#[trigger] s[i]),
    ensures
        systemd_quoted(s) == s,
{
}

/// The path of the program where it is installed with nix.
pub fn nix_profile_path(home: &str) -> (r: String)
    ensures
        r@ == home@ + "/.nix-profile/bin/usched"@,
{
    let mut r = home.to_owned();
    r.append("/.nix-profile/bin/usched");
    r
}

/// The program that a timer starts: where the search path has it, else where nix installs
/// it, else its bare name.
pub open spec fn usched_path(which: Option<Seq<char>>, home: Seq<char>, nix_exists: bool) -> Seq<
    char,
> {
    if which is Some && trimmed(which->0).len() > 0 {
        trimmed(which->0)
    } else if nix_exists {
        home + "/.nix-profile/bin/usched"@
    } else {
        "usched"@
    }
}

/// The program that a timer starts, given what `which` found of it, and whether it is
/// installed with nix.
pub fn get_usched_path(which: Option<&str>, home: &str, nix_exists: bool) -> (r: String)
    ensures
        r@ == usched_path(
            match which {
                Some(t) => Some(t@),
                None => None,
            },
            home@,
            nix_exists,
        ),
{
    if let Some(found) = which {
        let path = trim(found);
        if !path.is_empty() {
            return path.to_owned();
        }
    }
    if nix_exists {
        return nix_profile_path(home);
    }
    "usched".to_owned()
}

/// The name of the unit of a job.
pub open spec fn unit_of(id: Seq<char>) -> Seq<char> {
    "usched-"@ + id
}

pub fn unit_name(job_id: &str) -> (r: String)
    ensures
        r@ == unit_of(job_id@),
{
    let mut r = "usched-".to_owned();
    r.append(job_id);
    r
}

fn with_suffix(s: &str, suffix: &str) -> (r: String)
    ensures
        r@ == s@ + suffix@,
{
    let mut r = s.to_owned();
    r.append(suffix);
    r
}

/// The path of the timer file of a unit.
pub fn timer_path(systemd_dir: &str, unit: &str) -> (r: String)
    ensures
        r@ == path_join(systemd_dir@, unit@ + ".timer"@),
{
    join_path(systemd_dir, with_suffix(unit, ".timer").as_str())
}

/// The path of the service file of a unit.
pub fn service_path(systemd_dir: &str, unit: &str) -> (r: String)
    ensures
        r@ == path_join(systemd_dir@, unit@ + ".service"@),
{
    join_path(systemd_dir, with_suffix(unit, ".service").as_str())
}

/// The command line of a job's service.
pub open spec fn exec_start(usched_path: Seq<char>, id: Seq<char>) -> Seq<char> {
    systemd_quoted(usched_path) + " __run-job "@ + systemd_quoted(id)
}

fn exec_start_line(usched_path: &str, job_id: &str) -> (r: String)
    ensures
        r@ == exec_start(usched_path@, job_id@),
{
    let mut r = systemd_quote(usched_path);
    r.append(" __run-job ");
    r.append(systemd_quote(job_id).as_str());
    r
}

/// The timer file of a recurring job.
pub open spec fn timer_text(id: Seq<char>, oncalendar: Seq<char>) -> Seq<char> {
    "[Unit]\nDescription=usched job: "@ + id + "\n\n[Timer]\nOnCalendar="@ + oncalendar
        + "\nPersistent=true\nOnBootSec=2min\nRandomizedDelaySec=30\n\n[Install]\nWantedBy=timers.target\n"@
}

fn timer_content(job_id: &str, oncalendar: &str) -> (r: String)
    ensures
        r@ == timer_text(job_id@, oncalendar@),
{
    let mut r = "[Unit]\nDescription=usched job: ".to_owned();
    r.append(job_id);
    r.append("\n\n[Timer]\nOnCalendar=");
    r.append(oncalendar);
    r.append(
        "\nPersistent=true\nOnBootSec=2min\nRandomizedDelaySec=30\n\n[Install]\nWantedBy=timers.target\n",
    );
    r
}

/// The timer file of a job that fires once.
pub open spec fn oneshot_timer_text(id: Seq<char>, oncalendar: Seq<char>) -> Seq<char> {
    "[Unit]\nDescription=usched one-shot job: "@ + id + "\n\n[Timer]\nOnCalendar="@ + oncalendar
        + "\nPersistent=true\nUnit="@ + unit_of(id)
        + ".service\n\n[Install]\nWantedBy=timers.target\n"@
}

fn oneshot_timer_content(job_id: &str, oncalendar: &str) -> (r: String)
    ensures
        r@ == oneshot_timer_text(job_id@, oncalendar@),
{
    let mut r = "[Unit]\nDescription=usched one-shot job: ".to_owned();
    r.append(job_id);
    r.append("\n\n[Timer]\nOnCalendar=");
    r.append(oncalendar);
    r.append("\nPersistent=true\nUnit=");
    r.append(unit_name(job_id).as_str());
    r.append(".service\n\n[Install]\nWantedBy=timers.target\n");
    r
}

/// The service file of a job, described by `label`.
pub open spec fn service_text(label: Seq<char>, id: Seq<char>, env: UnitEnvView) -> Seq<char> {
    "[Unit]\nDescription="@ + label + id + "\n\n[Service]\nType=oneshot\nEnvironment=\"PATH="@
        + env.path_env + "\"\nExecStart="@ + exec_start(env.usched_path, id) + "\n"@
}

fn service_content(label: &str, job_id: &str, env: &UnitEnv) -> (r: String)
    ensures
        r@ == service_text(label@, job_id@, env@),
{
    let mut r = "[Unit]\nDescription=".to_owned();
    r.append(label);
    r.append(job_id);
    r.append("\n\n[Service]\nType=oneshot\nEnvironment=\"PATH=");
    r.append(env.path_env.as_str());
    r.append("\"\nExecStart=");
    r.append(exec_start_line(env.usched_path.as_str(), job_id).as_str());
    r.append("\n");
    r
}

/// A call of systemctl for the user's units.
pub open spec fn user_call(args: Seq<Seq<char>>, failure: Failure) -> StepView {
    StepView::Systemctl { args: seq!["--user"@] + args, failure }
}

fn call_1(a: &str, failure: Failure) -> (r: Step)
    ensures
        r@ == user_call(seq![a@], failure),
{
    let mut args: Vec<String> = Vec::new();
    args.push("--user".to_owned());
    args.push(a.to_owned());
    assert(string_views(args@) == seq!["--user"@] + seq![a@]);
    Step::Systemctl { args, failure }
}

fn call_2(a: &str, b: &str, failure: Failure) -> (r: Step)
    ensures
        r@ == user_call(seq![a@, b@], failure),
{
    let mut args: Vec<String> = Vec::new();
    args.push("--user".to_owned());
    args.push(a.to_owned());
    args.push(b.to_owned());
    assert(string_views(args@) == seq!["--user"@] + seq![a@, b@]);
    Step::Systemctl { args, failure }
}

fn call_3(a: &str, b: &str, c: &str, failure: Failure) -> (r: Step)
    ensures
        r@ == user_call(seq![a@, b@, c@], failure),
{
    let mut args: Vec<String> = Vec::new();
    args.push("--user".to_owned());
    args.push(a.to_owned());
    args.push(b.to_owned());
    args.push(c.to_owned());
    assert(string_views(args@) == seq!["--user"@] + seq![a@, b@, c@]);
    Step::Systemctl { args, failure }
}

/// Enable a unit's timer and start it.
pub open spec fn enable_step(unit: Seq<char>) -> StepView {
    user_call(seq!["enable"@, "--now"@, unit + ".timer"@], Failure::Enable)
}

fn enable_call(unit: &str) -> (r: Step)
    ensures
        r@ == enable_step(unit@),
{
    call_3("enable", "--now", with_suffix(unit, ".timer").as_str(), Failure::Enable)
}

/// Write the two files of a job's unit, have systemd read its units anew, and enable the
/// timer.
pub open spec fn install_plan(
    id: Seq<char>,
    timer: Seq<char>,
    service: Seq<char>,
    env: UnitEnvView,
) -> PlanView {
    let unit = unit_of(id);
    PlanView {
        unit,
        steps: seq![
            StepView::CreateDir(env.systemd_dir),
            StepView::WriteFile {
                path: path_join(env.systemd_dir, unit + ".timer"@),
                content: timer,
            },
            StepView::WriteFile {
                path: path_join(env.systemd_dir, unit + ".service"@),
                content: service,
            },
            user_call(seq!["daemon-reload"@], Failure::Reload),
            enable_step(unit),
        ],
    }
}

fn install(job_id: &str, timer: String, service: String, env: &UnitEnv) -> (r: Plan)
    ensures
        r@ == install_plan(job_id@, timer@, service@, env@),
{
    let unit = unit_name(job_id);
    let dir = env.systemd_dir.as_str();
    let mut steps: Vec<Step> = Vec::new();
    steps.push(Step::CreateDir(dir.to_owned()));
    steps.push(Step::WriteFile { path: timer_path(dir, unit.as_str()), content: timer });
    steps.push(Step::WriteFile { path: service_path(dir, unit.as_str()), content: service });
    steps.push(call_1("daemon-reload", Failure::Reload));
    steps.push(enable_call(unit.as_str()));
    let r = Plan { unit, steps };
    assert(r@.steps == install_plan(job_id@, timer@, service@, env@).steps);
    r
}

/// What it takes to create the timer of a recurring job.
pub open spec fn timer_plan(id: Seq<char>, oncalendar: Seq<char>, env: UnitEnvView) -> PlanView {
    install_plan(
        id,
        timer_text(id, oncalendar),
        service_text("usched job: "@, id, env),
        env,
    )
}

/// What it takes to create the timer of a job that fires once.
pub open spec fn oneshot_plan(id: Seq<char>, oncalendar: Seq<char>, env: UnitEnvView) -> PlanView {
    install_plan(
        id,
        oneshot_timer_text(id, oncalendar),
        service_text("usched one-shot job: "@, id, env),
        env,
    )
}

pub open spec fn plan_result(r: Result<Plan, CronError>) -> Result<PlanView, CronFault> {
    match r {
        Ok(p) => Ok(p@),
        Err(e) => Err(e@),
    }
}

/// What it takes to create the timer of a job with a cron expression.
pub open spec fn cron_plan(id: Seq<char>, expr: Seq<char>, env: UnitEnvView) -> Result<
    PlanView,
    CronFault,
> {
    match calendar_of(expr) {
        Ok(oncalendar) => Ok(timer_plan(id, oncalendar, env)),
        Err(e) => Err(e),
    }
}

/// What it takes to create the timer of a recurring job. The unit starts the job by its ID,
/// so it holds no copy of the command.
pub fn create_timer(job_id: &str, cron_expr: &str, _command: &Vec<String>, env: &UnitEnv) -> (r:
    Result<Plan, CronError>)
    requires
        !zero_step(cron_expr@),
    ensures
        plan_result(r) == cron_plan(job_id@, cron_expr@, env@),
{
    let oncalendar = match cron_to_oncalendar(cron_expr) {
        Ok(t) => t,
        Err(e) => {
            return Err(e);
        },
    };
    let timer = timer_content(job_id, oncalendar.as_str());
    let service = service_content("usched job: ", job_id, env);
    Ok(install(job_id, timer, service, env))
}

/// What it takes to create a timer that fires at a time written for systemd.
pub fn create_timer_at(job_id: &str, oncalendar: &str, env: &UnitEnv) -> (r: Plan)
    ensures
        r@ == oneshot_plan(job_id@, oncalendar@, env@),
{
    let timer = oneshot_timer_content(job_id, oncalendar);
    let service = service_content("usched one-shot job: ", job_id, env);
    install(job_id, timer, service, env)
}

/// `p` creates a timer that fires at an instant, written as local clocks show it.
pub open spec fn is_oneshot_plan(p: PlanView, id: Seq<char>, at: Timestamp, env: UnitEnvView) -> bool {
    exists|oncalendar: Seq<char>|
        #![trigger oneshot_plan(id, oncalendar, env)]
        is_local_text(oncalendar, at, Pattern::Second.spec_format()) && p == oneshot_plan(
            id,
            oncalendar,
            env,
        )
}

/// What it takes to create the timer of a job that fires once.
pub fn create_oneshot_timer(job_id: &str, at: Timestamp, _command: &Vec<String>, env: &UnitEnv) -> (r:
    Plan)
    requires
        at.wf(),
    ensures
        is_oneshot_plan(r@, job_id@, at, env@),
{
    let oncalendar = local_text(at, Pattern::Second);
    create_timer_at(job_id, oncalendar.as_str(), env)
}

/// Whether a job can be given a timer without its cron expression being one of those that
/// ask for every zeroth minute, hour, day or month.
pub open spec fn can_schedule(schedule: ScheduleView) -> bool {
    schedule matches ScheduleView::Cron { expr, .. } ==> !zero_step(expr)
}

/// `r` creates the timer of a job.
pub open spec fn creates_timer(r: Result<PlanView, CronFault>, job: JobView, env: UnitEnvView) -> bool {
    match job.schedule {
        ScheduleView::Cron { expr, .. } => r == cron_plan(job.id, expr, env),
        ScheduleView::Once { at, .. } => r matches Ok(p) && is_oneshot_plan(p, job.id, at, env),
    }
}

/// What it takes to create the timer of a job anew.
pub fn recreate_timer(job: &Job, env: &UnitEnv) -> (r: Result<Plan, CronError>)
    requires
        job@.schedule.wf(),
        can_schedule(job@.schedule),
    ensures
        creates_timer(plan_result(r), job@, env@),
{
    match &job.schedule {
        Schedule::Cron { expr, .. } => {
            create_timer(job.id.as_str(), expr.as_str(), &job.command, env)
        },
        Schedule::Once { at, .. } => {
            Ok(create_oneshot_timer(job.id.as_str(), *at, &job.command, env))
        },
    }
}

/// Every plan that creates a timer names the unit after the job's ID, and enables that unit's
/// timer last, after its files are written and read.
pub proof fn law_timer_is_named_after_the_job(
    r: Result<PlanView, CronFault>,
    job: JobView,
    env: UnitEnvView,
)
    requires
        creates_timer(r, job, env),
        r is Ok,
    ensures
        r->Ok_0.unit == unit_of(job.id),
        r->Ok_0.steps.len() == 5,
        r->Ok_0.steps.last() == enable_step(unit_of(job.id)),
{
}

/// What it takes to remove a timer and its files. No failure along the way stops it.
pub open spec fn remove_steps(unit: Seq<char>, systemd_dir: Seq<char>) -> Seq<StepView> {
    seq![
        user_call(seq!["stop"@, unit + ".timer"@], Failure::Ignored),
        user_call(seq!["disable"@, unit + ".timer"@], Failure::Ignored),
        user_call(seq!["stop"@, unit + ".service"@], Failure::Ignored),
        StepView::RemoveFile(path_join(systemd_dir, unit + ".timer"@)),
        StepView::RemoveFile(path_join(systemd_dir, unit + ".service"@)),
        user_call(seq!["daemon-reload"@], Failure::Ignored),
    ]
}

/// What it takes to remove a timer and its files.
pub fn remove_timer(unit_name: &str, systemd_dir: &str) -> (r: Vec<Step>)
    ensures
        step_views(r@) == remove_steps(unit_name@, systemd_dir@),
{
    let timer = with_suffix(unit_name, ".timer");
    let service = with_suffix(unit_name, ".service");
    let mut r: Vec<Step> = Vec::new();
    r.push(call_2("stop", timer.as_str(), Failure::Ignored));
    r.push(call_2("disable", timer.as_str(), Failure::Ignored));
    r.push(call_2("stop", service.as_str(), Failure::Ignored));
    r.push(Step::RemoveFile(timer_path(systemd_dir, unit_name)));
    r.push(Step::RemoveFile(service_path(systemd_dir, unit_name)));
    r.push(call_1("daemon-reload", Failure::Ignored));
    assert(step_views(r@) == remove_steps(unit_name@, systemd_dir@));
    r
}

/// Removing the timer of a job removes the very files that creating it wrote.
pub proof fn law_removal_undoes_creation(
    r: Result<PlanView, CronFault>,
    job: JobView,
    env: UnitEnvView,
)
    requires
        creates_timer(r, job, env),
        r is Ok,
    ensures
        forall|i: int|
            0 <= i < r->Ok_0.steps.len() ==> (#[trigger] r->Ok_0.steps[i] matches StepView::WriteFile {
                path,
                ..
            } ==> remove_steps(r->Ok_0.unit, env.systemd_dir).contains(
                StepView::RemoveFile(path),
            )),
{
    let (timer, service) = lemma_plan_installs(r, job, env);
    lemma_installed_files_are_removed(job.id, timer, service, env);
}

/// A plan that creates a timer installs two files.
proof fn lemma_plan_installs(r: Result<PlanView, CronFault>, job: JobView, env: UnitEnvView) -> (files: (
    Seq<char>,
    Seq<char>,
))
    requires
        creates_timer(r, job, env),
        r is Ok,
    ensures
        r->Ok_0 == install_plan(job.id, files.0, files.1, env),
{
    match job.schedule {
        ScheduleView::Cron { expr, .. } => (
            timer_text(job.id, calendar_of(expr)->Ok_0),
            service_text("usched job: "@, job.id, env),
        ),
        ScheduleView::Once { at, .. } => {
            let oncalendar = choose|oncalendar: Seq<char>|
                #![trigger oneshot_plan(job.id, oncalendar, env)]
                is_local_text(oncalendar, at, Pattern::Second.spec_format()) && r->Ok_0
                    == oneshot_plan(job.id, oncalendar, env);
            (
                oneshot_timer_text(job.id, oncalendar),
                service_text("usched one-shot job: "@, job.id, env),
            )
        },
    }
}

proof fn lemma_installed_files_are_removed(
    id: Seq<char>,
    timer: Seq<char>,
    service: Seq<char>,
    env: UnitEnvView,
)
    ensures
        forall|i: int|
            0 <= i < install_plan(id, timer, service, env).steps.len() ==> (
            #[trigger] install_plan(id, timer, service, env).steps[i] matches StepView::WriteFile {
                path,
                ..
            } ==> remove_steps(unit_of(id), env.systemd_dir).contains(StepView::RemoveFile(path))),
{
    let unit = unit_of(id);
    let removal = remove_steps(unit, env.systemd_dir);
    assert(removal[3] == StepView::RemoveFile(path_join(env.systemd_dir, unit + ".timer"@)));
    assert(removal[4] == StepView::RemoveFile(path_join(env.systemd_dir, unit + ".service"@)));
}

/// What it takes to enable a disabled timer.
pub fn enable_timer(unit_name: &str) -> (r: Vec<Step>)
    ensures
        step_views(r@) == seq![enable_step(unit_name@)],
{
    let mut r: Vec<Step> = Vec::new();
    r.push(enable_call(unit_name));
    assert(step_views(r@) == seq![enable_step(unit_name@)]);
    r
}

/// What it takes to disable a timer without removing it, now and at the next boot.
pub open spec fn disable_steps(unit: Seq<char>) -> Seq<StepView> {
    seq![
        user_call(seq!["stop"@, unit + ".timer"@], Failure::Stop),
        user_call(seq!["disable"@, unit + ".timer"@], Failure::Ignored),
    ]
}

/// What it takes to disable a timer without removing it.
pub fn disable_timer(unit_name: &str) -> (r: Vec<Step>)
    ensures
        step_views(r@) == disable_steps(unit_name@),
{
    let timer = with_suffix(unit_name, ".timer");
    let mut r: Vec<Step> = Vec::new();
    r.push(call_2("stop", timer.as_str(), Failure::Stop));
    r.push(call_2("disable", timer.as_str(), Failure::Ignored));
    assert(step_views(r@) == disable_steps(unit_name@));
    r
}

/// The arguments with which systemctl lists all timers.
pub fn list_timers() -> (r: Vec<String>)
    ensures
        string_views(r@) == seq!["--user"@, "list-timers"@, "--all"@],
{
    let mut r: Vec<String> = Vec::new();
    r.push("--user".to_owned());
    r.push("list-timers".to_owned());
    r.push("--all".to_owned());
    assert(string_views(r@) == seq!["--user"@, "list-timers"@, "--all"@]);
    r
}

/// The arguments with which systemctl tells whether a unit's timer is enabled.
pub fn is_enabled_args(unit_name: &str) -> (r: Vec<String>)
    ensures
        string_views(r@) == seq!["--user"@, "is-enabled"@, unit_name@ + ".timer"@],
{
    let mut r: Vec<String> = Vec::new();
    r.push("--user".to_owned());
    r.push("is-enabled".to_owned());
    r.push(with_suffix(unit_name, ".timer"));
    assert(string_views(r@) == seq!["--user"@, "is-enabled"@, unit_name@ + ".timer"@]);
    r
}

/// What is found of a timer: its two files, and what systemctl answers to whether it is
/// enabled, unless systemctl could not be started or was not asked.
#[derive(Debug)]
pub struct TimerReport {
    pub timer_exists: bool,
    pub service_exists: bool,
    pub is_enabled: Option<String>,
}

impl TimerReport {
    pub open spec fn healthy(self) -> bool {
        &&& self.timer_exists
        &&& self.service_exists
        &&& self.is_enabled matches Some(out) && (trimmed(out@) == "enabled"@ || trimmed(out@)
            == "static"@)
    }
}

/// Whether a timer is healthy: both of its files are there, and systemd has it enabled.
pub fn verify_timer(report: &TimerReport) -> (r: bool)
    ensures
        r == report.healthy(),
{
    if !report.timer_exists || !report.service_exists {
        return false;
    }
    match &report.is_enabled {
        Some(out) => {
            let status = trim(out.as_str());
            same(status, "enabled") || same(status, "static")
        },
        None => false,
    }
}

/// Whether a file in the directory of units is the timer of a job.
pub open spec fn is_job_timer(name: Seq<char>) -> bool {
    starts_with(name, "usched-"@) && ends_with(name, ".timer"@)
}

/// The units of the timers among `names` that are not among the known units, in order.
pub open spec fn orphans(names: Seq<Seq<char>>, known: Seq<Seq<char>>) -> Seq<Seq<char>>
    decreases names.len(),
{
    if names.len() == 0 {
        Seq::empty()
    } else {
        let rest = orphans(names.drop_last(), known);
        let unit = without_suffixes(names.last(), ".timer"@);
        if is_job_timer(names.last()) && !known.contains(unit) {
            rest.push(unit)
        } else {
            rest
        }
    }
}

/// The timers of jobs, among the files in the directory of units, that no job is known for.
pub fn find_orphaned_timers(names: &Vec<String>, known_units: &Vec<String>) -> (r: Vec<String>)
    ensures
        string_views(r@) == orphans(string_views(names@), string_views(known_units@)),
{
    let mut r: Vec<String> = Vec::new();
    let ghost all = string_views(names@);
    let ghost known = string_views(known_units@);
    let mut i: usize = 0;
    assert(string_views(r@) == orphans(all.take(0), known));
    while i < names.len()
        invariant
            i <= names@.len(),
            all == string_views(names@),
            known == string_views(known_units@),
            string_views(r@) == orphans(all.take(i as int), known),
        decreases names.len() - i,
    {
        let name = names[i].as_str();
        proof {
            assert(all.take(i + 1).drop_last() == all.take(i as int));
            assert(all.take(i + 1).last() == name@);
            reveal_strlit(".timer");
        }
        if strip_prefix(name, "usched-").is_some() && strip_suffix(name, ".timer").is_some() {
            let unit = trim_end_matches(name, ".timer");
            if !contains_string(known_units, unit) {
                let ghost before = string_views(r@);
                let t = unit.to_owned();
                r.push(t);
                assert(string_views(r@) == before.push(unit@));
            }
        }
        i += 1;
    }
    assert(all.take(i as int) == all);
    r
}

/// A known unit is never an orphan, and each orphan has a timer among the files.
pub proof fn law_known_units_are_no_orphans(names: Seq<Seq<char>>, known: Seq<Seq<char>>)
    ensures
        forall|i: int|
            0 <= i < orphans(names, known).len() ==> !known.contains(
                #[trigger] orphans(names, known)[i],
            ),
        forall|i: int|
            0 <= i < orphans(names, known).len() ==> exists|j: int|
                0 <= j < names.len() && is_job_timer(#[trigger] names[j]) && (
                #[trigger] orphans(names, known)[i]) == without_suffixes(names[j], ".timer"@),
    decreases names.len(),
{
    if names.len() > 0 {
        let front = names.drop_last();
        law_known_units_are_no_orphans(front, known);
        let o = orphans(names, known);
        let f = orphans(front, known);
        assert forall|i: int| 0 <= i < o.len() implies exists|j: int|
            0 <= j < names.len() && is_job_timer(#[trigger] names[j]) && (#[trigger] o[i])
                == without_suffixes(names[j], ".timer"@) by {
            if i < f.len() {
                assert(o[i] == f[i]);
                let j = choose|j: int|
                    0 <= j < front.len() && is_job_timer(#[trigger] front[j]) && f[i]
                        == without_suffixes(front[j], ".timer"@);
                assert(names[j] == front[j]);
            } else {
                assert(names[names.len() - 1] == names.last());
            }
        }
        assert forall|i: int| 0 <= i < o.len() implies !known.contains(#[trigger] o[i]) by {
            if i < f.len() {
                assert(o[i] == f[i]);
            }
        }
    }
}

/// Every timer among the files whose unit is not known is an orphan.
pub proof fn law_unknown_timers_are_orphans(names: Seq<Seq<char>>, known: Seq<Seq<char>>, j: int)
    requires
        0 <= j < names.len(),
        is_job_timer(names[j]),
        !known.contains(without_suffixes(names[j], ".timer"@)),
    ensures
        orphans(names, known).contains(without_suffixes(names[j], ".timer"@)),
    decreases names.len(),
{
    let o = orphans(names, known);
    if j == names.len() - 1 {
        assert(o.last() == without_suffixes(names[j], ".timer"@));
    } else {
        let front = names.drop_last();
        law_unknown_timers_are_orphans(front, known, j);
        let f = orphans(front, known);
        let i = choose|i: int| 0 <= i < f.len() && f[i] == without_suffixes(names[j], ".timer"@);
        assert(o[i] == f[i]);
    }
}

/// Whether a service starts its job in the way that older versions did: its file can be read
/// and does not name the subcommand that runs a job by its ID.
pub fn timer_is_legacy(service_content: Option<&str>) -> (r: bool)
    ensures
        r == (service_content matches Some(c) && !has_text(c@, "__run-job"@)),
{
    match service_content {
        Some(c) => !contains_text(c, "__run-job"),
        None => false,
    }
}

/// A service that is written now is not one of an older version.
pub proof fn law_new_services_are_not_legacy(label: Seq<char>, id: Seq<char>, env: UnitEnvView)
    ensures
        has_text(service_text(label, id, env), "__run-job"@),
{
    reveal_strlit("__run-job");
    reveal_strlit(" __run-job ");
    let head = "[Unit]\nDescription="@ + label + id
        + "\n\n[Service]\nType=oneshot\nEnvironment=\"PATH="@ + env.path_env + "\"\nExecStart="@;
    let q = systemd_quoted(env.usched_path);
    let s = service_text(label, id, env);
    let at = (head.len() + q.len() + 1) as int;
    assert(s == head + (q + " __run-job "@ + systemd_quoted(id)) + "\n"@);
    assert(s.subrange(at, at + "__run-job"@.len()) == "__run-job"@);
}

/// Every plan that creates the timer of a job makes the directory of units, writes a timer and
/// a service named after the job's ID, has systemd read its units anew, and enables that timer
/// and starts it, in this order.
pub proof fn law_plan_installs_and_enables(
    r: Result<PlanView, CronFault>,
    job: JobView,
    env: UnitEnvView,
)
    requires
        creates_timer(r, job, env),
        r is Ok,
    ensures
        ({
            let p = r->Ok_0;
            let unit = "usched-"@ + job.id;
            &&& p.unit == unit
            &&& p.steps.len() == 5
            &&& p.steps[0] == StepView::CreateDir(env.systemd_dir)
            &&& (p.steps[1] matches StepView::WriteFile { path, .. } && path == path_join(
                env.systemd_dir,
                unit + ".timer"@,
            ))
            &&& (p.steps[2] matches StepView::WriteFile { path, .. } && path == path_join(
                env.systemd_dir,
                unit + ".service"@,
            ))
            &&& p.steps[3] == (StepView::Systemctl {
                args: seq!["--user"@, "daemon-reload"@],
                failure: Failure::Reload,
            })
            &&& p.steps[4] == (StepView::Systemctl {
                args: seq!["--user"@, "enable"@, "--now"@, unit + ".timer"@],
                failure: Failure::Enable,
            })
        }),
{
    let (timer, service) = lemma_plan_installs(r, job, env);
    let unit = unit_of(job.id);
    assert(seq!["--user"@] + seq!["daemon-reload"@] == seq!["--user"@, "daemon-reload"@]);
    assert(seq!["--user"@] + seq!["enable"@, "--now"@, unit + ".timer"@] == seq![
        "--user"@,
        "enable"@,
        "--now"@,
        unit + ".timer"@,
    ]);
}

/// A line of a unit file: between two line feeds.
pub open spec fn has_line(content: Seq<char>, line: Seq<char>) -> bool {
    has_text(content, seq!['\n'] + line + seq!['\n'])
}

/// The service that is written for a job, recurring or not, starts this program with the job's
/// own ID, and with the search path that was given.
pub proof fn law_service_runs_the_job(
    r: Result<PlanView, CronFault>,
    job: JobView,
    env: UnitEnvView,
)
    requires
        creates_timer(r, job, env),
        r is Ok,
    ensures
        r->Ok_0.steps.len() > 2,
        r->Ok_0.steps[2] matches StepView::WriteFile { path, content } && {
            &&& path == path_join(env.systemd_dir, "usched-"@ + job.id + ".service"@)
            &&& has_line(
                content,
                "ExecStart="@ + systemd_quoted(env.usched_path) + " __run-job "@ + systemd_quoted(
                    job.id,
                ),
            )
            &&& has_line(content, "Type=oneshot"@)
            &&& has_line(content, "Environment=\"PATH="@ + env.path_env + "\""@)
            &&& has_line(content, "[Service]"@)
        },
{
    match job.schedule {
        ScheduleView::Cron { expr, .. } => {
            lemma_service_lines("usched job: "@, job.id, env);
        },
        ScheduleView::Once { at, .. } => {
            lemma_service_lines("usched one-shot job: "@, job.id, env);
        },
    }
}

proof fn lemma_service_lines(label: Seq<char>, id: Seq<char>, env: UnitEnvView)
    ensures
        has_line(
            service_text(label, id, env),
            "ExecStart="@ + systemd_quoted(env.usched_path) + " __run-job "@ + systemd_quoted(id),
        ),
        has_line(service_text(label, id, env), "Type=oneshot"@),
        has_line(service_text(label, id, env), "Environment=\"PATH="@ + env.path_env + "\""@),
        has_line(service_text(label, id, env), "[Service]"@),
{
    let run = systemd_quoted(env.usched_path) + " __run-job "@ + systemd_quoted(id);
    assert("[Unit]\nDescription="@ + label + id == "[Unit]\nDescription="@ + (label + id));
    lemma_service_parts(service_text(label, id, env), label + id, env.path_env, run);
    assert("ExecStart="@ + systemd_quoted(env.usched_path) + " __run-job "@ + systemd_quoted(id)
        == "ExecStart="@ + run);
}

proof fn lemma_service_parts(s: Seq<char>, about: Seq<char>, path: Seq<char>, run: Seq<char>)
    requires
        s == "[Unit]\nDescription="@ + about + "\n\n[Service]\nType=oneshot\nEnvironment=\"PATH="@
            + path + "\"\nExecStart="@ + run + "\n"@,
    ensures
        has_line(s, "ExecStart="@ + run),
        has_line(s, "Type=oneshot"@),
        has_line(s, "Environment=\"PATH="@ + path + "\""@),
        has_line(s, "[Service]"@),
{
    let lf = seq!['\n'];
    let q = "\""@;
    let e = Seq::<char>::empty();
    let top = "[Unit]\nDescription="@ + about;
    let service = "[Service]"@;
    let sort = "Type=oneshot"@;
    let set = "Environment=\"PATH="@;
    let start = "ExecStart="@;
    lemma_service_literals();
    assert(s == top + lf + lf + service + lf + sort + lf + set + path + q + lf + start + run + lf);
    let before = top + lf + lf + service + lf + sort;
    let set_line = set + path + q;
    let start_line = start + run;
    assert(s == before + lf + set + path + q + lf + start_line + lf + e);
    lemma_line_within(s, before + lf + set + path + q, start_line, e);
    assert(s == before + lf + set_line + lf + (start_line + lf));
    lemma_line_within(s, before, set_line, start_line + lf);
    let rest = set_line + lf + start_line + lf;
    assert(s == top + lf + lf + service + lf + (sort + lf + rest));
    lemma_line_within(s, top + lf, service, sort + lf + rest);
    assert(s == top + lf + lf + service + lf + sort + lf + rest);
    lemma_line_within(s, top + lf + lf + service, sort, rest);
}

/// A line that stands between two parts of a text.
proof fn lemma_line_within(s: Seq<char>, a: Seq<char>, line: Seq<char>, b: Seq<char>)
    requires
        s == a + seq!['\n'] + line + seq!['\n'] + b,
    ensures
        has_line(s, line),
{
    let p = seq!['\n'] + line + seq!['\n'];
    assert(s == a + p + b);
    law_text_within(a, p, b, s);
}

proof fn lemma_service_literals()
    ensures
        "\n\n[Service]\nType=oneshot\nEnvironment=\"PATH="@ == seq!['\n'] + seq!['\n']
            + "[Service]"@ + seq!['\n'] + "Type=oneshot"@ + seq!['\n'] + "Environment=\"PATH="@,
        "\"\nExecStart="@ == "\""@ + seq!['\n'] + "ExecStart="@,
        "\n"@ == seq!['\n'],
{
    reveal_strlit("\n\n[Service]\nType=oneshot\nEnvironment=\"PATH=");
    reveal_strlit("\"\nExecStart=");
    reveal_strlit("ExecStart=");
    reveal_strlit("Type=oneshot");
    reveal_strlit("Environment=\"PATH=");
    reveal_strlit("[Service]");
    reveal_strlit("\"");
    reveal_strlit("\n");
    assert("\n\n[Service]\nType=oneshot\nEnvironment=\"PATH="@ =~= seq!['\n'] + seq!['\n']
        + "[Service]"@ + seq!['\n'] + "Type=oneshot"@ + seq!['\n'] + "Environment=\"PATH="@);
    assert("\"\nExecStart="@ =~= "\""@ + seq!['\n'] + "ExecStart="@);
    assert("\n"@ =~= seq!['\n']);
}

/// The timer that is written for a recurring job fires on the calendar expression of its cron
/// expression, and that of any other job at its instant as local clocks show it, for its own
/// service. Both make up for a firing that was missed.
pub proof fn law_timer_fires_as_scheduled(
    r: Result<PlanView, CronFault>,
    job: JobView,
    env: UnitEnvView,
)
    requires
        creates_timer(r, job, env),
        r is Ok,
    ensures
        r->Ok_0.steps.len() > 1,
        r->Ok_0.steps[1] matches StepView::WriteFile { path, content } && {
            &&& path == path_join(env.systemd_dir, "usched-"@ + job.id + ".timer"@)
            &&& has_line(content, "Persistent=true"@)
            &&& has_line(content, "[Timer]"@)
            &&& has_line(content, "WantedBy=timers.target"@)
            &&& match job.schedule {
                ScheduleView::Cron { expr, .. } => calendar_of(expr) matches Ok(when) && has_line(
                    content,
                    "OnCalendar="@ + when,
                ),
                ScheduleView::Once { at, .. } => has_line(
                    content,
                    "Unit=usched-"@ + job.id + ".service"@,
                ) && exists|when: Seq<char>| #[trigger]
                    is_local_text(when, at, "%Y-%m-%d %H:%M:%S"@) && has_line(
                        content,
                        "OnCalendar="@ + when,
                    ),
            }
        },
{
    let p = r->Ok_0;
    match job.schedule {
        ScheduleView::Cron { expr, .. } => {
            let when = calendar_of(expr)->Ok_0;
            assert(calendar_of(expr) == Ok::<Seq<char>, CronFault>(when));
            assert(p == timer_plan(job.id, when, env));
            lemma_timer_step(p, job.id, when, env);
        },
        ScheduleView::Once { at, .. } => {
            let when = choose|oncalendar: Seq<char>|
                #![trigger oneshot_plan(job.id, oncalendar, env)]
                is_local_text(oncalendar, at, Pattern::Second.spec_format()) && p == oneshot_plan(
                    job.id,
                    oncalendar,
                    env,
                );
            lemma_oneshot_timer_step(p, job.id, when, env);
            assert(is_local_text(when, at, "%Y-%m-%d %H:%M:%S"@));
        },
    }
}

proof fn lemma_timer_step(p: PlanView, id: Seq<char>, when: Seq<char>, env: UnitEnvView)
    requires
        p == timer_plan(id, when, env),
    ensures
        p.steps.len() > 1,
        p.steps[1] matches StepView::WriteFile { path, content } && {
            &&& path == path_join(env.systemd_dir, "usched-"@ + id + ".timer"@)
            &&& has_line(content, "Persistent=true"@)
            &&& has_line(content, "[Timer]"@)
            &&& has_line(content, "WantedBy=timers.target"@)
            &&& has_line(content, "OnCalendar="@ + when)
        },
{
    lemma_timer_lines(id, when);
}

proof fn lemma_oneshot_timer_step(p: PlanView, id: Seq<char>, when: Seq<char>, env: UnitEnvView)
    requires
        p == oneshot_plan(id, when, env),
    ensures
        p.steps.len() > 1,
        p.steps[1] matches StepView::WriteFile { path, content } && {
            &&& path == path_join(env.systemd_dir, "usched-"@ + id + ".timer"@)
            &&& has_line(content, "Persistent=true"@)
            &&& has_line(content, "[Timer]"@)
            &&& has_line(content, "WantedBy=timers.target"@)
            &&& has_line(content, "OnCalendar="@ + when)
            &&& has_line(content, "Unit=usched-"@ + id + ".service"@)
        },
{
    lemma_oneshot_timer_lines(id, when);
}

proof fn lemma_timer_lines(id: Seq<char>, when: Seq<char>)
    ensures
        has_line(timer_text(id, when), "OnCalendar="@ + when),
        has_line(timer_text(id, when), "Persistent=true"@),
        has_line(timer_text(id, when), "[Timer]"@),
        has_line(timer_text(id, when), "WantedBy=timers.target"@),
{
    let s = timer_text(id, when);
    let lf = seq!['\n'];
    let e = Seq::<char>::empty();
    let top = "[Unit]\nDescription=usched job: "@ + id;
    let on = "OnCalendar="@ + when;
    let mid = "OnBootSec=2min\nRandomizedDelaySec=30\n\n[Install]"@;
    let last = "WantedBy=timers.target"@;
    let keep = "Persistent=true"@;
    lemma_timer_literals();
    assert(s == top + lf + lf + "[Timer]"@ + lf + on + lf + keep + lf + mid + lf + last + lf);
    let head = top + lf + lf + "[Timer]"@;
    let rest = keep + lf + mid + lf + last + lf;
    assert(s == head + lf + on + lf + rest);
    lemma_line_within(s, head, on, rest);
    assert(s == top + lf + lf + "[Timer]"@ + lf + (on + lf + rest));
    lemma_line_within(s, top + lf, "[Timer]"@, on + lf + rest);
    assert(s == head + lf + on + lf + keep + lf + (mid + lf + last + lf));
    lemma_line_within(s, head + lf + on, keep, mid + lf + last + lf);
    assert(s == head + lf + on + lf + keep + lf + mid + lf + last + lf + e);
    lemma_line_within(s, head + lf + on + lf + keep + lf + mid, last, e);
}

proof fn lemma_timer_literals()
    ensures
        "\n\n[Timer]\nOnCalendar="@ == seq!['\n'] + seq!['\n'] + "[Timer]"@ + seq!['\n']
            + "OnCalendar="@,
        "\nPersistent=true\nOnBootSec=2min\nRandomizedDelaySec=30\n\n[Install]\nWantedBy=timers.target\n"@
            == seq!['\n'] + "Persistent=true"@ + seq!['\n']
            + "OnBootSec=2min\nRandomizedDelaySec=30\n\n[Install]"@ + seq!['\n']
            + "WantedBy=timers.target"@ + seq!['\n'],
        "\nPersistent=true\nUnit="@ == seq!['\n'] + "Persistent=true"@ + seq!['\n'] + "Unit="@,
        ".service\n\n[Install]\nWantedBy=timers.target\n"@ == ".service"@ + seq!['\n']
            + "\n[Install]"@ + seq!['\n'] + "WantedBy=timers.target"@ + seq!['\n'],
        "Unit=usched-"@ == "Unit="@ + "usched-"@,
{
    lemma_calendar_literal();
    lemma_recurring_literal();
    lemma_once_literals();
}

proof fn lemma_calendar_literal()
    ensures
        "\n\n[Timer]\nOnCalendar="@ == seq!['\n'] + seq!['\n'] + "[Timer]"@ + seq!['\n']
            + "OnCalendar="@,
{
    reveal_strlit("\n\n[Timer]\nOnCalendar=");
    reveal_strlit("OnCalendar=");
    reveal_strlit("[Timer]");
    assert("\n\n[Timer]\nOnCalendar="@ =~= seq!['\n'] + seq!['\n'] + "[Timer]"@ + seq!['\n']
        + "OnCalendar="@);
}

proof fn lemma_recurring_literal()
    ensures
        "\nPersistent=true\nOnBootSec=2min\nRandomizedDelaySec=30\n\n[Install]\nWantedBy=timers.target\n"@
            == seq!['\n'] + "Persistent=true"@ + seq!['\n']
            + "OnBootSec=2min\nRandomizedDelaySec=30\n\n[Install]"@ + seq!['\n']
            + "WantedBy=timers.target"@ + seq!['\n'],
{
    reveal_strlit(
        "\nPersistent=true\nOnBootSec=2min\nRandomizedDelaySec=30\n\n[Install]\nWantedBy=timers.target\n",
    );
    reveal_strlit("OnBootSec=2min\nRandomizedDelaySec=30\n\n[Install]");
    reveal_strlit("Persistent=true");
    reveal_strlit("WantedBy=timers.target");
    assert("\nPersistent=true\nOnBootSec=2min\nRandomizedDelaySec=30\n\n[Install]\nWantedBy=timers.target\n"@
        =~= seq!['\n'] + "Persistent=true"@ + seq!['\n']
        + "OnBootSec=2min\nRandomizedDelaySec=30\n\n[Install]"@ + seq!['\n']
        + "WantedBy=timers.target"@ + seq!['\n']);
}

proof fn lemma_once_literals()
    ensures
        "\nPersistent=true\nUnit="@ == seq!['\n'] + "Persistent=true"@ + seq!['\n'] + "Unit="@,
        ".service\n\n[Install]\nWantedBy=timers.target\n"@ == ".service"@ + seq!['\n']
            + "\n[Install]"@ + seq!['\n'] + "WantedBy=timers.target"@ + seq!['\n'],
        "Unit=usched-"@ == "Unit="@ + "usched-"@,
{
    reveal_strlit("\nPersistent=true\nUnit=");
    reveal_strlit("Persistent=true");
    reveal_strlit("Unit=");
    reveal_strlit(".service\n\n[Install]\nWantedBy=timers.target\n");
    reveal_strlit(".service");
    reveal_strlit("\n[Install]");
    reveal_strlit("WantedBy=timers.target");
    reveal_strlit("Unit=usched-");
    reveal_strlit("usched-");
    assert("\nPersistent=true\nUnit="@ =~= seq!['\n'] + "Persistent=true"@ + seq!['\n']
        + "Unit="@);
    assert(".service\n\n[Install]\nWantedBy=timers.target\n"@ =~= ".service"@ + seq!['\n']
        + "\n[Install]"@ + seq!['\n'] + "WantedBy=timers.target"@ + seq!['\n']);
    assert("Unit=usched-"@ =~= "Unit="@ + "usched-"@);
}

proof fn lemma_oneshot_timer_lines(id: Seq<char>, when: Seq<char>)
    ensures
        has_line(oneshot_timer_text(id, when), "OnCalendar="@ + when),
        has_line(oneshot_timer_text(id, when), "Persistent=true"@),
        has_line(oneshot_timer_text(id, when), "[Timer]"@),
        has_line(oneshot_timer_text(id, when), "Unit=usched-"@ + id + ".service"@),
        has_line(oneshot_timer_text(id, when), "WantedBy=timers.target"@),
{
    let s = oneshot_timer_text(id, when);
    let lf = seq!['\n'];
    let e = Seq::<char>::empty();
    let top = "[Unit]\nDescription=usched one-shot job: "@ + id;
    let on = "OnCalendar="@ + when;
    let unit = "Unit=usched-"@ + id + ".service"@;
    let mid = "\n[Install]"@;
    let last = "WantedBy=timers.target"@;
    let keep = "Persistent=true"@;
    lemma_timer_literals();
    assert(s == top + lf + lf + "[Timer]"@ + lf + on + lf + keep + lf + unit + lf + mid + lf + last
        + lf);
    let head = top + lf + lf + "[Timer]"@;
    let rest = keep + lf + unit + lf + mid + lf + last + lf;
    assert(s == head + lf + on + lf + rest);
    lemma_line_within(s, head, on, rest);
    assert(s == top + lf + lf + "[Timer]"@ + lf + (on + lf + rest));
    lemma_line_within(s, top + lf, "[Timer]"@, on + lf + rest);
    assert(s == head + lf + on + lf + keep + lf + (unit + lf + mid + lf + last + lf));
    lemma_line_within(s, head + lf + on, keep, unit + lf + mid + lf + last + lf);
    let upto = head + lf + on + lf + keep;
    assert(s == upto + lf + unit + lf + (mid + lf + last + lf));
    lemma_line_within(s, upto, unit, mid + lf + last + lf);
    assert(s == upto + lf + unit + lf + mid + lf + last + lf + e);
    lemma_line_within(s, upto + lf + unit + lf + mid, last, e);
}

/// A timer cannot be created only where the cron expression of a recurring job has no calendar
/// expression.
pub proof fn law_timer_is_owed(r: Result<PlanView, CronFault>, job: JobView, env: UnitEnvView)
    requires
        creates_timer(r, job, env),
    ensures
        job.schedule is Once ==> r is Ok,
        job.schedule matches ScheduleView::Cron { expr, .. } ==> match calendar_of(expr) {
            Ok(_) => r is Ok,
            Err(f) => r == Err::<PlanView, CronFault>(f),
        },
{
}

/// Removing a timer stops and disables it, stops its service, removes both files and has
/// systemd read its units anew; no failure along the way counts. Disabling it stops it now and
/// keeps it from the next boot; enabling it does both the other way.
pub proof fn law_steps_act_on_the_unit(unit: Seq<char>, dir: Seq<char>)
    ensures
        remove_steps(unit, dir) == seq![
            StepView::Systemctl {
                args: seq!["--user"@, "stop"@, unit + ".timer"@],
                failure: Failure::Ignored,
            },
            StepView::Systemctl {
                args: seq!["--user"@, "disable"@, unit + ".timer"@],
                failure: Failure::Ignored,
            },
            StepView::Systemctl {
                args: seq!["--user"@, "stop"@, unit + ".service"@],
                failure: Failure::Ignored,
            },
            StepView::RemoveFile(path_join(dir, unit + ".timer"@)),
            StepView::RemoveFile(path_join(dir, unit + ".service"@)),
            StepView::Systemctl {
                args: seq!["--user"@, "daemon-reload"@],
                failure: Failure::Ignored,
            },
        ],
        disable_steps(unit) == seq![
            StepView::Systemctl {
                args: seq!["--user"@, "stop"@, unit + ".timer"@],
                failure: Failure::Stop,
            },
            StepView::Systemctl {
                args: seq!["--user"@, "disable"@, unit + ".timer"@],
                failure: Failure::Ignored,
            },
        ],
        enable_step(unit) == (StepView::Systemctl {
            args: seq!["--user"@, "enable"@, "--now"@, unit + ".timer"@],
            failure: Failure::Enable,
        }),
{
    let user = seq!["--user"@];
    assert(user + seq!["stop"@, unit + ".timer"@] == seq!["--user"@, "stop"@, unit + ".timer"@]);
    assert(user + seq!["disable"@, unit + ".timer"@] == seq![
        "--user"@,
        "disable"@,
        unit + ".timer"@,
    ]);
    assert(user + seq!["stop"@, unit + ".service"@] == seq!["--user"@, "stop"@, unit + ".service"@]);
    assert(user + seq!["daemon-reload"@] == seq!["--user"@, "daemon-reload"@]);
    assert(user + seq!["enable"@, "--now"@, unit + ".timer"@] == seq![
        "--user"@,
        "enable"@,
        "--now"@,
        unit + ".timer"@,
    ]);
}

/// A call of systemctl that succeeds never stops a plan. One that fails, or cannot be started,
/// does unless its failure is ignored, and what systemctl wrote is told.
pub proof fn law_failures_stop_a_plan(f: Failure, stderr: Seq<char>)
    ensures
        f.spec_outcome(Some((true, stderr))) is Ok,
        f == Failure::Ignored ==> f.spec_outcome(Some((false, stderr))) is Ok && f.spec_outcome(
            None,
        ) is Ok,
        f == Failure::Reload ==> f.spec_outcome(Some((false, stderr))) == Err::<(), Seq<char>>(
            "daemon-reload failed: "@ + stderr,
        ) && f.spec_outcome(None) == Err::<(), Seq<char>>("Failed to daemon-reload"@),
        f == Failure::Enable ==> f.spec_outcome(Some((false, stderr))) == Err::<(), Seq<char>>(
            "Failed to enable timer: "@ + stderr,
        ) && f.spec_outcome(None) == Err::<(), Seq<char>>("Failed to enable timer"@),
        f == Failure::Stop ==> f.spec_outcome(Some((false, stderr))) == Err::<(), Seq<char>>(
            "Failed to stop timer: "@ + stderr,
        ) && f.spec_outcome(None) == Err::<(), Seq<char>>("Failed to stop timer"@),
{
}

/// Text with white space, a quote, a backslash, a dollar or percent sign, a back quote, a
/// semicolon, an ampersand or a bar in it is put within double quotes, and so is empty text;
/// other text is left alone.
pub proof fn law_special_text_is_quoted(s: Seq<char>, i: int)
    ensures
        s.len() == 0 || (0 <= i < s.len() && (is_white(s[i]) || seq![
            '"',
            '\\',
            '\'',
            '$',
            '%',
            '`',
            ';',
            '&',
            '|',
        ].contains(s[i]))) ==> systemd_quoted(s) == seq!['"'] + escaped(s) + seq!['"'],
        s.len() > 0 && (forall|j: int|
            0 <= j < s.len() ==> !is_white(#[trigger] s[j]) && !seq![
                '"',
                '\\',
                '\'',
                '$',
                '%',
                '`',
                ';',
                '&',
                '|',
            ].contains(s[j])) ==> systemd_quoted(s) == s,
{
    let special = seq!['"', '\\', '\'', '$', '%', '`', ';', '&', '|'];
    assert(special[0] == '"' && special[1] == '\\' && special[2] == '\'' && special[3] == '$'
        && special[4] == '%' && special[5] == '`' && special[6] == ';' && special[7] == '&'
        && special[8] == '|');
    assert forall|j: int| 0 <= j < s.len() implies (is_special(#[trigger] s[j]) <==> is_white(s[j])
        || special.contains(s[j])) by {
        if special.contains(s[j]) {
            let k = choose|k: int| 0 <= k < special.len() && special[k] == s[j];
        } else if is_special(s[j]) && !is_white(s[j]) {
            let c = s[j];
            assert(special.contains(special[0]) && special.contains(special[1])
                && special.contains(special[2]) && special.contains(special[3])
                && special.contains(special[4]) && special.contains(special[5])
                && special.contains(special[6]) && special.contains(special[7])
                && special.contains(special[8]));
        }
    }
}

/// Within the quotes a backslash and a quote have a backslash before them, dollar and percent
/// signs are doubled, and all else stands for itself.
pub proof fn law_escaping_goes_by_character(s: Seq<char>, c: char)
    ensures
        escaped(Seq::<char>::empty()) == Seq::<char>::empty(),
        c == '\\' || c == '"' ==> escaped(s.push(c)) == escaped(s) + seq!['\\', c],
        c == '$' || c == '%' ==> escaped(s.push(c)) == escaped(s) + seq![c, c],
        c != '\\' && c != '"' && c != '$' && c != '%' ==> escaped(s.push(c)) == escaped(s) + seq![c],
{
    assert(s.push(c).drop_last() == s);
}

/// The program that a timer starts is the one that the search path has; else the one that nix
/// installed, where it did; else whatever has its name.
pub proof fn law_program_that_a_timer_starts(found: Seq<char>, home: Seq<char>)
    ensures
        trimmed(found).len() > 0 ==> usched_path(Some(found), home, true) == trimmed(found)
            && usched_path(Some(found), home, false) == trimmed(found),
        trimmed(found).len() == 0 ==> usched_path(Some(found), home, true) == usched_path(
            None,
            home,
            true,
        ) && usched_path(Some(found), home, false) == usched_path(None, home, false),
        usched_path(None, home, true) == home + "/.nix-profile/bin/usched"@,
        usched_path(None, home, false) == "usched"@,
{
}

/// Different jobs have different units, each named after its job.
pub proof fn law_units_differ(a: Seq<char>, b: Seq<char>)
    ensures
        unit_of(a) == "usched-"@ + a,
        unit_of(a) == unit_of(b) ==> a == b,
{
    let n = "usched-"@.len() as int;
    assert(unit_of(a).skip(n) == a);
    assert(unit_of(b).skip(n) == b);
}

/// A timer is healthy where both of its files are there and systemctl answers `enabled` or
/// `static`, whatever white space surrounds that, and nowhere else.
pub proof fn law_healthy_timers(report: TimerReport)
    ensures
        report.healthy() ==> report.timer_exists && report.service_exists && report.is_enabled
            is Some,
        report.timer_exists && report.service_exists ==> (report.is_enabled matches Some(out) ==> (
        report.healthy() <==> trimmed(out@) == "enabled"@ || trimmed(out@) == "static"@)),
{
}

/// The timer of a job whose unit is not known is an orphan, by the name of its file; a file with
/// another name never is, and neither is one of a known unit.
pub proof fn law_orphans_by_file_name(
    names: Seq<Seq<char>>,
    known: Seq<Seq<char>>,
    id: Seq<char>,
    j: int,
)
    requires
        0 <= j < names.len(),
        !ends_with("usched-"@ + id, ".timer"@),
    ensures
        names[j] == "usched-"@ + id + ".timer"@ && !known.contains("usched-"@ + id) ==> orphans(
            names,
            known,
        ).contains("usched-"@ + id),
        orphans(names, known).contains("usched-"@ + id) ==> !known.contains("usched-"@ + id)
            && exists|k: int|
            0 <= k < names.len() && starts_with(#[trigger] names[k], "usched-"@) && ends_with(
                names[k],
                ".timer"@,
            ),
{
    let unit = "usched-"@ + id;
    reveal_strlit(".timer");
    law_suffixes_are_taken_off(unit, ".timer"@);
    if names[j] == unit + ".timer"@ {
        law_text_within(unit, ".timer"@, Seq::empty(), unit);
        assert(unit + ".timer"@ == "usched-"@ + (id + ".timer"@));
        law_text_within(Seq::empty(), "usched-"@, id + ".timer"@, unit);
        if !known.contains(unit) {
            law_unknown_timers_are_orphans(names, known, j);
        }
    }
    law_known_units_are_no_orphans(names, known);
    let o = orphans(names, known);
    if o.contains(unit) {
        let i = choose|i: int| 0 <= i < o.len() && o[i] == unit;
        assert(!known.contains(o[i]));
        let k = choose|k: int|
            0 <= k < names.len() && is_job_timer(#[trigger] names[k]) && o[i] == without_suffixes(
                names[k],
                ".timer"@,
            );
        assert(is_job_timer(names[k]));
    }
}

/// Whatever plan is made for the timer of a job, its service starts the job by its own ID, and
/// it is that unit's timer that is enabled.
pub proof fn law_scheduling_end_to_end(job: &Job, env: &UnitEnv, r: Result<Plan, CronError>)
    requires
        call_ensures(recreate_timer, (job, env), r),
        r is Ok,
    ensures
        ({
            let p = r->Ok_0;
            let unit = "usched-"@ + job.id@;
            &&& p.unit@ == unit
            &&& p@.steps.len() == 5
            &&& p@.steps[2] matches StepView::WriteFile { path, content } && path == path_join(
                env.systemd_dir@,
                unit + ".service"@,
            ) && has_line(
                content,
                "ExecStart="@ + systemd_quoted(env.usched_path@) + " __run-job "@ + systemd_quoted(
                    job.id@,
                ),
            )
            &&& p@.steps[4] == (StepView::Systemctl {
                args: seq!["--user"@, "enable"@, "--now"@, unit + ".timer"@],
                failure: Failure::Enable,
            })
        }),
{
    lemma_recreated(job, env, r);
    law_plan_installs_and_enables(plan_result(r), job@, env@);
    law_service_runs_the_job(plan_result(r), job@, env@);
}

proof fn lemma_recreated(job: &Job, env: &UnitEnv, r: Result<Plan, CronError>)
    requires
        call_ensures(recreate_timer, (job, env), r),
    ensures
        creates_timer(plan_result(r), job@, env@),
{
}

/// The files of a unit hold these lines and no others.
pub proof fn law_unit_files_are_whole(
    id: Seq<char>,
    when: Seq<char>,
    label: Seq<char>,
    env: UnitEnvView,
)
    ensures
        timer_text(id, when) == "[Unit]\nDescription=usched job: "@ + id
            + "\n\n[Timer]\nOnCalendar="@ + when
            + "\nPersistent=true\nOnBootSec=2min\nRandomizedDelaySec=30\n\n[Install]\nWantedBy=timers.target\n"@,
        oneshot_timer_text(id, when) == "[Unit]\nDescription=usched one-shot job: "@ + id
            + "\n\n[Timer]\nOnCalendar="@ + when + "\nPersistent=true\nUnit="@ + ("usched-"@ + id)
            + ".service\n\n[Install]\nWantedBy=timers.target\n"@,
        service_text(label, id, env) == "[Unit]\nDescription="@ + label + id
            + "\n\n[Service]\nType=oneshot\nEnvironment=\"PATH="@ + env.path_env
            + "\"\nExecStart="@ + (systemd_quoted(env.usched_path) + " __run-job "@
            + systemd_quoted(id)) + "\n"@,
{
}

/// A service is of an older form where it can be read and does not run its job by its ID.
pub proof fn law_older_services_are_known(content: Option<&str>, r: bool)
    requires
        call_ensures(timer_is_legacy, (content,), r),
    ensures
        content is None ==> !r,
        content matches Some(c) ==> (r <==> !has_text(c@, "__run-job"@)),
{
}

/// The units of a user stand in one directory, two files for each.
pub proof fn law_unit_paths(
    home: &str,
    dir: String,
    units: &str,
    unit: &str,
    timer: String,
    service: String,
)
    requires
        call_ensures(systemd_user_dir, (home,), dir),
        call_ensures(timer_path, (units, unit), timer),
        call_ensures(service_path, (units, unit), service),
    ensures
        dir@ == path_join(home@, ".config/systemd/user"@),
        timer@ == path_join(units@, unit@ + ".timer"@),
        service@ == path_join(units@, unit@ + ".service"@),
{
}

} // verus!
