//! The steps that scripts are made of.

use vstd::prelude::*;

use crate::action::{Command, CommandView, Slot};
use crate::text::{opt_text, texts, Text};

verus! {

/// The contents of a list of byte strings.
pub open spec fn byte_strings(v: Seq<Vec<u8>>) -> Seq<Seq<u8>> {
    v.map_values(|b: Vec<u8>| b@)
}

/// Where the news of a failed program goes.
#[derive(Debug, Clone, Copy, PartialEq, Eq)]
pub enum Notice {
    Quiet,
    Say,
    Log,
}

/// What a failed program means for the script.
#[derive(Debug, Clone, Copy, PartialEq, Eq)]
pub enum Verdict {
    /// The script goes on.
    Continue,
    /// The script ends, and has succeeded.
    Finish,
    /// The script ends, and has failed.
    Fail,
}

/// What to do about a program that did not succeed.
#[derive(Debug, PartialEq, Eq)]
pub struct Failure {
    /// The error where the program ended without an exit code.
    pub missing: String,
    /// What is said before the exit code.
    pub prefix: String,
    /// Where it is said.
    pub notice: Notice,
    /// A file to remove before the script ends.
    pub cleanup: Option<String>,
    /// Whether the script goes on.
    pub verdict: Verdict,
}

/// What a `Failure` holds.
#[verifier::ext_equal]
pub struct FailureView {
    pub missing: Text,
    pub prefix: Text,
    pub notice: Notice,
    pub cleanup: Option<Text>,
    pub verdict: Verdict,
}

impl View for Failure {
    type V = FailureView;

    open spec fn view(&self) -> FailureView {
        FailureView {
            missing: self.missing@,
            prefix: self.prefix@,
            notice: self.notice,
            cleanup: opt_text(self.cleanup),
            verdict: self.verdict,
        }
    }
}

/// What an absent or present `Failure` holds.
pub open spec fn opt_failure(o: Option<Failure>) -> Option<FailureView> {
    match o {
        Some(f) => Some(f@),
        None => None,
    }
}

/// How far the reading of a first line has come.
#[derive(Debug, Clone, Copy, PartialEq, Eq)]
pub enum Stage {
    /// Does the file exist?
    Probe,
    /// How long is it?
    Length,
    /// Read it whole.
    Short,
    /// Read one line of it.
    Long,
}

/// Which of the two refresh routines.
#[derive(Debug, Clone, Copy, PartialEq, Eq)]
pub enum Routine {
    Full,
    Basic,
}

/// Which of the optional reports were started.
#[derive(Debug, Clone, Copy, PartialEq, Eq)]
pub struct Tools {
    pub weather: bool,
    pub calendar: bool,
}

/// What a first line is read for.
#[derive(Debug, PartialEq, Eq)]
pub enum Goal {
    /// The name of the host that is refreshed.
    Hostname(Routine),
    /// How fast the processor runs.
    Frequency(Tools),
    /// How hot the processor is.
    Temperature { tools: Tools, frequency: i64 },
    /// How long the host has been up.
    Uptime { tools: Tools, frequency: i64, temperature: i64 },
}

/// What a `Goal` holds.
#[verifier::ext_equal]
pub enum GoalView {
    Hostname(Routine),
    Frequency(Tools),
    Temperature { tools: Tools, frequency: i64 },
    Uptime { tools: Tools, frequency: i64, temperature: i64 },
}

impl View for Goal {
    type V = GoalView;

    open spec fn view(&self) -> GoalView {
        match self {
            Goal::Hostname(x) => GoalView::Hostname(*x),
            Goal::Frequency(x) => GoalView::Frequency(*x),
            Goal::Temperature { tools, frequency } => GoalView::Temperature {
                tools: *tools,
                frequency: *frequency,
            },
            Goal::Uptime { tools, frequency, temperature } => GoalView::Uptime {
                tools: *tools,
                frequency: *frequency,
                temperature: *temperature,
            },
        }
    }
}

/// A step of a refresh of the host.
#[derive(Debug, PartialEq, Eq)]
pub enum RefreshStep {
    /// Learn the name of the user.
    User { hostname: String },
    /// Learn the local time, then do the full routine.
    Full { hostname: String, user: String },
    /// Learn the local time, then do the basic routine.
    Basic { hostname: String },
}

/// What a `RefreshStep` holds.
#[verifier::ext_equal]
pub enum RefreshStepView {
    User { hostname: Text },
    Full { hostname: Text, user: Text },
    Basic { hostname: Text },
}

impl View for RefreshStep {
    type V = RefreshStepView;

    open spec fn view(&self) -> RefreshStepView {
        match self {
            RefreshStep::User { hostname } => RefreshStepView::User {
                hostname: hostname@,
            },
            RefreshStep::Full { hostname, user } => RefreshStepView::Full {
                hostname: hostname@,
                user: user@,
            },
            RefreshStep::Basic { hostname } => RefreshStepView::Basic {
                hostname: hostname@,
            },
        }
    }
}

/// A package directory of a distribution, and what to do with it.
#[derive(Debug, PartialEq, Eq)]
pub struct Target {
    pub distro: String,
    pub dir: String,
    /// Whether to remove and to move files.
    pub cleanup: bool,
    /// Whether to build and to upload the package repository.
    pub publish: bool,
}

/// What a `Target` holds.
#[verifier::ext_equal]
pub struct TargetView {
    pub distro: Text,
    pub dir: Text,
    pub cleanup: bool,
    pub publish: bool,
}

impl View for Target {
    type V = TargetView;

    open spec fn view(&self) -> TargetView {
        TargetView {
            distro: self.distro@,
            dir: self.dir@,
            cleanup: self.cleanup,
            publish: self.publish,
        }
    }
}

/// A package that was collected.
#[derive(Debug, PartialEq, Eq)]
pub struct PoolFile {
    /// When it was modified.
    pub mtime: u64,
    /// Where it is.
    pub path: String,
    /// Whose package it is.
    pub repo: String,
}

/// What a `PoolFile` holds.
#[verifier::ext_equal]
pub struct PoolFileView {
    pub mtime: u64,
    pub path: Text,
    pub repo: Text,
}

impl View for PoolFile {
    type V = PoolFileView;

    open spec fn view(&self) -> PoolFileView {
        PoolFileView {
            mtime: self.mtime,
            path: self.path@,
            repo: self.repo@,
        }
    }
}

/// What a list of packages holds.
pub open spec fn pool_files(v: Seq<PoolFile>) -> Seq<PoolFileView> {
    v.map_values(|f: PoolFile| f@)
}

/// A step of the check of the package directories.
#[derive(Debug, PartialEq, Eq)]
pub enum RepoStep {
    /// Does the directory of the distribution exist?
    Enter(Target),
    /// Does the directory of new packages exist?
    Devel(Target),
    /// Begin to list the new packages.
    OpenDevel(Target),
    /// The next of the new packages.
    ScanDevel { target: Target, seen: Vec<Vec<u8>> },
    /// Read a build log.
    ShowLog { dir: String, name: Vec<u8>, cleanup: bool },
    /// Remove a build log.
    DropLog { dir: String, name: Vec<u8> },
    /// Begin to list the packages.
    OpenPool(Target),
    /// The next of the packages.
    ScanPool { target: Target, found: Vec<PoolFile> },
    /// When was this package modified?
    StatPool { target: Target, file: String, found: Vec<PoolFile> },
}

/// What a `RepoStep` holds.
#[verifier::ext_equal]
pub enum RepoStepView {
    Enter(TargetView),
    Devel(TargetView),
    OpenDevel(TargetView),
    ScanDevel { target: TargetView, seen: Seq<Seq<u8>> },
    ShowLog { dir: Text, name: Seq<u8>, cleanup: bool },
    DropLog { dir: Text, name: Seq<u8> },
    OpenPool(TargetView),
    ScanPool { target: TargetView, found: Seq<PoolFileView> },
    StatPool { target: TargetView, file: Text, found: Seq<PoolFileView> },
}

impl View for RepoStep {
    type V = RepoStepView;

    open spec fn view(&self) -> RepoStepView {
        match self {
            RepoStep::Enter(x) => RepoStepView::Enter(x@),
            RepoStep::Devel(x) => RepoStepView::Devel(x@),
            RepoStep::OpenDevel(x) => RepoStepView::OpenDevel(x@),
            RepoStep::ScanDevel { target, seen } => RepoStepView::ScanDevel {
                target: target@,
                seen: byte_strings(seen@),
            },
            RepoStep::ShowLog { dir, name, cleanup } => RepoStepView::ShowLog {
                dir: dir@,
                name: name@,
                cleanup: *cleanup,
            },
            RepoStep::DropLog { dir, name } => RepoStepView::DropLog {
                dir: dir@,
                name: name@,
            },
            RepoStep::OpenPool(x) => RepoStepView::OpenPool(x@),
            RepoStep::ScanPool { target, found } => RepoStepView::ScanPool {
                target: target@,
                found: pool_files(found@),
            },
            RepoStep::StatPool { target, file, found } => RepoStepView::StatPool {
                target: target@,
                file: file@,
                found: pool_files(found@),
            },
        }
    }
}

/// A step of the report about the host.
#[derive(Debug, PartialEq, Eq)]
pub enum StatsStep {
    /// Is there a program that tells the weather?
    Weather,
    /// Is there a program that tells the agenda?
    Calendar { weather: bool },
    /// Start one of them.
    Spawn(Slot),
    /// Read how long the host has been up.
    Measure { word: Option<String>, tools: Tools, frequency: i64, temperature: i64 },
    /// Wait for one of them.
    Collect(Slot),
}

/// What a `StatsStep` holds.
#[verifier::ext_equal]
pub enum StatsStepView {
    Weather,
    Calendar { weather: bool },
    Spawn(Slot),
    Measure { word: Option<Text>, tools: Tools, frequency: i64, temperature: i64 },
    Collect(Slot),
}

impl View for StatsStep {
    type V = StatsStepView;

    open spec fn view(&self) -> StatsStepView {
        match self {
            StatsStep::Weather => StatsStepView::Weather,
            StatsStep::Calendar { weather } => StatsStepView::Calendar {
                weather: *weather,
            },
            StatsStep::Spawn(x) => StatsStepView::Spawn(*x),
            StatsStep::Measure { word, tools, frequency, temperature } => StatsStepView::Measure {
                word: opt_text(*word),
                tools: *tools,
                frequency: *frequency,
                temperature: *temperature,
            },
            StatsStep::Collect(x) => StatsStepView::Collect(*x),
        }
    }
}

/// How a password file is encrypted again.
#[derive(Debug, PartialEq, Eq)]
pub struct Edit {
    pub gpg_user: String,
    pub gpg_key: String,
    /// The file to write, if one was given.
    pub output: Option<String>,
}

/// What an `Edit` holds.
#[verifier::ext_equal]
pub struct EditView {
    pub gpg_user: Text,
    pub gpg_key: Text,
    pub output: Option<Text>,
}

impl View for Edit {
    type V = EditView;

    open spec fn view(&self) -> EditView {
        EditView {
            gpg_user: self.gpg_user@,
            gpg_key: self.gpg_key@,
            output: opt_text(self.output),
        }
    }
}

/// What a password file is decrypted for.
#[derive(Debug, PartialEq, Eq)]
pub enum Purpose {
    /// To show the first line that holds the query, or all lines.
    Show(Option<String>),
    /// To send the first line that holds the query.
    Send(String),
    /// To edit it.
    Edit(Edit),
}

/// What a `Purpose` holds.
#[verifier::ext_equal]
pub enum PurposeView {
    Show(Option<Text>),
    Send(Text),
    Edit(EditView),
}

impl View for Purpose {
    type V = PurposeView;

    open spec fn view(&self) -> PurposeView {
        match self {
            Purpose::Show(x) => PurposeView::Show(opt_text(*x)),
            Purpose::Send(x) => PurposeView::Send(x@),
            Purpose::Edit(x) => PurposeView::Edit(x@),
        }
    }
}

/// A step of the work with a password file.
#[derive(Debug, PartialEq, Eq)]
pub enum PasswordStep {
    /// Learn the date, which names the decrypted file.
    Begin { input: Option<String>, token: String, purpose: Purpose },
    /// Does the file that was given exist?
    Given { path: String, plain: String, purpose: Purpose },
    /// Begin to list the password files.
    OpenList { plain: String, purpose: Purpose },
    /// The next of the password files.
    Scan { plain: String, purpose: Purpose, seen: Vec<Vec<u8>> },
    /// Read all that was decrypted.
    ShowAll { plain: String },
    /// Begin to read what was decrypted.
    OpenPlain { plain: String },
    /// The next line of it.
    Search { query: String, send: bool },
    /// Its checksum before it is edited.
    HashBefore { plain: String, edit: Edit },
    /// Its checksum after it was edited.
    HashAfter { plain: String, before: String, edit: Edit },
    /// Learn the date, which names the encrypted file.
    Encrypt { plain: String, edit: Edit },
}

/// What a `PasswordStep` holds.
#[verifier::ext_equal]
pub enum PasswordStepView {
    Begin { input: Option<Text>, token: Text, purpose: PurposeView },
    Given { path: Text, plain: Text, purpose: PurposeView },
    OpenList { plain: Text, purpose: PurposeView },
    Scan { plain: Text, purpose: PurposeView, seen: Seq<Seq<u8>> },
    ShowAll { plain: Text },
    OpenPlain { plain: Text },
    Search { query: Text, send: bool },
    HashBefore { plain: Text, edit: EditView },
    HashAfter { plain: Text, before: Text, edit: EditView },
    Encrypt { plain: Text, edit: EditView },
}

impl View for PasswordStep {
    type V = PasswordStepView;

    open spec fn view(&self) -> PasswordStepView {
        match self {
            PasswordStep::Begin { input, token, purpose } => PasswordStepView::Begin {
                input: opt_text(*input),
                token: token@,
                purpose: purpose@,
            },
            PasswordStep::Given { path, plain, purpose } => PasswordStepView::Given {
                path: path@,
                plain: plain@,
                purpose: purpose@,
            },
            PasswordStep::OpenList { plain, purpose } => PasswordStepView::OpenList {
                plain: plain@,
                purpose: purpose@,
            },
            PasswordStep::Scan { plain, purpose, seen } => PasswordStepView::Scan {
                plain: plain@,
                purpose: purpose@,
                seen: byte_strings(seen@),
            },
            PasswordStep::ShowAll { plain } => PasswordStepView::ShowAll {
                plain: plain@,
            },
            PasswordStep::OpenPlain { plain } => PasswordStepView::OpenPlain {
                plain: plain@,
            },
            PasswordStep::Search { query, send } => PasswordStepView::Search {
                query: query@,
                send: *send,
            },
            PasswordStep::HashBefore { plain, edit } => PasswordStepView::HashBefore {
                plain: plain@,
                edit: edit@,
            },
            PasswordStep::HashAfter { plain, before, edit } => PasswordStepView::HashAfter {
                plain: plain@,
                before: before@,
                edit: edit@,
            },
            PasswordStep::Encrypt { plain, edit } => PasswordStepView::Encrypt {
                plain: plain@,
                edit: edit@,
            },
        }
    }
}

/// One step of a script.
#[derive(Debug, PartialEq, Eq)]
pub enum Step {
    /// Write a line to standard output.
    Say(String),
    /// Write a line to standard error.
    SayErr(String),
    /// Log an error.
    Log(String),
    /// Where the path does not exist, leave out as many of the steps that follow.
    Guard { path: String, span: usize },
    /// Run a program on the terminal.
    Run { command: Command, on_failure: Option<Failure> },
    /// Run a program and pass on what it writes.
    Pipe { command: Command, on_failure: Option<Failure> },
    /// Rename a file.
    Rename { from: String, to: String },
    /// Remove a file.
    Remove(String),
    /// Remove a directory.
    RemoveTree(String),
    /// Let seconds pass.
    Sleep(u64),
    /// Bring all repositories up to date.
    UpdateRepos,
    /// List the branches of a repository, and bring the main one up to date.
    Branches { dir: String },
    /// List the services that run.
    Services,
    /// End the script: it has succeeded, or failed with a message.
    Halt(Option<String>),
    /// Read the first line of a file.
    FirstLine { stage: Stage, path: String, goal: Goal },
    Refresh(RefreshStep),
    Repo(RepoStep),
    Stats(StatsStep),
    Password(PasswordStep),
}

/// What a `Step` holds.
#[verifier::ext_equal]
pub enum StepView {
    Say(Text),
    SayErr(Text),
    Log(Text),
    Guard { path: Text, span: usize },
    Run { command: CommandView, on_failure: Option<FailureView> },
    Pipe { command: CommandView, on_failure: Option<FailureView> },
    Rename { from: Text, to: Text },
    Remove(Text),
    RemoveTree(Text),
    Sleep(u64),
    UpdateRepos,
    Branches { dir: Text },
    Services,
    Halt(Option<Text>),
    FirstLine { stage: Stage, path: Text, goal: GoalView },
    Refresh(RefreshStepView),
    Repo(RepoStepView),
    Stats(StatsStepView),
    Password(PasswordStepView),
}

impl View for Step {
    type V = StepView;

    open spec fn view(&self) -> StepView {
        match self {
            Step::Say(x) => StepView::Say(x@),
            Step::SayErr(x) => StepView::SayErr(x@),
            Step::Log(x) => StepView::Log(x@),
            Step::Guard { path, span } => StepView::Guard {
                path: path@,
                span: *span,
            },
            Step::Run { command, on_failure } => StepView::Run {
                command: command@,
                on_failure: opt_failure(*on_failure),
            },
            Step::Pipe { command, on_failure } => StepView::Pipe {
                command: command@,
                on_failure: opt_failure(*on_failure),
            },
            Step::Rename { from, to } => StepView::Rename {
                from: from@,
                to: to@,
            },
            Step::Remove(x) => StepView::Remove(x@),
            Step::RemoveTree(x) => StepView::RemoveTree(x@),
            Step::Sleep(x) => StepView::Sleep(*x),
            Step::UpdateRepos => StepView::UpdateRepos,
            Step::Branches { dir } => StepView::Branches {
                dir: dir@,
            },
            Step::Services => StepView::Services,
            Step::Halt(x) => StepView::Halt(opt_text(*x)),
            Step::FirstLine { stage, path, goal } => StepView::FirstLine {
                stage: *stage,
                path: path@,
                goal: goal@,
            },
            Step::Refresh(x) => StepView::Refresh(x@),
            Step::Repo(x) => StepView::Repo(x@),
            Step::Stats(x) => StepView::Stats(x@),
            Step::Password(x) => StepView::Password(x@),
        }
    }
}

/// What a list of steps holds.
pub open spec fn step_views(v: Seq<Step>) -> Seq<StepView> {
    v.map_values(|s: Step| s@)
}

/// One line of output for each text.
pub open spec fn say_all(v: Seq<Text>) -> Seq<StepView> {
    v.map_values(|t: Text| StepView::Say(t))
}

/// One line of output for each text from `from` on.
pub fn say_lines(v: &Vec<String>, from: usize) -> (r: Vec<Step>)
    requires
        from <= v@.len(),
    ensures
        step_views(r@) == say_all(texts(v@).skip(from as int)),
{
    let mut out: Vec<Step> = Vec::new();
    let mut i: usize = from;
    while i < v.len()
        invariant
            from <= i <= v@.len(),
            out@.len() == i - from,
            forall|j: int| 0 <= j < out@.len() ==> (#[trigger] out@[j])@ == StepView::Say(
                v@[from + j]@,
            ),
        decreases v@.len() - i,
    {
        out.push(Step::Say(v[i].clone()));
        i += 1;
    }
    proof {
        assert(step_views(out@) =~= say_all(texts(v@).skip(from as int)));
    }
    out
}

/// The steps of `a`, then those of `b`.
pub fn chain(a: Vec<Step>, b: Vec<Step>) -> (r: Vec<Step>)
    ensures
        step_views(r@) == step_views(a@) + step_views(b@),
{
    let mut out: Vec<Step> = a;
    let mut more: Vec<Step> = b;
    let ghost first = out@;
    let ghost second = more@;
    out.append(&mut more);
    proof {
        assert(step_views(out@) =~= step_views(first) + step_views(second));
    }
    out
}

impl Target {
    /// The same target once more.
    pub fn copy(&self) -> (r: Target)
        ensures
            r@ == self@,
    {
        Target {
            distro: self.distro.clone(),
            dir: self.dir.clone(),
            cleanup: self.cleanup,
            publish: self.publish,
        }
    }
}

impl PoolFile {
    /// The same package once more.
    pub fn copy(&self) -> (r: PoolFile)
        ensures
            r@ == self@,
    {
        PoolFile { mtime: self.mtime, path: self.path.clone(), repo: self.repo.clone() }
    }
}

} // verus!
