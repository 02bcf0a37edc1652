//! The repositories that are kept up to date.

use vstd::prelude::*;
use vstd::utf8::{decode_utf8, valid_utf8};

use crate::action::{Command, CommandView};
use crate::host::Host;
use crate::outside::{path_shown, reads_utf8, show_path, stack_lossy, stack_lossy_text};
use crate::path::{join_path, joined_path};
use crate::program::{command_in, pipe, pipe_step};
use crate::search::{contains, occurs, occurs_at};
use crate::step::{step_views, Step, StepView};
use crate::text::{cat, opt_text, texts, Text};

verus! {

/// A repository to bring up to date, and what is said of it.
#[derive(Debug, PartialEq, Eq)]
pub struct RepoJob {
    pub directory: String,
    pub line: String,
}

/// Where the repositories `names` below `base` are.
pub open spec fn repo_paths(base: Text, names: Seq<Text>) -> Seq<Text> {
    names.map_values(|n: Text| joined_path(base, n))
}

/// Where all repositories are: those of the workspace, then the build repositories.
pub open spec fn all_repo_paths(h: Host) -> Seq<Text> {
    repo_paths(h.config.inner().workspace_path@, texts(h.config.inner().workspace_repos@))
        + repo_paths(h.config.inner().setup_files_path@, texts(h.config.inner().setup_files_repos@))
}

/// Where the repositories of these jobs are.
pub open spec fn job_paths(jobs: Seq<RepoJob>) -> Seq<Text> {
    jobs.map_values(|j: RepoJob| j.directory@)
}

/// What is said of these jobs.
pub open spec fn job_lines(jobs: Seq<RepoJob>) -> Seq<Text> {
    jobs.map_values(|j: RepoJob| j.line@)
}

/// What is said of the repositories at these paths.
pub open spec fn process_lines(paths: Seq<Text>) -> Seq<Text> {
    paths.map_values(|p: Text| "Process "@ + path_shown(p))
}

fn push_jobs(jobs: &mut Vec<RepoJob>, base: &str, names: &Vec<String>)
    ensures
        job_paths(final(jobs)@) == job_paths(old(jobs)@) + repo_paths(base@, texts(names@)),
        job_lines(final(jobs)@) == job_lines(old(jobs)@) + process_lines(
            repo_paths(base@, texts(names@)),
        ),
{
    let ghost start = jobs@;
    let ghost wanted = repo_paths(base@, texts(names@));
    let mut i: usize = 0;
    proof {
        assert(job_paths(jobs@) =~= job_paths(start) + wanted.take(0));
        assert(job_lines(jobs@) =~= job_lines(start) + process_lines(wanted.take(0)));
    }
    while i < names.len()
        invariant
            0 <= i <= names@.len(),
            wanted == repo_paths(base@, texts(names@)),
            job_paths(jobs@) == job_paths(start) + wanted.take(i as int),
            job_lines(jobs@) == job_lines(start) + process_lines(wanted.take(i as int)),
        decreases names@.len() - i,
    {
        let ghost paths = job_paths(jobs@);
        let ghost said = job_lines(jobs@);
        let directory: String = join_path(base, names[i].as_str());
        let shown: String = show_path(directory.as_str());
        let line: String = cat("Process ", shown.as_str());
        proof {
            assert(wanted[i as int] == directory@);
        }
        let job: RepoJob = RepoJob { directory, line };
        jobs.push(job);
        proof {
            assert(job_paths(jobs@) =~= paths.push(job.directory@));
            assert(job_lines(jobs@) =~= said.push(job.line@));
            assert(wanted.take(i + 1) =~= wanted.take(i as int).push(wanted[i as int]));
            assert(process_lines(wanted.take(i + 1)) =~= process_lines(wanted.take(i as int)).push(
                "Process "@ + path_shown(wanted[i as int]),
            ));
            assert(job_paths(jobs@) =~= job_paths(start) + wanted.take(i + 1));
            assert(job_lines(jobs@) =~= job_lines(start) + process_lines(wanted.take(i + 1)));
        }
        i += 1;
    }
    proof {
        assert(wanted.take(i as int) =~= wanted);
    }
}

/// The repositories to bring up to date, each once for each time it is set, in order. They are
/// brought up to date independently of one another, each by `process_git_directory`;
/// `update_outcome` says what became of all.
pub fn update_repos(host: &Host) -> (jobs: Vec<RepoJob>)
    ensures
        job_paths(jobs@) == all_repo_paths(*host),
        job_lines(jobs@) == process_lines(all_repo_paths(*host)),
        jobs@.len() == host.config.inner().workspace_repos@.len()
            + host.config.inner().setup_files_repos@.len(),
{
    let mut jobs: Vec<RepoJob> = Vec::new();
    proof {
        assert(job_paths(jobs@) =~= Seq::<Text>::empty());
        assert(job_lines(jobs@) =~= Seq::<Text>::empty());
    }
    push_jobs(
        &mut jobs,
        host.config.get().workspace_path.as_str(),
        &host.config.get().workspace_repos,
    );
    push_jobs(
        &mut jobs,
        host.config.get().setup_files_path.as_str(),
        &host.config.get().setup_files_repos,
    );
    proof {
        assert(job_paths(jobs@) =~= all_repo_paths(*host));
        assert(job_lines(jobs@) =~= process_lines(all_repo_paths(*host)));
        assert(job_paths(jobs@).len() == jobs@.len());
    }
    jobs
}

/// What became of one repository: it was brought up to date, or why not.
pub open spec fn outcome_view(o: Result<(), String>) -> Result<(), Text> {
    match o {
        Ok(_) => Ok(()),
        Err(message) => Err(message@),
    }
}

/// What became of these repositories.
pub open spec fn outcome_views(v: Seq<Result<(), String>>) -> Seq<Result<(), Text>> {
    v.map_values(|o: Result<(), String>| outcome_view(o))
}

/// What became of all repositories: all were brought up to date, or the first that was not decides.
pub open spec fn overall(outcomes: Seq<Result<(), Text>>) -> Result<(), Text>
    decreases outcomes.len(),
{
    if outcomes.len() == 0 {
        Ok(())
    } else if outcomes[0] is Err {
        outcomes[0]
    } else {
        overall(outcomes.drop_first())
    }
}

/// What became of all repositories, by what became of each, in the order of `update_repos`.
pub fn update_outcome(outcomes: &Vec<Result<(), String>>) -> (r: Result<(), String>)
    ensures
        outcome_view(r) == overall(outcome_views(outcomes@)),
        r is Ok <==> forall|i: int| 0 <= i < outcomes@.len() ==> (#[trigger] outcomes@[i]) is Ok,
        r matches Err(message) ==> exists|i: int|
            0 <= i < outcomes@.len() && (#[trigger] outcomes@[i] matches Err(m) && m@ == message@)
                && forall|j: int| 0 <= j < i ==> (#[trigger] outcomes@[j]) is Ok,
{
    let ghost all = outcome_views(outcomes@);
    let mut i: usize = 0;
    proof {
        assert(all.skip(0) =~= all);
    }
    while i < outcomes.len()
        invariant
            0 <= i <= outcomes@.len(),
            all == outcome_views(outcomes@),
            overall(all.skip(i as int)) == overall(all),
            forall|j: int| 0 <= j < i ==> (#[trigger] outcomes@[j]) is Ok,
        decreases outcomes@.len() - i,
    {
        proof {
            assert(all.skip(i as int)[0] == outcome_view(outcomes@[i as int]));
            assert(all.skip(i as int).drop_first() =~= all.skip(i + 1));
        }
        match &outcomes[i] {
            Ok(_) => {},
            Err(message) => {
                return Err(message.clone());
            },
        }
        i += 1;
    }
    Ok(())
}

/// Once one repository was not brought up to date, those after it change nothing about the result.
pub proof fn law_first_failure_decides(
    outcomes: Seq<Result<(), Text>>,
    later: Seq<Result<(), Text>>,
)
    requires
        overall(outcomes) is Err,
    ensures
        overall(outcomes + later) == overall(outcomes),
    decreases outcomes.len(),
{
    assert((outcomes + later)[0] == outcomes[0]);
    if outcomes[0] is Ok {
        law_first_failure_decides(outcomes.drop_first(), later);
        assert((outcomes + later).drop_first() =~= outcomes.drop_first() + later);
    }
}

// ---------------------------------------------------------------------------
// One repository
// ---------------------------------------------------------------------------

/// The command `git` with these arguments, in a repository.
pub open spec fn git(dir: Text, args: Seq<Text>) -> CommandView {
    command_in(dir, "git"@, args)
}

/// The step that runs `git`. How it ends does not matter.
pub open spec fn git_step(dir: Text, args: Seq<Text>) -> StepView {
    StepView::Run { command: git(dir, args), on_failure: None }
}

/// The steps that bring a branch of a repository up to date with its remote, both ways.
pub open spec fn branch_steps(dir: Text, branch: Text) -> Seq<StepView> {
    seq![
        git_step(dir, seq!["checkout"@, branch]),
        git_step(dir, seq!["pull"@]),
        git_step(dir, seq!["pull"@, "--tags"@]),
        git_step(dir, seq!["push"@]),
        git_step(dir, seq!["push"@, "--tags"@]),
    ]
}

/// The branch that is brought up to date, by what `git branch` wrote: `main` where a branch
/// begins so, else `master`, else none.
pub open spec fn main_branch(listing: Text) -> Option<Text> {
    if occurs(listing, " main"@) {
        Some("main"@)
    } else if occurs(listing, " master"@) {
        Some("master"@)
    } else {
        None
    }
}

/// The steps that follow from the text that `git branch` wrote.
pub open spec fn main_branch_steps(dir: Text, listing: Text) -> Seq<StepView> {
    match main_branch(listing) {
        Some(branch) => branch_steps(dir, branch),
        None => seq![],
    }
}

/// The steps that follow from what `git branch` wrote.
pub open spec fn listing_steps(dir: Text, output: Seq<u8>) -> Seq<StepView> {
    main_branch_steps(dir, stack_lossy_text(output))
}

/// The steps that bring a repository up to date: what is not committed is put aside, the main
/// branch is brought up to date, and the repository is packed.
pub open spec fn git_directory_steps(dir: Text) -> Seq<StepView> {
    seq![
        pipe_step(git(dir, seq!["stash"@]), "git stash"@),
        StepView::Branches { dir },
        pipe_step(git(dir, seq!["gc"@]), "git gc"@),
    ]
}

fn git_command(dir: &str, args: Vec<String>) -> (r: Command)
    ensures
        r@ == git(dir@, texts(args@)),
{
    Command::within(dir, "git", args)
}

fn git_run(dir: &str, args: Vec<String>) -> (r: Step)
    ensures
        r@ == git_step(dir@, texts(args@)),
{
    Step::Run { command: git_command(dir, args), on_failure: None }
}

/// What `git branch` is asked in the repository `dir`.
pub fn list_branches(dir: &str) -> (r: Command)
    ensures
        r@ == git(dir@, seq!["branch"@]),
{
    let args: Vec<String> = vec!["branch".to_string()];
    proof {
        assert(texts(args@) =~= seq!["branch"@]);
    }
    git_command(dir, args)
}

/// The steps that bring a branch of a repository up to date.
pub fn process_git_directory_branch(dir: &str, branch: &str) -> (r: Vec<Step>)
    ensures
        step_views(r@) == branch_steps(dir@, branch@),
{
    let checkout: Vec<String> = vec!["checkout".to_string(), branch.to_string()];
    let pull: Vec<String> = vec!["pull".to_string()];
    let pull_tags: Vec<String> = vec!["pull".to_string(), "--tags".to_string()];
    let push: Vec<String> = vec!["push".to_string()];
    let push_tags: Vec<String> = vec!["push".to_string(), "--tags".to_string()];
    proof {
        assert(texts(checkout@) =~= seq!["checkout"@, branch@]);
        assert(texts(pull@) =~= seq!["pull"@]);
        assert(texts(pull_tags@) =~= seq!["pull"@, "--tags"@]);
        assert(texts(push@) =~= seq!["push"@]);
        assert(texts(push_tags@) =~= seq!["push"@, "--tags"@]);
    }
    let out: Vec<Step> = vec![
        git_run(dir, checkout),
        git_run(dir, pull),
        git_run(dir, pull_tags),
        git_run(dir, push),
        git_run(dir, push_tags),
    ];
    proof {
        assert(step_views(out@) =~= branch_steps(dir@, branch@));
    }
    out
}

/// The branch that is brought up to date.
pub fn choose_branch(listing: &str) -> (r: Option<String>)
    ensures
        opt_text(r) == main_branch(listing@),
{
    if contains(listing, " main") {
        Some("main".to_string())
    } else if contains(listing, " master") {
        Some("master".to_string())
    } else {
        None
    }
}

/// The steps that follow from what `git branch` wrote.
pub fn after_listing(dir: &str, output: &Vec<u8>) -> (r: Vec<Step>)
    ensures
        step_views(r@) == listing_steps(dir@, output@),
        reads_utf8(output@),
        valid_utf8(output@) ==> step_views(r@) == main_branch_steps(dir@, decode_utf8(output@)),
{
    let listing: String = stack_lossy(output.as_slice());
    match choose_branch(listing.as_str()) {
        Some(branch) => process_git_directory_branch(dir, branch.as_str()),
        None => {
            let out: Vec<Step> = Vec::new();
            proof {
                assert(step_views(out@) =~= Seq::<StepView>::empty());
            }
            out
        },
    }
}

/// The steps that bring a repository up to date.
pub fn plan_git_directory(dir: &str) -> (r: Vec<Step>)
    ensures
        step_views(r@) == git_directory_steps(dir@),
{
    let stash: Vec<String> = vec!["stash".to_string()];
    let gc: Vec<String> = vec!["gc".to_string()];
    proof {
        assert(texts(stash@) =~= seq!["stash"@]);
        assert(texts(gc@) =~= seq!["gc"@]);
    }
    let out: Vec<Step> = vec![
        pipe(git_command(dir, stash), "git stash"),
        Step::Branches { dir: dir.to_string() },
        pipe(git_command(dir, gc), "git gc"),
    ];
    proof {
        assert(step_views(out@) =~= git_directory_steps(dir@));
    }
    out
}

/// A repository with a branch `main` is brought up to date on it, whatever other branches it has.
pub proof fn law_main_is_preferred(before: Text, after: Text)
    ensures
        main_branch(before + " main"@ + after) == Some("main"@),
{
    let listing = before + " main"@ + after;
    let at: int = before.len() as int;
    assert(listing.subrange(at, at + " main"@.len()) =~= " main"@);
    assert(occurs_at(listing, " main"@, at));
}

} // verus!
