//! The check of the package directories: new packages are moved in, all but the newest package of
//! a name are dropped, and the package repository is built and uploaded.

use vstd::prelude::*;
use vstd::string::*;

use crate::action::{Action, ActionView, Command, Event, EventView};
use crate::host::Host;
use crate::order::{
    law_text_order_irreflexive, law_text_order_total, law_text_order_transitive, text_before_text,
    text_less,
};
use crate::outside::{decoded, path_shown, show_path, utf8_text};
use crate::path::{extension_is, file_stem, has_extension, join_path, joined_path, stem_of};
use crate::program::{command, failure, new_failure, pipe, pipe_step, run, run_step};
use crate::step::{
    byte_strings, chain, pool_files, say_all, say_lines, step_views, Notice, PoolFile,
    PoolFileView, RepoStep, RepoStepView, Step, StepView, Target, TargetView, Verdict,
};
use crate::text::{
    before, cat, cat3, contains_text, split, split_text, text_before, text_eq, texts, Text,
};

verus! {

// ---------------------------------------------------------------------------
// Directories
// ---------------------------------------------------------------------------

/// Where the packages of a target are.
pub open spec fn distro_dir(h: Host, t: TargetView) -> Text {
    joined_path(joined_path(h.config.inner().repo_deb_directory@, t.distro), t.dir)
}

/// Where the new packages of a target are.
pub open spec fn devel_dir(h: Host, t: TargetView) -> Text {
    joined_path(joined_path(h.config.inner().repo_deb_directory@, t.distro), "devel_"@ + t.dir)
}

/// Where the package repository of a target is built.
pub open spec fn build_dir(h: Host, t: TargetView) -> Text {
    joined_path(joined_path(h.config.inner().repo_directory@, t.distro), t.dir)
}

fn distro_path(host: &Host, t: &Target) -> (r: String)
    ensures
        r@ == distro_dir(*host, t@),
{
    let base: String = join_path(host.config.get().repo_deb_directory.as_str(), t.distro.as_str());
    join_path(base.as_str(), t.dir.as_str())
}

fn devel_path(host: &Host, t: &Target) -> (r: String)
    ensures
        r@ == devel_dir(*host, t@),
{
    let base: String = join_path(host.config.get().repo_deb_directory.as_str(), t.distro.as_str());
    let leaf: String = cat("devel_", t.dir.as_str());
    join_path(base.as_str(), leaf.as_str())
}

fn build_path(host: &Host, t: &Target) -> (r: String)
    ensures
        r@ == build_dir(*host, t@),
{
    let base: String = join_path(host.config.get().repo_directory.as_str(), t.distro.as_str());
    join_path(base.as_str(), t.dir.as_str())
}

// ---------------------------------------------------------------------------
// New packages
// ---------------------------------------------------------------------------

/// How many lines of a build log are shown.
pub const LOG_LINES: usize = 20;

/// The lines of a text.
pub open spec fn lines(text: Text) -> Seq<Text> {
    split(text, '\n')
}

/// The last lines of a build log.
pub open spec fn log_tail(text: Text) -> Seq<Text> {
    lines(text).skip(lines(text).len() - LOG_LINES)
}

/// Whether a build log has as many lines as are shown.
pub fn long_enough(text: &str) -> (r: bool)
    ensures
        r == (lines(text@).len() >= LOG_LINES),
{
    let v: Vec<String> = split_text(text, '\n');
    proof {
        assert(texts(v@).len() == v@.len());
    }
    v.len() >= LOG_LINES
}

/// The last lines of a build log, each as a line of output.
pub fn show_tail(text: &str) -> (r: Vec<Step>)
    requires
        lines(text@).len() >= LOG_LINES,
    ensures
        step_views(r@) == say_all(log_tail(text@)),
{
    let v: Vec<String> = split_text(text, '\n');
    proof {
        assert(texts(v@).len() == v@.len());
    }
    say_lines(&v, v.len() - LOG_LINES)
}

/// The steps that show the build logs among `names`.
pub open spec fn log_steps(h: Host, t: TargetView, names: Seq<Seq<u8>>) -> Seq<StepView>
    decreases names.len(),
{
    if names.len() == 0 {
        seq![]
    } else {
        log_steps(h, t, names.drop_last()) + (if has_extension(names.last(), "log"@) {
            seq![
                StepView::Repo(
                    RepoStepView::ShowLog {
                        dir: devel_dir(h, t),
                        name: names.last(),
                        cleanup: t.cleanup,
                    },
                ),
            ]
        } else {
            seq![]
        })
    }
}

/// The steps that announce the new package `name`, and move it in.
pub open spec fn move_steps(h: Host, t: TargetView, name: Text) -> Seq<StepView> {
    if t.cleanup {
        seq![
            StepView::Say("devel "@ + name),
            StepView::Rename {
                from: joined_path(devel_dir(h, t), name),
                to: joined_path(distro_dir(h, t), name),
            },
        ]
    } else {
        seq![StepView::Say("devel "@ + name)]
    }
}

/// The steps that announce and move in the packages among `names`. A package whose name is not
/// text is passed over.
pub open spec fn deb_steps(h: Host, t: TargetView, names: Seq<Seq<u8>>) -> Seq<StepView>
    decreases names.len(),
{
    if names.len() == 0 {
        seq![]
    } else {
        deb_steps(h, t, names.drop_last()) + (match decoded(names.last()) {
            Some(name) => if has_extension(names.last(), "deb"@) {
                move_steps(h, t, name)
            } else {
                seq![]
            },
            None => seq![],
        })
    }
}

/// What is done about the entries of the directory of new packages: all logs, then all packages.
pub open spec fn devel_steps(h: Host, t: TargetView, names: Seq<Seq<u8>>) -> Seq<StepView> {
    log_steps(h, t, names) + deb_steps(h, t, names)
}

fn logs(host: &Host, t: &Target, names: &Vec<Vec<u8>>) -> (r: Vec<Step>)
    ensures
        step_views(r@) == log_steps(*host, t@, byte_strings(names@)),
{
    let mut out: Vec<Step> = Vec::new();
    let ghost all = byte_strings(names@);
    let mut i: usize = 0;
    proof {
        assert(step_views(out@) =~= log_steps(*host, t@, all.take(0)));
    }
    while i < names.len()
        invariant
            0 <= i <= names@.len(),
            all == byte_strings(names@),
            step_views(out@) == log_steps(*host, t@, all.take(i as int)),
        decreases names@.len() - i,
    {
        let ghost done = step_views(out@);
        let name: &Vec<u8> = &names[i];
        proof {
            assert(all.take(i + 1).drop_last() =~= all.take(i as int));
            assert(all.take(i + 1).last() == name@);
        }
        if extension_is(name, "log") {
            let dir: String = devel_path(host, t);
            let step: Step = Step::Repo(
                RepoStep::ShowLog { dir, name: name.clone(), cleanup: t.cleanup },
            );
            out.push(step);
            proof {
                assert(step_views(out@) =~= done.push(step@));
            }
        }
        proof {
            assert(step_views(out@) =~= log_steps(*host, t@, all.take(i + 1)));
        }
        i += 1;
    }
    proof {
        assert(all.take(i as int) =~= all);
    }
    out
}

fn move_in(host: &Host, t: &Target, name: &str) -> (r: Vec<Step>)
    ensures
        step_views(r@) == move_steps(*host, t@, name@),
{
    let mut out: Vec<Step> = Vec::new();
    out.push(Step::Say(cat("devel ", name)));
    if t.cleanup {
        let from: String = devel_path(host, t);
        let to: String = distro_path(host, t);
        out.push(
            Step::Rename {
                from: join_path(from.as_str(), name),
                to: join_path(to.as_str(), name),
            },
        );
    }
    proof {
        assert(step_views(out@) =~= move_steps(*host, t@, name@));
    }
    out
}

fn debs(host: &Host, t: &Target, names: &Vec<Vec<u8>>) -> (r: Vec<Step>)
    ensures
        step_views(r@) == deb_steps(*host, t@, byte_strings(names@)),
{
    let mut out: Vec<Step> = Vec::new();
    let ghost all = byte_strings(names@);
    let mut i: usize = 0;
    proof {
        assert(step_views(out@) =~= deb_steps(*host, t@, all.take(0)));
    }
    while i < names.len()
        invariant
            0 <= i <= names@.len(),
            all == byte_strings(names@),
            step_views(out@) == deb_steps(*host, t@, all.take(i as int)),
        decreases names@.len() - i,
    {
        let name: &Vec<u8> = &names[i];
        proof {
            assert(all.take(i + 1).drop_last() =~= all.take(i as int));
            assert(all.take(i + 1).last() == name@);
        }
        let ghost done = step_views(out@);
        if extension_is(name, "deb") {
            match utf8_text(name.as_slice()) {
                Some(text) => {
                    let more: Vec<Step> = move_in(host, t, text.as_str());
                    out = chain(out, more);
                },
                None => {},
            }
        }
        proof {
            assert(step_views(out@) =~= deb_steps(*host, t@, all.take(i + 1)));
        }
        i += 1;
    }
    proof {
        assert(all.take(i as int) =~= all);
    }
    out
}

// ---------------------------------------------------------------------------
// Packages of the same name
// ---------------------------------------------------------------------------

/// Whose package a file name stands for: what is before the first underscore of its stem.
pub open spec fn repo_of(name: Text) -> Text {
    before(file_stem(name), '_')
}

/// The package that the file `name` of a target is, with the time at which it was modified.
pub open spec fn pool_file(h: Host, t: TargetView, name: Text, mtime: u64) -> PoolFileView {
    PoolFileView { mtime, path: joined_path(distro_dir(h, t), name), repo: repo_of(name) }
}

/// Whether `a` is older than `b`; of packages of the same age the path decides.
pub open spec fn older(a: PoolFileView, b: PoolFileView) -> bool {
    a.mtime < b.mtime || (a.mtime == b.mtime && text_before_text(a.path, b.path))
}

/// `f` put in its place among packages in the order of their age, unless it is there.
pub open spec fn placed(g: Seq<PoolFileView>, f: PoolFileView) -> Seq<PoolFileView>
    decreases g.len(),
{
    if g.len() == 0 {
        seq![f]
    } else if older(f, g[0]) {
        seq![f] + g
    } else if older(g[0], f) {
        seq![g[0]] + placed(g.drop_first(), f)
    } else {
        g
    }
}

/// The packages of the name `repo`, the oldest first.
pub open spec fn by_age(files: Seq<PoolFileView>, repo: Text) -> Seq<PoolFileView>
    decreases files.len(),
{
    if files.len() == 0 {
        seq![]
    } else if files.last().repo == repo {
        placed(by_age(files.drop_last(), repo), files.last())
    } else {
        by_age(files.drop_last(), repo)
    }
}

/// The names of the packages, each once, in the order in which they first occur.
pub open spec fn repo_names(files: Seq<PoolFileView>) -> Seq<Text>
    decreases files.len(),
{
    if files.len() == 0 {
        seq![]
    } else {
        let names = repo_names(files.drop_last());
        if names.contains(files.last().repo) {
            names
        } else {
            names.push(files.last().repo)
        }
    }
}

/// The steps that announce a package that is not the newest, and drop it.
pub open spec fn drop_steps(t: TargetView, path: Text) -> Seq<StepView> {
    if t.cleanup {
        seq![
            StepView::Say("duplicate "@ + path),
            StepView::Say("remove "@ + path),
            StepView::Remove(path),
        ]
    } else {
        seq![StepView::Say("duplicate "@ + path)]
    }
}

/// The steps that announce and drop all these packages.
pub open spec fn drop_all(t: TargetView, g: Seq<PoolFileView>) -> Seq<StepView>
    decreases g.len(),
{
    if g.len() == 0 {
        seq![]
    } else {
        drop_all(t, g.drop_last()) + drop_steps(t, g.last().path)
    }
}

/// All but the newest of the packages of the name `repo`.
pub open spec fn outdated(files: Seq<PoolFileView>, repo: Text) -> Seq<PoolFileView> {
    by_age(files, repo).drop_last()
}

/// The steps that announce and drop what is outdated, name by name.
pub open spec fn duplicate_steps(
    t: TargetView,
    files: Seq<PoolFileView>,
    names: Seq<Text>,
) -> Seq<StepView>
    decreases names.len(),
{
    if names.len() == 0 {
        seq![]
    } else {
        duplicate_steps(t, files, names.drop_last()) + drop_all(t, outdated(files, names.last()))
    }
}

/// Where the newest package of each name is.
pub open spec fn newest_paths(files: Seq<PoolFileView>, names: Seq<Text>) -> Seq<Text> {
    names.map_values(|n: Text| by_age(files, n).last().path)
}

fn is_older(a: &PoolFile, b: &PoolFile) -> (r: bool)
    ensures
        r == older(a@, b@),
{
    a.mtime < b.mtime || (a.mtime == b.mtime && text_less(a.path.as_str(), b.path.as_str()))
}

fn place(g: &mut Vec<PoolFile>, f: PoolFile)
    ensures
        pool_files(final(g)@) == placed(pool_files(old(g)@), f@),
{
    let ghost before_all = pool_files(g@);
    let mut i: usize = 0;
    proof {
        assert(before_all.take(0) + placed(before_all.skip(0), f@) =~= placed(before_all, f@)) by {
            assert(before_all.skip(0) =~= before_all);
        }
    }
    while i < g.len() && is_older(&g[i], &f)
        invariant
            0 <= i <= g@.len(),
            before_all == pool_files(g@),
            before_all.take(i as int) + placed(before_all.skip(i as int), f@) == placed(
                before_all,
                f@,
            ),
        decreases g@.len() - i,
    {
        proof {
            let rest = before_all.skip(i as int);
            assert(rest[0] == g@[i as int]@);
            assert(older(rest[0], f@));
            lemma_older_asymmetric(rest[0], f@);
            assert(rest.drop_first() =~= before_all.skip(i + 1));
            assert(before_all.take(i + 1) =~= before_all.take(i as int).push(rest[0]));
            assert(before_all.take(i + 1) + placed(before_all.skip(i + 1), f@)
                =~= before_all.take(i as int) + placed(rest, f@));
        }
        i += 1;
    }
    let ghost rest = before_all.skip(i as int);
    if i == g.len() || is_older(&f, &g[i]) {
        g.insert(i, f);
        proof {
            if i < before_all.len() {
                assert(rest[0] == before_all[i as int]);
            }
            assert(placed(rest, f@) =~= seq![f@] + rest);
            assert(pool_files(g@) =~= before_all.take(i as int) + (seq![f@] + rest));
        }
    } else {
        proof {
            assert(rest[0] == before_all[i as int]);
            assert(placed(rest, f@) =~= rest);
            assert(before_all =~= before_all.take(i as int) + rest);
        }
    }
}

fn sort_by_age(files: &Vec<PoolFile>, repo: &str) -> (r: Vec<PoolFile>)
    ensures
        pool_files(r@) == by_age(pool_files(files@), repo@),
{
    let mut out: Vec<PoolFile> = Vec::new();
    let ghost all = pool_files(files@);
    let mut i: usize = 0;
    proof {
        assert(pool_files(out@) =~= by_age(all.take(0), repo@));
    }
    while i < files.len()
        invariant
            0 <= i <= files@.len(),
            all == pool_files(files@),
            pool_files(out@) == by_age(all.take(i as int), repo@),
        decreases files@.len() - i,
    {
        proof {
            assert(all.take(i + 1).drop_last() =~= all.take(i as int));
            assert(all.take(i + 1).last() == files@[i as int]@);
        }
        if text_eq(files[i].repo.as_str(), repo) {
            place(&mut out, files[i].copy());
        }
        i += 1;
    }
    proof {
        assert(all.take(i as int) =~= all);
    }
    out
}

fn names_of(files: &Vec<PoolFile>) -> (r: Vec<String>)
    ensures
        texts(r@) == repo_names(pool_files(files@)),
{
    let mut out: Vec<String> = Vec::new();
    let ghost all = pool_files(files@);
    let mut i: usize = 0;
    proof {
        assert(texts(out@) =~= repo_names(all.take(0)));
    }
    while i < files.len()
        invariant
            0 <= i <= files@.len(),
            all == pool_files(files@),
            texts(out@) == repo_names(all.take(i as int)),
        decreases files@.len() - i,
    {
        let ghost seen = texts(out@);
        proof {
            assert(all.take(i + 1).drop_last() =~= all.take(i as int));
            assert(all.take(i + 1).last() == files@[i as int]@);
        }
        if !contains_text(&out, files[i].repo.as_str()) {
            out.push(files[i].repo.clone());
            proof {
                assert(texts(out@) =~= seen.push(files@[i as int]@.repo));
            }
        }
        i += 1;
    }
    proof {
        assert(all.take(i as int) =~= all);
    }
    out
}

fn drop_one(t: &Target, path: &str) -> (r: Vec<Step>)
    ensures
        step_views(r@) == drop_steps(t@, path@),
{
    let mut out: Vec<Step> = Vec::new();
    out.push(Step::Say(cat("duplicate ", path)));
    if t.cleanup {
        out.push(Step::Say(cat("remove ", path)));
        out.push(Step::Remove(path.to_string()));
    }
    proof {
        assert(step_views(out@) =~= drop_steps(t@, path@));
    }
    out
}

/// The steps that drop what is outdated, and where the newest package of each name is.
fn sort_out(t: &Target, files: &Vec<PoolFile>) -> (r: (Vec<Step>, Vec<String>))
    ensures
        step_views(r.0@) == duplicate_steps(
            t@,
            pool_files(files@),
            repo_names(pool_files(files@)),
        ),
        texts(r.1@) == newest_paths(pool_files(files@), repo_names(pool_files(files@))),
{
    let names: Vec<String> = names_of(files);
    let ghost all = pool_files(files@);
    let ghost wanted = repo_names(all);
    let mut out: Vec<Step> = Vec::new();
    let mut newest: Vec<String> = Vec::new();
    let mut i: usize = 0;
    proof {
        assert(step_views(out@) =~= duplicate_steps(t@, all, wanted.take(0)));
        assert(texts(newest@) =~= newest_paths(all, wanted.take(0)));
    }
    while i < names.len()
        invariant
            0 <= i <= names@.len(),
            all == pool_files(files@),
            wanted == repo_names(all),
            texts(names@) == wanted,
            step_views(out@) == duplicate_steps(t@, all, wanted.take(i as int)),
            texts(newest@) == newest_paths(all, wanted.take(i as int)),
        decreases names@.len() - i,
    {
        let ghost repo = wanted[i as int];
        let ghost found = texts(newest@);
        let group: Vec<PoolFile> = sort_by_age(files, names[i].as_str());
        proof {
            assert(repo == names@[i as int]@);
            lemma_repo_names(all);
            assert(wanted.contains(repo));
            lemma_by_age(all, repo);
            assert(wanted.take(i + 1).drop_last() =~= wanted.take(i as int));
            assert(wanted.take(i + 1).last() == repo);
            assert(pool_files(group@).len() == group@.len());
        }
        let ghost sorted = pool_files(group@);
        let mut j: usize = 0;
        let last: usize = group.len() - 1;
        let ghost start = step_views(out@);
        proof {
            assert(start + drop_all(t@, sorted.take(0)) =~= start);
        }
        while j < last
            invariant
                0 <= j <= last,
                last + 1 == group@.len(),
                sorted == pool_files(group@),
                step_views(out@) == start + drop_all(t@, sorted.take(j as int)),
            decreases last - j,
        {
            proof {
                assert(sorted.take(j + 1).drop_last() =~= sorted.take(j as int));
                assert(sorted.take(j + 1).last() == group@[j as int]@);
            }
            let more: Vec<Step> = drop_one(t, group[j].path.as_str());
            out = chain(out, more);
            proof {
                assert(step_views(out@) =~= start + drop_all(t@, sorted.take(j + 1)));
            }
            j += 1;
        }
        proof {
            assert(sorted.take(j as int) =~= outdated(all, repo));
            assert(sorted.last() == group@[j as int]@);
        }
        newest.push(group[j].path.clone());
        proof {
            assert(texts(newest@) =~= found.push(by_age(all, repo).last().path));
            assert(newest_paths(all, wanted.take(i + 1)) =~= newest_paths(
                all,
                wanted.take(i as int),
            ).push(by_age(all, repo).last().path));
            assert(step_views(out@) =~= duplicate_steps(t@, all, wanted.take(i + 1)));
        }
        i += 1;
    }
    proof {
        assert(wanted.take(i as int) =~= wanted);
    }
    (out, newest)
}

pub proof fn lemma_older_asymmetric(a: PoolFileView, b: PoolFileView)
    ensures
        !(older(a, b) && older(b, a)),
{
    if older(a, b) && older(b, a) {
        law_text_order_transitive(a.path, b.path, a.path);
        law_text_order_irreflexive(a.path);
    }
}

proof fn lemma_older_transitive(a: PoolFileView, b: PoolFileView, c: PoolFileView)
    requires
        older(a, b),
        older(b, c),
    ensures
        older(a, c),
{
    if a.mtime == b.mtime && b.mtime == c.mtime {
        law_text_order_transitive(a.path, b.path, c.path);
    }
}

/// Whether each package of `g` is older than all that follow it.
pub open spec fn ascending(g: Seq<PoolFileView>) -> bool {
    forall|i: int, j: int| 0 <= i < j < g.len() ==> older(#[trigger] g[i], #[trigger] g[j])
}

/// Whether `a` and `b` are the same file at the same age.
pub open spec fn same_file(a: PoolFileView, b: PoolFileView) -> bool {
    a.mtime == b.mtime && a.path == b.path
}

proof fn lemma_placed(g: Seq<PoolFileView>, f: PoolFileView)
    requires
        ascending(g),
    ensures
        ascending(placed(g, f)),
        placed(g, f).len() > 0,
        forall|i: int|
            0 <= i < placed(g, f).len() ==> g.contains(#[trigger] placed(g, f)[i]) || placed(
                g,
                f,
            )[i] == f,
        forall|x: PoolFileView| #[trigger] g.contains(x) ==> placed(g, f).contains(x),
        exists|i: int| 0 <= i < placed(g, f).len() && same_file(#[trigger] placed(g, f)[i], f),
    decreases g.len(),
{
    let p = placed(g, f);
    if g.len() == 0 {
        assert(same_file(p[0], f));
    } else if older(f, g[0]) {
        assert forall|i: int, j: int| 0 <= i < j < p.len() implies older(
            #[trigger] p[i],
            #[trigger] p[j],
        ) by {
            if i == 0 {
                assert(p[j] == g[j - 1]);
                if j > 1 {
                    assert(older(g[0], g[j - 1]));
                    lemma_older_transitive(f, g[0], g[j - 1]);
                }
            } else {
                assert(p[i] == g[i - 1] && p[j] == g[j - 1]);
            }
        }
        assert forall|i: int| 0 <= i < p.len() implies g.contains(#[trigger] p[i]) || p[i] == f by {
            if i > 0 {
                assert(p[i] == g[i - 1]);
            }
        }
        assert forall|x: PoolFileView| #[trigger] g.contains(x) implies p.contains(x) by {
            let k = choose|k: int| 0 <= k < g.len() && g[k] == x;
            assert(p[k + 1] == x);
        }
        assert(same_file(p[0], f));
    } else if older(g[0], f) {
        let rest = g.drop_first();
        assert forall|i: int, j: int| 0 <= i < j < rest.len() implies older(
            #[trigger] rest[i],
            #[trigger] rest[j],
        ) by {
            assert(older(g[i + 1], g[j + 1]));
        }
        lemma_placed(rest, f);
        let q = placed(rest, f);
        assert(p =~= seq![g[0]] + q);
        assert forall|i: int, j: int| 0 <= i < j < p.len() implies older(
            #[trigger] p[i],
            #[trigger] p[j],
        ) by {
            if i == 0 {
                assert(p[j] == q[j - 1]);
                if q[j - 1] != f {
                    assert(rest.contains(q[j - 1]));
                    let k = choose|k: int| 0 <= k < rest.len() && rest[k] == q[j - 1];
                    assert(older(g[0], g[k + 1]));
                }
            } else {
                assert(p[i] == q[i - 1] && p[j] == q[j - 1]);
            }
        }
        assert forall|i: int| 0 <= i < p.len() implies g.contains(#[trigger] p[i]) || p[i] == f by {
            if i == 0 {
                assert(p[0] == g[0]);
            } else {
                assert(p[i] == q[i - 1]);
                if q[i - 1] != f {
                    assert(rest.contains(q[i - 1]));
                    let k = choose|k: int| 0 <= k < rest.len() && rest[k] == q[i - 1];
                    assert(g[k + 1] == p[i]);
                }
            }
        }
        assert forall|x: PoolFileView| #[trigger] g.contains(x) implies p.contains(x) by {
            let k = choose|k: int| 0 <= k < g.len() && g[k] == x;
            if k == 0 {
                assert(p[0] == x);
            } else {
                assert(rest[k - 1] == x);
                assert(rest.contains(x));
                assert(q.contains(x));
                let m = choose|m: int| 0 <= m < q.len() && q[m] == x;
                assert(p[m + 1] == x);
            }
        }
        let m = choose|m: int| 0 <= m < q.len() && same_file(#[trigger] q[m], f);
        assert(same_file(p[m + 1], f));
    } else {
        law_text_order_total(f.path, g[0].path);
        assert(same_file(p[0], f));
    }
}

pub proof fn lemma_by_age(files: Seq<PoolFileView>, repo: Text)
    ensures
        ascending(by_age(files, repo)),
        forall|i: int|
            0 <= i < by_age(files, repo).len() ==> files.contains(
                #[trigger] by_age(files, repo)[i],
            ) && by_age(files, repo)[i].repo == repo,
        forall|k: int|
            0 <= k < files.len() && (#[trigger] files[k]).repo == repo ==> exists|i: int|
                0 <= i < by_age(files, repo).len() && same_file(
                    #[trigger] by_age(files, repo)[i],
                    files[k],
                ),
    decreases files.len(),
{
    let r = by_age(files, repo);
    if files.len() > 0 {
        let init = files.drop_last();
        let g = by_age(init, repo);
        lemma_by_age(init, repo);
        if files.last().repo == repo {
            lemma_placed(g, files.last());
        }
        assert forall|i: int| 0 <= i < r.len() implies files.contains(#[trigger] r[i]) && r[i].repo
            == repo by {
            if g.contains(r[i]) {
                let k = choose|k: int| 0 <= k < g.len() && g[k] == r[i];
                assert(init.contains(g[k]));
                let m = choose|m: int| 0 <= m < init.len() && init[m] == g[k];
                assert(files[m] == r[i]);
            } else {
                assert(files.last().repo == repo);
                assert(r[i] == files.last());
                assert(files[files.len() - 1] == r[i]);
            }
        }
        assert forall|k: int|
            0 <= k < files.len() && (#[trigger] files[k]).repo == repo implies exists|i: int|
            0 <= i < r.len() && same_file(#[trigger] r[i], files[k]) by {
            if k < files.len() - 1 {
                assert(init[k] == files[k]);
                let i = choose|i: int| 0 <= i < g.len() && same_file(#[trigger] g[i], init[k]);
                assert(g.contains(g[i]));
                assert(r.contains(g[i]));
                let m = choose|m: int| 0 <= m < r.len() && r[m] == g[i];
                assert(same_file(r[m], files[k]));
            }
        }
    }
}

pub proof fn lemma_repo_names(files: Seq<PoolFileView>)
    ensures
        forall|n: Text| #[trigger] repo_names(files).contains(n) ==> by_age(files, n).len() > 0,
        forall|k: int|
            0 <= k < files.len() ==> repo_names(files).contains((#[trigger] files[k]).repo),
        repo_names(files).no_duplicates(),
    decreases files.len(),
{
    if files.len() > 0 {
        let init = files.drop_last();
        let names = repo_names(init);
        let all = repo_names(files);
        lemma_repo_names(init);
        assert forall|n: Text| #[trigger] all.contains(n) implies by_age(files, n).len() > 0 by {
            lemma_by_age(init, n);
            if files.last().repo == n {
                lemma_placed(by_age(init, n), files.last());
            } else {
                let i = choose|i: int| 0 <= i < all.len() && all[i] == n;
                assert(names[i] == n);
                assert(names.contains(n));
            }
        }
        assert forall|k: int| 0 <= k < files.len() implies all.contains(
            (#[trigger] files[k]).repo,
        ) by {
            if k < files.len() - 1 {
                assert(init[k] == files[k]);
                let i = choose|i: int| 0 <= i < names.len() && names[i] == files[k].repo;
                assert(all[i] == files[k].repo);
            } else if !names.contains(files[k].repo) {
                assert(all[all.len() - 1] == files[k].repo);
            }
        }
    }
}

/// The packages of a name stand in the order of their age, the oldest first. One of them is kept,
/// and none is newer. Every other one is outdated, and older than the one that is kept.
pub proof fn law_newest_is_kept(files: Seq<PoolFileView>, k: int)
    requires
        0 <= k < files.len(),
    ensures
        repo_names(files).contains(files[k].repo),
        repo_names(files).no_duplicates(),
        ascending(by_age(files, files[k].repo)),
        by_age(files, files[k].repo).len() > 0,
        files.contains(by_age(files, files[k].repo).last()),
        by_age(files, files[k].repo).last().repo == files[k].repo,
        !older(by_age(files, files[k].repo).last(), files[k]),
        same_file(by_age(files, files[k].repo).last(), files[k]) || exists|i: int|
            0 <= i < outdated(files, files[k].repo).len() && same_file(
                #[trigger] outdated(files, files[k].repo)[i],
                files[k],
            ),
        forall|i: int|
            0 <= i < outdated(files, files[k].repo).len() ==> older(
                #[trigger] outdated(files, files[k].repo)[i],
                by_age(files, files[k].repo).last(),
            ),
{
    let repo = files[k].repo;
    let g = by_age(files, repo);
    lemma_repo_names(files);
    lemma_by_age(files, repo);
    let last = g.len() - 1;
    assert(files.contains(g[last]));
    let i = choose|i: int| 0 <= i < g.len() && same_file(#[trigger] g[i], files[k]);
    if i < last {
        assert(older(g[i], g[last]));
        assert(outdated(files, repo)[i] == g[i]);
    }
    if older(g[last], files[k]) {
        assert(older(g[last], g[i]));
        if i == last {
            law_text_order_irreflexive(g[last].path);
        } else {
            lemma_older_asymmetric(g[i], g[last]);
        }
    }
}

proof fn lemma_dropped(t: TargetView, g: Seq<PoolFileView>, i: int)
    requires
        0 <= i < drop_all(t, g).len(),
        drop_all(t, g)[i] is Remove,
    ensures
        t.cleanup,
        exists|j: int|
            0 <= j < g.len() && drop_all(t, g)[i] == StepView::Remove((#[trigger] g[j]).path),
    decreases g.len(),
{
    let rest = drop_all(t, g.drop_last());
    if i < rest.len() {
        lemma_dropped(t, g.drop_last(), i);
        let j = choose|j: int|
            0 <= j < g.drop_last().len() && rest[i] == StepView::Remove(
                (#[trigger] g.drop_last()[j]).path,
            );
        assert(drop_all(t, g)[i] == StepView::Remove(g[j].path));
    } else {
        assert(drop_all(t, g)[i] == StepView::Remove(g[g.len() - 1].path));
    }
}

/// A package is removed only where files may be removed, and only where it is outdated.
pub proof fn law_only_outdated_is_removed(
    t: TargetView,
    files: Seq<PoolFileView>,
    names: Seq<Text>,
    i: int,
)
    requires
        0 <= i < duplicate_steps(t, files, names).len(),
        duplicate_steps(t, files, names)[i] is Remove,
    ensures
        t.cleanup,
        exists|n: int, j: int|
            0 <= n < names.len() && 0 <= j < outdated(files, names[n]).len()
                && duplicate_steps(t, files, names)[i] == StepView::Remove(
                (#[trigger] outdated(files, names[n])[j]).path,
            ),
    decreases names.len(),
{
    let rest = duplicate_steps(t, files, names.drop_last());
    if i < rest.len() {
        law_only_outdated_is_removed(t, files, names.drop_last(), i);
        let (n, j) = choose|n: int, j: int|
            0 <= n < names.drop_last().len() && 0 <= j < outdated(
                files,
                names.drop_last()[n],
            ).len() && rest[i] == StepView::Remove(
                (#[trigger] outdated(files, names.drop_last()[n])[j]).path,
            );
        assert(names.drop_last()[n] == names[n]);
        assert(duplicate_steps(t, files, names)[i] == StepView::Remove(
            outdated(files, names[n])[j].path,
        ));
    } else {
        let g = outdated(files, names.last());
        lemma_dropped(t, g, i - rest.len());
        let j = choose|j: int|
            0 <= j < g.len() && drop_all(t, g)[i - rest.len()] == StepView::Remove(
                (#[trigger] g[j]).path,
            );
        assert(duplicate_steps(t, files, names)[i] == StepView::Remove(
            outdated(files, names[names.len() - 1])[j].path,
        ));
    }
}

proof fn lemma_all_dropped(t: TargetView, g: Seq<PoolFileView>, j: int)
    requires
        t.cleanup,
        0 <= j < g.len(),
    ensures
        drop_all(t, g).contains(StepView::Remove(g[j].path)),
    decreases g.len(),
{
    let rest = drop_all(t, g.drop_last());
    let all = drop_all(t, g);
    if j < g.len() - 1 {
        lemma_all_dropped(t, g.drop_last(), j);
        let i = choose|i: int| 0 <= i < rest.len() && rest[i] == StepView::Remove(g[j].path);
        assert(all[i] == StepView::Remove(g[j].path));
    } else {
        assert(all[rest.len() + 2int] == StepView::Remove(g[j].path));
    }
}

/// Where files may be removed, every package that is outdated is removed.
pub proof fn law_outdated_is_removed(
    t: TargetView,
    files: Seq<PoolFileView>,
    names: Seq<Text>,
    n: int,
    j: int,
)
    requires
        t.cleanup,
        0 <= n < names.len(),
        0 <= j < outdated(files, names[n]).len(),
    ensures
        duplicate_steps(t, files, names).contains(
            StepView::Remove(outdated(files, names[n])[j].path),
        ),
    decreases names.len(),
{
    let rest = duplicate_steps(t, files, names.drop_last());
    let all = duplicate_steps(t, files, names);
    let wanted = StepView::Remove(outdated(files, names[n])[j].path);
    if n < names.len() - 1 {
        law_outdated_is_removed(t, files, names.drop_last(), n, j);
        let i = choose|i: int| 0 <= i < rest.len() && rest[i] == wanted;
        assert(all[i] == wanted);
    } else {
        let last = drop_all(t, outdated(files, names.last()));
        lemma_all_dropped(t, outdated(files, names.last()), j);
        let i = choose|i: int| 0 <= i < last.len() && last[i] == wanted;
        assert(all[rest.len() + i] == wanted);
    }
}

/// As no directory lists a file twice, no package that is kept is removed.
pub proof fn law_kept_packages_stay(t: TargetView, files: Seq<PoolFileView>, k: int, i: int)
    requires
        forall|a: int, b: int|
            0 <= a < files.len() && 0 <= b < files.len() && (#[trigger] files[a]).path
                == (#[trigger] files[b]).path ==> a == b,
        0 <= k < files.len(),
        0 <= i < duplicate_steps(t, files, repo_names(files)).len(),
    ensures
        duplicate_steps(t, files, repo_names(files))[i] != StepView::Remove(
            by_age(files, files[k].repo).last().path,
        ),
{
    let names = repo_names(files);
    let steps = duplicate_steps(t, files, names);
    let kept = by_age(files, files[k].repo).last();
    if steps[i] == StepView::Remove(kept.path) {
        law_newest_is_kept(files, k);
        law_only_outdated_is_removed(t, files, names, i);
        let (n, j) = choose|n: int, j: int|
            0 <= n < names.len() && 0 <= j < outdated(files, names[n]).len() && steps[i]
                == StepView::Remove((#[trigger] outdated(files, names[n])[j]).path);
        let gone = outdated(files, names[n])[j];
        lemma_by_age(files, names[n]);
        lemma_repo_names(files);
        assert(names.contains(names[n]));
        assert(gone == by_age(files, names[n])[j]);
        assert(files.contains(gone));
        let a = choose|a: int| 0 <= a < files.len() && files[a] == gone;
        let b = choose|b: int| 0 <= b < files.len() && files[b] == kept;
        assert(a == b);
        assert(names[n] == files[k].repo);
        assert(older(outdated(files, files[k].repo)[j], kept));
        lemma_older_asymmetric(kept, kept);
    }
}

// ---------------------------------------------------------------------------
// The package repository
// ---------------------------------------------------------------------------

/// The step that removes the directory `name` of `dir` where it exists.
pub open spec fn clear_step(dir: Text, name: Text) -> Seq<StepView> {
    seq![
        StepView::Guard { path: joined_path(dir, name), span: 1 },
        StepView::RemoveTree(joined_path(dir, name)),
    ]
}

/// The steps that remove what an earlier build left in `dir`.
pub open spec fn clear_steps(dir: Text) -> Seq<StepView> {
    clear_step(dir, "db"@) + clear_step(dir, "dists"@) + clear_step(dir, "pool"@)
}

/// The step that builds the package repository in `dir` from the packages `debs`. A failure is
/// told, and ends the whole check without an error.
pub open spec fn build_step(h: Host, t: TargetView, debs: Seq<Text>) -> StepView {
    run_step(
        command(
            h.config.inner().reprepro_path@,
            seq!["-b"@, build_dir(h, t), "includedeb"@, t.distro] + debs,
        ),
        failure("No status code 1"@, "reprepro failed with "@, Notice::Say, Verdict::Finish),
    )
}

/// The step that uploads the package repository of a target.
pub open spec fn upload_step(h: Host, t: TargetView, aws: Text, bucket: Text) -> StepView {
    pipe_step(
        command(
            aws,
            seq![
                "s3"@,
                "sync"@,
                "--acl"@,
                "public-read"@,
                build_dir(h, t) + "/"@,
                "s3://"@ + bucket + "/deb/"@ + t.distro + "/"@ + t.dir + "/"@,
            ],
        ),
        "aws sync"@,
    )
}

/// The steps that upload the package repository, and remove it here, where there is a place to
/// upload it to.
pub open spec fn upload_steps(h: Host, t: TargetView) -> Seq<StepView> {
    match (h.config.inner().aws_path, h.config.inner().repo_bucket) {
        (Some(aws), Some(bucket)) => seq![upload_step(h, t, aws@, bucket@)] + clear_steps(
            build_dir(h, t),
        ),
        _ => seq![],
    }
}

/// The steps that build and upload the package repository where its directory and the program
/// that builds it exist.
pub open spec fn rebuild_steps(h: Host, t: TargetView, debs: Seq<Text>) -> Seq<StepView> {
    seq![StepView::Say("repo_directory "@ + path_shown(build_dir(h, t)))] + clear_steps(
        build_dir(h, t),
    ) + seq![build_step(h, t, debs)] + upload_steps(h, t)
}

/// The steps that publish the packages `debs`. Without a package nothing is published.
pub open spec fn publish_steps(h: Host, t: TargetView, debs: Seq<Text>) -> Seq<StepView> {
    let body = rebuild_steps(h, t, debs);
    if debs.len() == 0 {
        seq![]
    } else {
        seq![
            StepView::Guard { path: build_dir(h, t), span: (1 + body.len()) as usize },
            StepView::Guard { path: h.config.inner().reprepro_path@, span: body.len() as usize },
        ] + body
    }
}

/// What is done about the packages of a target.
pub open spec fn pool_steps(h: Host, t: TargetView, files: Seq<PoolFileView>) -> Seq<StepView> {
    duplicate_steps(t, files, repo_names(files)) + (if t.publish {
        publish_steps(h, t, newest_paths(files, repo_names(files)))
    } else {
        seq![]
    })
}

fn push_clear(out: &mut Vec<Step>, dir: &str, name: &str)
    ensures
        step_views(final(out)@) == step_views(old(out)@) + clear_step(dir@, name@),
{
    let path: String = join_path(dir, name);
    out.push(Step::Guard { path: path.clone(), span: 1 });
    out.push(Step::RemoveTree(path));
    proof {
        assert(step_views(out@) =~= step_views(old(out)@) + clear_step(dir@, name@));
    }
}

fn push_clears(out: &mut Vec<Step>, dir: &str)
    ensures
        step_views(final(out)@) == step_views(old(out)@) + clear_steps(dir@),
{
    push_clear(out, dir, "db");
    push_clear(out, dir, "dists");
    push_clear(out, dir, "pool");
    proof {
        assert(step_views(out@) =~= step_views(old(out)@) + clear_steps(dir@));
    }
}

fn build_command(host: &Host, t: &Target, debs: Vec<String>) -> (r: Step)
    ensures
        r@ == build_step(*host, t@, texts(debs@)),
{
    let dir: String = build_path(host, t);
    let mut args: Vec<String> = vec![
        "-b".to_string(),
        dir,
        "includedeb".to_string(),
        t.distro.clone(),
    ];
    let mut more: Vec<String> = debs;
    let ghost tail = texts(more@);
    args.append(&mut more);
    proof {
        assert(texts(args@) =~= seq!["-b"@, build_dir(*host, t@), "includedeb"@, t@.distro] + tail);
    }
    run(
        Command::new(host.config.get().reprepro_path.as_str(), args),
        new_failure("No status code 1", "reprepro failed with ", Notice::Say, Verdict::Finish),
    )
}

fn upload_command(host: &Host, t: &Target, aws: &str, bucket: &str) -> (r: Step)
    ensures
        r@ == upload_step(*host, t@, aws@, bucket@),
{
    let dir: String = build_path(host, t);
    let mut to: String = cat3("s3://", bucket, "/deb/");
    to.append(t.distro.as_str());
    to.append("/");
    to.append(t.dir.as_str());
    to.append("/");
    let args: Vec<String> = vec![
        "s3".to_string(),
        "sync".to_string(),
        "--acl".to_string(),
        "public-read".to_string(),
        cat(dir.as_str(), "/"),
        to,
    ];
    proof {
        assert(texts(args@) =~= seq![
            "s3"@,
            "sync"@,
            "--acl"@,
            "public-read"@,
            build_dir(*host, t@) + "/"@,
            "s3://"@ + bucket@ + "/deb/"@ + t@.distro + "/"@ + t@.dir + "/"@,
        ]);
    }
    pipe(Command::new(aws, args), "aws sync")
}

fn rebuild(host: &Host, t: &Target, debs: Vec<String>) -> (r: Vec<Step>)
    ensures
        step_views(r@) == rebuild_steps(*host, t@, texts(debs@)),
        r@.len() <= 15,
{
    let ghost wanted = texts(debs@);
    let mut out: Vec<Step> = Vec::new();
    let dir: String = build_path(host, t);
    let shown: String = show_path(dir.as_str());
    out.push(Step::Say(cat("repo_directory ", shown.as_str())));
    proof {
        assert(step_views(out@) =~= seq![StepView::Say("repo_directory "@ + shown@)]);
    }
    push_clears(&mut out, dir.as_str());
    let ghost sofar = step_views(out@);
    out.push(build_command(host, t, debs));
    proof {
        assert(step_views(out@) =~= sofar + seq![build_step(*host, t@, wanted)]);
    }
    match (&host.config.get().aws_path, &host.config.get().repo_bucket) {
        (Some(aws), Some(bucket)) => {
            let ghost sofar2 = step_views(out@);
            out.push(upload_command(host, t, aws.as_str(), bucket.as_str()));
            proof {
                assert(step_views(out@) =~= sofar2 + seq![
                    upload_step(*host, t@, aws@, bucket@),
                ]);
            }
            push_clears(&mut out, dir.as_str());
        },
        _ => {},
    }
    proof {
        assert(step_views(out@) =~= rebuild_steps(*host, t@, wanted));
        assert(step_views(out@).len() == out@.len());
    }
    out
}

fn publish(host: &Host, t: &Target, debs: Vec<String>) -> (r: Vec<Step>)
    ensures
        step_views(r@) == publish_steps(*host, t@, texts(debs@)),
{
    let ghost wanted = texts(debs@);
    let mut out: Vec<Step> = Vec::new();
    proof {
        assert(wanted.len() == debs@.len());
    }
    if debs.len() == 0 {
        proof {
            assert(step_views(out@) =~= publish_steps(*host, t@, wanted));
        }
        return out;
    }
    let body: Vec<Step> = rebuild(host, t, debs);
    let n: usize = body.len();
    proof {
        assert(step_views(body@).len() == n);
    }
    let dir: String = build_path(host, t);
    out.push(Step::Guard { path: dir, span: 1 + n });
    out.push(Step::Guard { path: host.config.get().reprepro_path.clone(), span: n });
    let r: Vec<Step> = chain(out, body);
    proof {
        assert(step_views(r@) =~= publish_steps(*host, t@, wanted));
    }
    r
}

// ---------------------------------------------------------------------------
// The steps
// ---------------------------------------------------------------------------

/// What a step of the check asks for.
pub open spec fn repo_ask(h: Host, s: RepoStepView) -> ActionView {
    match s {
        RepoStepView::Enter(t) => ActionView::Exists(distro_dir(h, t)),
        RepoStepView::Devel(t) => ActionView::Exists(devel_dir(h, t)),
        RepoStepView::OpenDevel(t) => ActionView::OpenDir(devel_dir(h, t)),
        RepoStepView::ScanDevel { .. } => ActionView::NextEntry,
        RepoStepView::ShowLog { dir, name, .. } => ActionView::ReadEntry { dir, name },
        RepoStepView::DropLog { dir, name } => ActionView::RemoveEntry { dir, name },
        RepoStepView::OpenPool(t) => ActionView::OpenDir(distro_dir(h, t)),
        RepoStepView::ScanPool { .. } => ActionView::NextEntry,
        RepoStepView::StatPool { .. } => ActionView::EntryModified,
    }
}

/// Whether an event answers a step of the check. A build log has to have as many lines as are
/// shown.
pub open spec fn repo_accepts(s: RepoStepView, e: EventView) -> bool {
    match s {
        RepoStepView::Enter(_) | RepoStepView::Devel(_) => e is Answer,
        RepoStepView::OpenDevel(_) | RepoStepView::OpenPool(_) => e is Done,
        RepoStepView::DropLog { .. } => e is Done,
        RepoStepView::ScanDevel { .. } | RepoStepView::ScanPool { .. } => e is Entry || e is End,
        RepoStepView::ShowLog { .. } => e matches EventView::Text(text) && lines(text).len()
            >= LOG_LINES,
        RepoStepView::StatPool { .. } => e is Seconds,
    }
}

/// One step of the check.
pub open spec fn one(s: RepoStepView) -> Seq<StepView> {
    seq![StepView::Repo(s)]
}

/// The steps that follow from the answer to a step of the check.
pub open spec fn repo_expand(h: Host, s: RepoStepView, e: EventView) -> Seq<StepView> {
    match (s, e) {
        (RepoStepView::Enter(t), EventView::Answer(true)) => one(RepoStepView::Devel(t)),
        (RepoStepView::Devel(t), EventView::Answer(found)) => (if found {
            one(RepoStepView::OpenDevel(t))
        } else {
            seq![]
        }) + seq![
            StepView::Say("distro_deb directory "@ + t.distro),
            StepView::Repo(RepoStepView::OpenPool(t)),
        ],
        (RepoStepView::OpenDevel(t), EventView::Done) => one(
            RepoStepView::ScanDevel { target: t, seen: seq![] },
        ),
        (RepoStepView::ScanDevel { target, seen }, EventView::Entry(name)) => one(
            RepoStepView::ScanDevel { target, seen: seen.push(name) },
        ),
        (RepoStepView::ScanDevel { target, seen }, EventView::End) => devel_steps(h, target, seen),
        (RepoStepView::ShowLog { dir, name, cleanup }, EventView::Text(text)) => say_all(
            log_tail(text),
        ) + (if cleanup {
            one(RepoStepView::DropLog { dir, name })
        } else {
            seq![]
        }),
        (RepoStepView::OpenPool(t), EventView::Done) => one(
            RepoStepView::ScanPool { target: t, found: seq![] },
        ),
        (RepoStepView::ScanPool { target, found }, EventView::Entry(name)) => match decoded(name) {
            Some(file) => one(RepoStepView::StatPool { target, file, found }),
            None => one(RepoStepView::ScanPool { target, found }),
        },
        (RepoStepView::ScanPool { target, found }, EventView::End) => pool_steps(h, target, found),
        (RepoStepView::StatPool { target, file, found }, EventView::Seconds(mtime)) => one(
            RepoStepView::ScanPool {
                target,
                found: found.push(pool_file(h, target, file, mtime)),
            },
        ),
        _ => seq![],
    }
}

/// What a step of the check asks for.
pub fn repo_action(host: &Host, s: &RepoStep) -> (r: Action)
    ensures
        r@ == repo_ask(*host, s@),
{
    match s {
        RepoStep::Enter(t) => Action::Exists(distro_path(host, t)),
        RepoStep::Devel(t) => Action::Exists(devel_path(host, t)),
        RepoStep::OpenDevel(t) => Action::OpenDir(devel_path(host, t)),
        RepoStep::ScanDevel { .. } => Action::NextEntry,
        RepoStep::ShowLog { dir, name, .. } => Action::ReadEntry {
            dir: dir.clone(),
            name: name.clone(),
        },
        RepoStep::DropLog { dir, name } => Action::RemoveEntry {
            dir: dir.clone(),
            name: name.clone(),
        },
        RepoStep::OpenPool(t) => Action::OpenDir(distro_path(host, t)),
        RepoStep::ScanPool { .. } => Action::NextEntry,
        RepoStep::StatPool { .. } => Action::EntryModified,
    }
}

/// Whether an event answers a step of the check.
pub fn repo_admits(s: &RepoStep, e: &Event) -> (r: bool)
    ensures
        r == repo_accepts(s@, e@),
{
    match s {
        RepoStep::Enter(_) | RepoStep::Devel(_) => matches!(e, Event::Answer(_)),
        RepoStep::OpenDevel(_) | RepoStep::OpenPool(_) => matches!(e, Event::Done),
        RepoStep::DropLog { .. } => matches!(e, Event::Done),
        RepoStep::ScanDevel { .. } | RepoStep::ScanPool { .. } => matches!(
            e,
            Event::Entry(_) | Event::End
        ),
        RepoStep::ShowLog { .. } => match e {
            Event::Text(text) => long_enough(text.as_str()),
            _ => false,
        },
        RepoStep::StatPool { .. } => matches!(e, Event::Seconds(_)),
    }
}

fn just(s: RepoStep) -> (r: Vec<Step>)
    ensures
        step_views(r@) == one(s@),
{
    let mut out: Vec<Step> = Vec::new();
    out.push(Step::Repo(s));
    proof {
        assert(step_views(out@) =~= one(s@));
    }
    out
}

/// The steps that follow from the answer to a step of the check.
pub fn repo_next(host: &Host, s: RepoStep, e: Event) -> (r: Vec<Step>)
    requires
        repo_accepts(s@, e@),
    ensures
        step_views(r@) == repo_expand(*host, s@, e@),
{
    let ghost expected = repo_expand(*host, s@, e@);
    let out: Vec<Step> = match (s, e) {
        (RepoStep::Enter(t), Event::Answer(true)) => just(RepoStep::Devel(t)),
        (RepoStep::Devel(t), Event::Answer(found)) => {
            let mut out: Vec<Step> = Vec::new();
            if found {
                out.push(Step::Repo(RepoStep::OpenDevel(t.copy())));
            }
            out.push(Step::Say(cat("distro_deb directory ", t.distro.as_str())));
            out.push(Step::Repo(RepoStep::OpenPool(t)));
            out
        },
        (RepoStep::OpenDevel(t), Event::Done) => {
            let seen: Vec<Vec<u8>> = Vec::new();
            proof {
                assert(byte_strings(seen@) =~= Seq::<Seq<u8>>::empty());
            }
            just(RepoStep::ScanDevel { target: t, seen })
        },
        (RepoStep::ScanDevel { target, seen }, Event::Entry(name)) => {
            let mut seen: Vec<Vec<u8>> = seen;
            let ghost earlier = byte_strings(seen@);
            seen.push(name);
            proof {
                assert(byte_strings(seen@) =~= earlier.push(name@));
            }
            just(RepoStep::ScanDevel { target, seen })
        },
        (RepoStep::ScanDevel { target, seen }, Event::End) => {
            let a: Vec<Step> = logs(host, &target, &seen);
            let b: Vec<Step> = debs(host, &target, &seen);
            chain(a, b)
        },
        (RepoStep::ShowLog { dir, name, cleanup }, Event::Text(text)) => {
            let a: Vec<Step> = show_tail(text.as_str());
            if cleanup {
                chain(a, just(RepoStep::DropLog { dir, name }))
            } else {
                a
            }
        },
        (RepoStep::OpenPool(t), Event::Done) => {
            let found: Vec<PoolFile> = Vec::new();
            proof {
                assert(pool_files(found@) =~= Seq::<PoolFileView>::empty());
            }
            just(RepoStep::ScanPool { target: t, found })
        },
        (RepoStep::ScanPool { target, found }, Event::Entry(name)) => match utf8_text(
            name.as_slice(),
        ) {
            Some(file) => just(RepoStep::StatPool { target, file, found }),
            None => just(RepoStep::ScanPool { target, found }),
        },
        (RepoStep::ScanPool { target, found }, Event::End) => {
            let (a, newest) = sort_out(&target, &found);
            if target.publish {
                let b: Vec<Step> = publish(host, &target, newest);
                chain(a, b)
            } else {
                a
            }
        },
        (RepoStep::StatPool { target, file, found }, Event::Seconds(mtime)) => {
            let mut found: Vec<PoolFile> = found;
            let ghost earlier = pool_files(found@);
            let dir: String = distro_path(host, &target);
            let stem: String = stem_of(file.as_str());
            let repo: String = text_before(stem.as_str(), '_');
            let item: PoolFile = PoolFile {
                mtime,
                path: join_path(dir.as_str(), file.as_str()),
                repo,
            };
            found.push(item);
            proof {
                assert(pool_files(found@) =~= earlier.push(item@));
            }
            just(RepoStep::ScanPool { target, found })
        },
        _ => Vec::new(),
    };
    proof {
        assert(step_views(out@) =~= expected);
    }
    out
}

/// The step that enters a package directory.
pub open spec fn enter_step(distro: Text, dir: Text, cleanup: bool, publish: bool) -> StepView {
    StepView::Repo(RepoStepView::Enter(TargetView { distro, dir, cleanup, publish }))
}

/// The steps that enter the package directories of one distribution.
pub open spec fn enter_dirs(
    distro: Text,
    dirs: Seq<Text>,
    cleanup: bool,
    publish: bool,
) -> Seq<StepView> {
    dirs.map_values(|dir: Text| enter_step(distro, dir, cleanup, publish))
}

/// The steps that enter the package directories of all distributions.
pub open spec fn enter_all(
    distros: Seq<Text>,
    dirs: Seq<Text>,
    cleanup: bool,
    publish: bool,
) -> Seq<StepView>
    decreases distros.len(),
{
    if distros.len() == 0 {
        seq![]
    } else {
        enter_all(distros.drop_last(), dirs, cleanup, publish) + enter_dirs(
            distros.last(),
            dirs,
            cleanup,
            publish,
        )
    }
}

/// The steps of the check: each package directory of each distribution in turn.
pub open spec fn check_repo_steps(h: Host, cleanup: bool, publish: bool) -> Seq<StepView> {
    enter_all(
        texts(h.config.inner().distros@),
        texts(h.config.inner().repo_directories@),
        cleanup,
        publish,
    )
}

/// The steps of the check: each package directory of each distribution in turn.
pub fn plan_check(host: &Host, cleanup: bool, publish: bool) -> (r: Vec<Step>)
    ensures
        step_views(r@) == check_repo_steps(*host, cleanup, publish),
{
    let distros: &Vec<String> = &host.config.get().distros;
    let dirs: &Vec<String> = &host.config.get().repo_directories;
    let ghost ds = texts(distros@);
    let ghost rs = texts(dirs@);
    let mut out: Vec<Step> = Vec::new();
    let mut i: usize = 0;
    proof {
        assert(step_views(out@) =~= enter_all(ds.take(0), rs, cleanup, publish));
    }
    while i < distros.len()
        invariant
            0 <= i <= distros@.len(),
            ds == texts(distros@),
            rs == texts(dirs@),
            step_views(out@) == enter_all(ds.take(i as int), rs, cleanup, publish),
        decreases distros@.len() - i,
    {
        let ghost sofar = step_views(out@);
        let ghost distro = ds[i as int];
        let mut j: usize = 0;
        proof {
            assert(sofar + enter_dirs(distro, rs.take(0), cleanup, publish) =~= sofar);
        }
        while j < dirs.len()
            invariant
                0 <= i < distros@.len(),
                0 <= j <= dirs@.len(),
                rs == texts(dirs@),
                distro == distros@[i as int]@,
                step_views(out@) == sofar + enter_dirs(
                    distro,
                    rs.take(j as int),
                    cleanup,
                    publish,
                ),
            decreases dirs@.len() - j,
        {
            let ghost earlier = step_views(out@);
            let target: Target = Target {
                distro: distros[i].clone(),
                dir: dirs[j].clone(),
                cleanup,
                publish,
            };
            out.push(Step::Repo(RepoStep::Enter(target)));
            proof {
                assert(step_views(out@) =~= earlier.push(
                    enter_step(distro, rs[j as int], cleanup, publish),
                ));
                assert(enter_dirs(distro, rs.take(j + 1), cleanup, publish) =~= enter_dirs(
                    distro,
                    rs.take(j as int),
                    cleanup,
                    publish,
                ).push(enter_step(distro, rs[j as int], cleanup, publish)));
                assert(step_views(out@) =~= sofar + enter_dirs(
                    distro,
                    rs.take(j + 1),
                    cleanup,
                    publish,
                ));
            }
            j += 1;
        }
        proof {
            assert(rs.take(j as int) =~= rs);
            assert(ds.take(i + 1).drop_last() =~= ds.take(i as int));
            assert(ds.take(i + 1).last() == distro);
        }
        i += 1;
    }
    proof {
        assert(ds.take(i as int) =~= ds);
    }
    out
}

} // verus!
