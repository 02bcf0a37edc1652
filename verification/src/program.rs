//! What follows from the way in which a program ended.

use vstd::prelude::*;
use vstd::utf8::{decode_utf8, valid_utf8};

use crate::action::{Command, CommandView};
use crate::host::Host;
use crate::number::{decimal, decimal_text};
use crate::outside::{lossy, lossy_text};
use crate::step::{
    opt_failure, step_views, Failure, FailureView, Notice, Step, StepView, Verdict,
};
use crate::text::{cat, opt_text, texts, trim_newlines, without_newlines, Text};

verus! {

/// A command with these arguments, in the current directory.
pub open spec fn command(program: Text, args: Seq<Text>) -> CommandView {
    CommandView { program, args, dir: None }
}

/// A command with these arguments, in the directory `dir`.
pub open spec fn command_in(dir: Text, program: Text, args: Seq<Text>) -> CommandView {
    CommandView { program, args, dir: Some(dir) }
}

/// Whether a program succeeded: it ended with the exit code zero.
pub open spec fn succeeded(code: Option<i32>) -> bool {
    code == Some(0i32)
}

/// A failure that is told to `notice`, with `prefix` before the exit code.
pub open spec fn failure(
    missing: Text,
    prefix: Text,
    notice: Notice,
    verdict: Verdict,
) -> FailureView {
    FailureView { missing, prefix, notice, cleanup: None, verdict }
}

/// What is said of a program that ended with the exit code `code`.
pub open spec fn failure_message(f: FailureView, code: i32) -> Text {
    f.prefix + decimal(code as int)
}

/// What follows from the end of a program. Nothing where it succeeded or its end does not
/// matter; the end of the script where it has no exit code; else a message, a file to remove,
/// and the end of the script, as far as they are called for.
pub open spec fn failure_steps(
    on_failure: Option<FailureView>,
    code: Option<i32>,
) -> Seq<StepView> {
    match (on_failure, code) {
        (None, _) => seq![],
        (Some(f), None) => seq![StepView::Halt(Some(f.missing))],
        (Some(f), Some(c)) => if c == 0 {
            seq![]
        } else {
            let message = failure_message(f, c);
            notice_steps(f.notice, message) + cleanup_steps(f.cleanup) + verdict_steps(
                f.verdict,
                message,
            )
        },
    }
}

pub open spec fn notice_steps(notice: Notice, message: Text) -> Seq<StepView> {
    match notice {
        Notice::Quiet => seq![],
        Notice::Say => seq![StepView::Say(message)],
        Notice::Log => seq![StepView::Log(message)],
    }
}

pub open spec fn cleanup_steps(cleanup: Option<Text>) -> Seq<StepView> {
    match cleanup {
        Some(path) => seq![StepView::Remove(path)],
        None => seq![],
    }
}

pub open spec fn verdict_steps(verdict: Verdict, message: Text) -> Seq<StepView> {
    match verdict {
        Verdict::Continue => seq![],
        Verdict::Finish => seq![StepView::Halt(None)],
        Verdict::Fail => seq![StepView::Halt(Some(message))],
    }
}

/// A failure without a file to remove.
pub fn new_failure(missing: &str, prefix: &str, notice: Notice, verdict: Verdict) -> (r: Failure)
    ensures
        r@ == failure(missing@, prefix@, notice, verdict),
{
    Failure {
        missing: missing.to_string(),
        prefix: prefix.to_string(),
        notice,
        cleanup: None,
        verdict,
    }
}

/// What follows from the end of a program.
pub fn after_exit(on_failure: Option<Failure>, code: Option<i32>) -> (r: Vec<Step>)
    ensures
        step_views(r@) == failure_steps(opt_failure(on_failure), code),
{
    let mut out: Vec<Step> = Vec::new();
    let ghost expected = failure_steps(opt_failure(on_failure), code);
    match on_failure {
        None => {},
        Some(f) => match code {
            None => {
                out.push(Step::Halt(Some(f.missing)));
            },
            Some(c) => {
                if c != 0 {
                    let number: String = decimal_text(c as i64);
                    let message: String = cat(f.prefix.as_str(), number.as_str());
                    match f.notice {
                        Notice::Quiet => {},
                        Notice::Say => {
                            out.push(Step::Say(message.clone()));
                        },
                        Notice::Log => {
                            out.push(Step::Log(message.clone()));
                        },
                    }
                    match f.cleanup {
                        Some(path) => {
                            out.push(Step::Remove(path));
                        },
                        None => {},
                    }
                    match f.verdict {
                        Verdict::Continue => {},
                        Verdict::Finish => {
                            out.push(Step::Halt(None));
                        },
                        Verdict::Fail => {
                            out.push(Step::Halt(Some(message)));
                        },
                    }
                }
            },
        },
    }
    proof {
        assert(step_views(out@) =~= expected);
    }
    out
}

/// What a program whose output is passed on means to a script: its failure is told, under
/// `label`, and ends the script.
pub open spec fn child_failure(label: Text) -> FailureView {
    failure("No status code 0 "@ + label, label + " failed with "@, Notice::Say, Verdict::Fail)
}

/// What the failure of a program whose output is passed on means, under `label`.
pub fn process_child(label: &str) -> (r: Failure)
    ensures
        r@ == child_failure(label@),
{
    let missing: String = cat("No status code 0 ", label);
    let prefix: String = cat(label, " failed with ");
    new_failure(missing.as_str(), prefix.as_str(), Notice::Say, Verdict::Fail)
}

/// The step that runs `command` and passes on what it writes, under `label`.
pub open spec fn pipe_step(command: CommandView, label: Text) -> StepView {
    StepView::Pipe { command, on_failure: Some(child_failure(label)) }
}

/// The step that runs `command` and passes on what it writes, under `label`.
pub fn pipe(command: Command, label: &str) -> (r: Step)
    ensures
        r@ == pipe_step(command@, label@),
{
    Step::Pipe { command, on_failure: Some(process_child(label)) }
}

/// The step that runs `command` on the terminal.
pub open spec fn run_step(command: CommandView, on_failure: FailureView) -> StepView {
    StepView::Run { command, on_failure: Some(on_failure) }
}

/// The step that runs `command` on the terminal.
pub fn run(command: Command, on_failure: Failure) -> (r: Step)
    ensures
        r@ == run_step(command@, on_failure@),
{
    Step::Run { command, on_failure: Some(on_failure) }
}

/// What is passed on of the next piece of a program's output, which goes up to the end of a line.
/// Nothing more is passed on where it could not be read, or there is none.
pub open spec fn passed_on(piece: Option<Seq<u8>>) -> Option<Text> {
    match piece {
        Some(bytes) => if bytes.len() > 0 {
            Some(without_newlines(lossy_text(bytes)))
        } else {
            None
        },
        None => None,
    }
}

/// What is passed on of the next piece of a program's output.
pub fn process_reader(piece: Option<&[u8]>) -> (r: Option<String>)
    ensures
        opt_text(r) == passed_on(
            match piece {
                Some(bytes) => Some(bytes@),
                None => None,
            },
        ),
        piece matches Some(bytes) ==> (bytes@.len() > 0 && valid_utf8(bytes@) ==> opt_text(r)
            == Some(without_newlines(decode_utf8(bytes@)))),
{
    match piece {
        Some(bytes) => {
            if bytes.len() > 0 {
                let text: String = lossy(bytes);
                Some(trim_newlines(text.as_str()))
            } else {
                None
            }
        },
        None => None,
    }
}

/// The list of these arguments.
pub fn args1(a: &str) -> (r: Vec<String>)
    ensures
        texts(r@) == seq![a@],
{
    let out: Vec<String> = vec![a.to_string()];
    proof {
        assert(texts(out@) =~= seq![a@]);
    }
    out
}

/// The list of these arguments.
pub fn args2(a: &str, b: &str) -> (r: Vec<String>)
    ensures
        texts(r@) == seq![a@, b@],
{
    let out: Vec<String> = vec![a.to_string(), b.to_string()];
    proof {
        assert(texts(out@) =~= seq![a@, b@]);
    }
    out
}

/// The list of these arguments.
pub fn args3(a: &str, b: &str, c: &str) -> (r: Vec<String>)
    ensures
        texts(r@) == seq![a@, b@, c@],
{
    let out: Vec<String> = vec![a.to_string(), b.to_string(), c.to_string()];
    proof {
        assert(texts(out@) =~= seq![a@, b@, c@]);
    }
    out
}

/// The list of these arguments.
pub fn args5(a: &str, b: &str, c: &str, d: &str, e: &str) -> (r: Vec<String>)
    ensures
        texts(r@) == seq![a@, b@, c@, d@, e@],
{
    let out: Vec<String> = vec![
        a.to_string(),
        b.to_string(),
        c.to_string(),
        d.to_string(),
        e.to_string(),
    ];
    proof {
        assert(texts(out@) =~= seq![a@, b@, c@, d@, e@]);
    }
    out
}

/// The command that sends a message by Telegram.
pub open spec fn telegram(h: Host, message: Text) -> CommandView {
    command(
        h.config.inner().send_to_telegram_path@,
        seq!["-r"@, "ddboline"@, "-m"@, message],
    )
}

/// The step that sends a message by Telegram. Its failure ends the script.
pub open spec fn telegram_step(h: Host, message: Text, missing: Text) -> StepView {
    run_step(
        telegram(h, message),
        failure(missing, "send-to-telegram failed with "@, Notice::Quiet, Verdict::Fail),
    )
}

/// The step that sends a message by Telegram.
pub fn send_message(host: &Host, message: &str, missing: &str) -> (r: Step)
    ensures
        r@ == telegram_step(*host, message@, missing@),
{
    let args: Vec<String> = vec![
        "-r".to_string(),
        "ddboline".to_string(),
        "-m".to_string(),
        message.to_string(),
    ];
    proof {
        assert(texts(args@) =~= seq!["-r"@, "ddboline"@, "-m"@, message@]);
    }
    run(
        Command::new(host.config.get().send_to_telegram_path.as_str(), args),
        new_failure(missing, "send-to-telegram failed with ", Notice::Quiet, Verdict::Fail),
    )
}

/// Nothing follows where a program succeeded.
pub proof fn law_success_is_silent(on_failure: Option<FailureView>, code: Option<i32>)
    requires
        succeeded(code),
    ensures
        failure_steps(on_failure, code).len() == 0,
{
}

/// A program whose output is passed on either succeeded, or the script ends in failure.
pub proof fn law_child_failure_ends(label: Text, code: Option<i32>)
    requires
        !succeeded(code),
    ensures
        failure_steps(Some(child_failure(label)), code).last() == StepView::Halt(
            Some(
                match code {
                    Some(c) => label + " failed with "@ + decimal(c as int),
                    None => "No status code 0 "@ + label,
                },
            ),
        ),
{
}

} // verus!
