//! The encrypted file that keeps the passwords: it is decrypted, shown, sent or edited, and what
//! was decrypted is removed.

use vstd::prelude::*;
use vstd::utf8::{
    encode_utf8, encode_utf8_decode_utf8, encode_utf8_valid_utf8, is_ascii_chars_encode_utf8,
};

use crate::action::{Action, ActionView, Command, CommandView, Event, EventView};
use crate::host::Host;
use crate::order::{
    law_text_order_inside, law_text_order_irreflexive, law_text_order_transitive,
    lemma_encode_adds, text_before_text, text_less,
};
use crate::outside::{
    comes_before, day_of, decoded, is_calendar_time, is_common_time, path_shown, show_path,
    utc_date, utc_date_text, utf8_text,
};
use crate::passwords::{are_passwords, create_passwords, get_random_string, is_token};
use crate::path::{
    extension_is, has_extension, join_path, joined_path, last_dot, lemma_last_dot,
};
use crate::program::{
    args2, args5, command, failure, new_failure, run, run_step, send_message, telegram_step,
};
use crate::search::{begins, contains, ends, ends_with, occurs, starts_with};
use crate::step::{
    byte_strings, chain, step_views, Edit, EditView, Failure, FailureView, Notice, PasswordStep,
    PasswordStepView, Purpose, PurposeView, Step, StepView, Verdict,
};
use crate::text::{cat, cat3, cat5, join_texts, joined, opt_text, text_eq, texts, Text};

verus! {

// ---------------------------------------------------------------------------
// The current file
// ---------------------------------------------------------------------------

/// The name of a directory entry, if it is the name of a password file.
pub open spec fn password_file(name: Seq<u8>) -> Option<Text> {
    match decoded(name) {
        Some(file) => if has_extension(name, "asc"@) && starts_with(file, "passwords"@)
            && ends_with(file, ".txt.asc"@) {
            Some(file)
        } else {
            None
        },
        None => None,
    }
}

/// The password file whose name comes last, if there is one.
pub open spec fn current_file(names: Seq<Seq<u8>>) -> Option<Text>
    decreases names.len(),
{
    if names.len() == 0 {
        None
    } else {
        let best = current_file(names.drop_last());
        match (best, password_file(names.last())) {
            (_, None) => best,
            (None, Some(file)) => Some(file),
            (Some(b), Some(file)) => if text_before_text(b, file) {
                Some(file)
            } else {
                Some(b)
            },
        }
    }
}

fn is_password_file(name: &Vec<u8>) -> (r: Option<String>)
    ensures
        opt_text(r) == password_file(name@),
{
    match utf8_text(name.as_slice()) {
        Some(file) => {
            if extension_is(name, "asc") && begins(file.as_str(), "passwords") && ends(
                file.as_str(),
                ".txt.asc",
            ) {
                Some(file)
            } else {
                None
            }
        },
        None => None,
    }
}

/// The password file whose name comes last among the entries of a directory.
pub fn get_current_password_file(names: &Vec<Vec<u8>>) -> (r: Option<String>)
    ensures
        opt_text(r) == current_file(byte_strings(names@)),
{
    let ghost all = byte_strings(names@);
    let mut best: Option<String> = None;
    let mut i: usize = 0;
    while i < names.len()
        invariant
            0 <= i <= names@.len(),
            all == byte_strings(names@),
            opt_text(best) == current_file(all.take(i as int)),
        decreases names@.len() - i,
    {
        proof {
            assert(all.take(i + 1).drop_last() =~= all.take(i as int));
            assert(all.take(i + 1).last() == names@[i as int]@);
        }
        match is_password_file(&names[i]) {
            Some(file) => {
                let later: bool = match &best {
                    Some(b) => text_less(b.as_str(), file.as_str()),
                    None => true,
                };
                if later {
                    best = Some(file);
                }
            },
            None => {},
        }
        i += 1;
    }
    proof {
        assert(all.take(i as int) =~= all);
    }
    best
}

/// There is a current file exactly where there is a password file. It is one of them, and no other
/// comes after it.
pub proof fn law_current_file(names: Seq<Seq<u8>>)
    ensures
        current_file(names) is None <==> forall|i: int|
            0 <= i < names.len() ==> password_file(#[trigger] names[i]) is None,
        current_file(names) matches Some(f) ==> {
            &&& exists|i: int| 0 <= i < names.len() && password_file(#[trigger] names[i]) == Some(f)
            &&& forall|i: int|
                0 <= i < names.len() ==> (password_file(#[trigger] names[i]) matches Some(g)
                    ==> !text_before_text(f, g))
        },
    decreases names.len(),
{
    if names.len() > 0 {
        let rest = names.drop_last();
        let last = names.last();
        law_current_file(rest);
        assert forall|i: int| 0 <= i < rest.len() implies rest[i] == #[trigger] names[i] by {}
        match (current_file(rest), password_file(last)) {
            (None, None) => {},
            (Some(b), None) => {
                let i = choose|i: int|
                    0 <= i < rest.len() && password_file(#[trigger] rest[i]) == Some(b);
                assert(password_file(names[i]) == Some(b));
            },
            (None, Some(g)) => {
                law_text_order_irreflexive(g);
                assert(password_file(names[names.len() - 1]) == Some(g));
                assert forall|i: int| 0 <= i < names.len() implies (password_file(
                    #[trigger] names[i],
                ) matches Some(x) ==> !text_before_text(g, x)) by {
                    if i < rest.len() {
                        assert(password_file(rest[i]) is None);
                    }
                }
            },
            (Some(b), Some(g)) => {
                let k = choose|i: int|
                    0 <= i < rest.len() && password_file(#[trigger] rest[i]) == Some(b);
                assert(password_file(names[k]) == Some(b));
                assert(password_file(names[names.len() - 1]) == Some(g));
                law_text_order_irreflexive(g);
                assert forall|i: int| 0 <= i < names.len() implies (password_file(
                    #[trigger] names[i],
                ) matches Some(x) ==> !text_before_text(current_file(names)->0, x)) by {
                    if i < rest.len() {
                        assert(rest[i] == names[i]);
                        if password_file(rest[i]) is Some {
                            let x = password_file(rest[i])->0;
                            assert(!text_before_text(b, x));
                            if text_before_text(b, g) && text_before_text(g, x) {
                                law_text_order_transitive(b, g, x);
                            }
                        }
                    }
                }
            },
        }
    }
}

/// The name of the file to which passwords are encrypted on `date`, if no other was given.
pub open spec fn dated_name(date: Text) -> Text {
    "passwords_"@ + date + ".txt.asc"@
}

/// The file to which passwords are encrypted is a password file.
pub proof fn law_encrypted_file_is_found(date: Text)
    ensures
        password_file(encode_utf8(dated_name(date))) == Some(dated_name(date)),
{
    let name = dated_name(date);
    let bytes = encode_utf8(name);
    let tail = encode_utf8(".txt.asc"@);
    let n = bytes.len() as int;
    reveal_strlit(".txt.asc");
    reveal_strlit("asc");
    reveal_strlit("passwords_");
    reveal_strlit("passwords");
    is_ascii_chars_encode_utf8(".txt.asc"@);
    is_ascii_chars_encode_utf8("asc"@);
    lemma_encode_adds("passwords_"@ + date, ".txt.asc"@);
    assert(tail.len() == 8);
    assert(".txt.asc"@[4] as u8 == tail[4] && tail[4] == 46);
    assert(".txt.asc"@[5] as u8 == tail[5] && tail[5] == 97);
    assert(".txt.asc"@[6] as u8 == tail[6] && tail[6] == 115);
    assert(".txt.asc"@[7] as u8 == tail[7] && tail[7] == 99);
    assert(bytes[n - 4] == tail[4]);
    assert(bytes[n - 3] == tail[5]);
    assert(bytes[n - 2] == tail[6]);
    assert(bytes[n - 1] == tail[7]);
    lemma_last_dot(bytes);
    assert(last_dot(bytes) == n - 4);
    let ext = encode_utf8("asc"@);
    assert("asc"@[0] as u8 == ext[0] && "asc"@[1] as u8 == ext[1] && "asc"@[2] as u8 == ext[2]);
    assert(bytes.skip(n - 3) =~= ext);
    encode_utf8_valid_utf8(name);
    encode_utf8_decode_utf8(name);
    assert(name.subrange(0, 9) =~= "passwords"@);
    assert(name.subrange(name.len() - 8, name.len() as int) =~= ".txt.asc"@);
}

/// A file that is encrypted on a later date comes after those of earlier dates.
pub proof fn law_later_file_comes_last(earlier: Text, later: Text)
    requires
        text_before_text(earlier, later),
        encode_utf8(earlier).len() == encode_utf8(later).len(),
    ensures
        text_before_text(dated_name(earlier), dated_name(later)),
{
    law_text_order_inside("passwords_"@, earlier, later, ".txt.asc"@);
}

/// A file that is encrypted is the current file from then on, unless a file comes after it.
pub proof fn law_encrypted_file_is_current(names: Seq<Seq<u8>>, date: Text)
    requires
        current_file(names) matches Some(file) ==> text_before_text(file, dated_name(date)),
    ensures
        current_file(names.push(encode_utf8(dated_name(date)))) == Some(dated_name(date)),
{
    law_encrypted_file_is_found(date);
    assert(names.push(encode_utf8(dated_name(date))).drop_last() =~= names);
}

/// Whether the name of the file to which passwords are encrypted at this time comes after that of
/// every earlier day, from the year 0 on.
pub open spec fn follows_earlier_days(seconds: i64) -> bool {
    is_common_time(seconds as int) ==> forall|earlier: i64|
        is_common_time(earlier as int) && day_of(earlier as int) < day_of(seconds as int)
            ==> text_before_text(
            dated_name(#[trigger] utc_date_text(earlier)),
            dated_name(utc_date_text(seconds)),
        )
}

/// A file that is encrypted on a later day takes the place of the current one. That names follow
/// the days is known of every time that a script was told.
pub proof fn law_later_day_is_current(names: Seq<Seq<u8>>, earlier: i64, later: i64)
    ensures
        follows_earlier_days(later) && is_common_time(earlier as int) && is_common_time(
            later as int,
        ) && day_of(earlier as int) < day_of(later as int) && current_file(names) == Some(
            dated_name(utc_date_text(earlier)),
        ) ==> current_file(names.push(encode_utf8(dated_name(utc_date_text(later))))) == Some(
            dated_name(utc_date_text(later)),
        ),
{
    if follows_earlier_days(later) && is_common_time(earlier as int) && is_common_time(
        later as int,
    ) && day_of(earlier as int) < day_of(later as int) && current_file(names) == Some(
        dated_name(utc_date_text(earlier)),
    ) {
        law_encrypted_file_is_current(names, utc_date_text(later));
    }
}

/// The date, in UTC, of a time.
fn dated(seconds: i64) -> (r: String)
    requires
        is_calendar_time(seconds as int),
    ensures
        r@ == utc_date_text(seconds),
        follows_earlier_days(seconds),
{
    let date: String = utc_date(seconds);
    proof {
        if is_common_time(seconds as int) {
            assert forall|earlier: i64|
                is_common_time(earlier as int) && day_of(earlier as int) < day_of(
                    seconds as int,
                ) implies text_before_text(
                dated_name(#[trigger] utc_date_text(earlier)),
                dated_name(utc_date_text(seconds)),
            ) by {
                assert(comes_before(utc_date_text(earlier), date@));
                law_later_file_comes_last(utc_date_text(earlier), utc_date_text(seconds));
            }
        }
    }
    date
}

// ---------------------------------------------------------------------------
// Programs
// ---------------------------------------------------------------------------

/// Where the decrypted passwords are kept for as long as they are needed.
pub open spec fn plain_path(date: Text, token: Text) -> Text {
    "/tmp/passwords_"@ + date + "_"@ + token + ".txt"@
}

/// Where the passwords are encrypted on `date`, if no other place was given.
pub open spec fn dated_file(h: Host, date: Text) -> Text {
    joined_path(h.config.inner().password_directory@, dated_name(date))
}

/// What a program that has failed while there are decrypted passwords means: they are removed, and
/// the script has failed.
pub open spec fn failure_with_cleanup(missing: Text, prefix: Text, plain: Text) -> FailureView {
    FailureView {
        missing,
        prefix,
        notice: Notice::Quiet,
        cleanup: Some(plain),
        verdict: Verdict::Fail,
    }
}

/// The command that decrypts the file `file`.
pub open spec fn decrypt_command(file: Text, plain: Text) -> CommandView {
    command("gpg"@, seq!["--quiet"@, "--output"@, plain, "-d"@, file])
}

/// The command that opens the decrypted passwords in an editor.
pub open spec fn edit_command(plain: Text) -> CommandView {
    command("emacs"@, seq!["-nw"@, plain])
}

/// The command that encrypts the decrypted passwords to the file `file`.
pub open spec fn encrypt_command(edit: EditView, plain: Text, file: Text) -> CommandView {
    command(
        "gpg"@,
        seq!["-aes"@, "-r"@, edit.gpg_key, "-u"@, edit.gpg_user, "--output"@, file, plain],
    )
}

/// The step that decrypts the file `file`.
pub open spec fn decrypt_step(file: Text, plain: Text) -> StepView {
    run_step(
        decrypt_command(file, plain),
        failure("No status code 11"@, "gpg -d failed with "@, Notice::Say, Verdict::Fail),
    )
}

/// The step that opens the decrypted passwords in an editor.
pub open spec fn edit_step(plain: Text) -> StepView {
    run_step(
        edit_command(plain),
        failure_with_cleanup("No status code 13"@, "emacs failed with "@, plain),
    )
}

/// The step that encrypts the decrypted passwords to the file `file`.
pub open spec fn encrypt_step(edit: EditView, plain: Text, file: Text) -> StepView {
    run_step(
        encrypt_command(edit, plain, file),
        failure_with_cleanup("No status code 14"@, "gpg encrypt failed with "@, plain),
    )
}

/// The steps for which the passwords were decrypted.
pub open spec fn purpose_steps(plain: Text, purpose: PurposeView) -> Seq<StepView> {
    match purpose {
        PurposeView::Show(None) => seq![StepView::Password(PasswordStepView::ShowAll { plain })],
        PurposeView::Show(Some(query)) => seq![
            StepView::Password(PasswordStepView::OpenPlain { plain }),
            StepView::Password(PasswordStepView::Search { query, send: false }),
        ],
        PurposeView::Send(query) => seq![
            StepView::Password(PasswordStepView::OpenPlain { plain }),
            StepView::Password(PasswordStepView::Search { query, send: true }),
        ],
        PurposeView::Edit(edit) => seq![
            StepView::Password(PasswordStepView::HashBefore { plain, edit }),
        ],
    }
}

/// The steps that decrypt the passwords in `file`, do what they are wanted for, and remove what was
/// decrypted.
pub open spec fn decrypt_steps(file: Text, plain: Text, purpose: PurposeView) -> Seq<StepView> {
    seq![
        StepView::Say("current_password_file "@ + path_shown(file)),
        decrypt_step(file, plain),
    ] + purpose_steps(plain, purpose) + seq![StepView::Remove(plain)]
}

fn new_failure_with_cleanup(missing: &str, prefix: &str, plain: &str) -> (r: Failure)
    ensures
        r@ == failure_with_cleanup(missing@, prefix@, plain@),
{
    Failure {
        missing: missing.to_string(),
        prefix: prefix.to_string(),
        notice: Notice::Quiet,
        cleanup: Some(plain.to_string()),
        verdict: Verdict::Fail,
    }
}

fn edit_file(plain: &str) -> (r: Step)
    ensures
        r@ == edit_step(plain@),
{
    run(
        Command::new("emacs", args2("-nw", plain)),
        new_failure_with_cleanup("No status code 13", "emacs failed with ", plain),
    )
}

fn encrypt_file(edit: &Edit, plain: &str, file: &str) -> (r: Step)
    ensures
        r@ == encrypt_step(edit@, plain@, file@),
{
    let args: Vec<String> = vec![
        "-aes".to_string(),
        "-r".to_string(),
        edit.gpg_key.clone(),
        "-u".to_string(),
        edit.gpg_user.clone(),
        "--output".to_string(),
        file.to_string(),
        plain.to_string(),
    ];
    proof {
        assert(texts(args@) =~= seq![
            "-aes"@,
            "-r"@,
            edit@.gpg_key,
            "-u"@,
            edit@.gpg_user,
            "--output"@,
            file@,
            plain@,
        ]);
    }
    run(
        Command::new("gpg", args),
        new_failure_with_cleanup("No status code 14", "gpg encrypt failed with ", plain),
    )
}

fn use_passwords(plain: &str, purpose: Purpose) -> (r: Vec<Step>)
    ensures
        step_views(r@) == purpose_steps(plain@, purpose@),
{
    let ghost expected = purpose_steps(plain@, purpose@);
    let plain: String = plain.to_string();
    let out: Vec<Step> = match purpose {
        Purpose::Show(None) => vec![Step::Password(PasswordStep::ShowAll { plain })],
        Purpose::Show(Some(query)) => vec![
            Step::Password(PasswordStep::OpenPlain { plain }),
            Step::Password(PasswordStep::Search { query, send: false }),
        ],
        Purpose::Send(query) => vec![
            Step::Password(PasswordStep::OpenPlain { plain }),
            Step::Password(PasswordStep::Search { query, send: true }),
        ],
        Purpose::Edit(edit) => vec![Step::Password(PasswordStep::HashBefore { plain, edit })],
    };
    proof {
        assert(step_views(out@) =~= expected);
    }
    out
}

/// The steps that decrypt the passwords in `file`, do what they are wanted for, and remove what was
/// decrypted.
pub fn decrypt_password_file(file: &str, plain: &str, purpose: Purpose) -> (r: Vec<Step>)
    ensures
        step_views(r@) == decrypt_steps(file@, plain@, purpose@),
{
    let shown: String = show_path(file);
    let first: Vec<Step> = vec![
        Step::Say(cat("current_password_file ", shown.as_str())),
        run(
            Command::new("gpg", args5("--quiet", "--output", plain, "-d", file)),
            new_failure("No status code 11", "gpg -d failed with ", Notice::Say, Verdict::Fail),
        ),
    ];
    proof {
        assert(step_views(first@) =~= seq![
            StepView::Say("current_password_file "@ + path_shown(file@)),
            decrypt_step(file@, plain@),
        ]);
    }
    let last: Vec<Step> = vec![Step::Remove(plain.to_string())];
    proof {
        assert(step_views(last@) =~= seq![StepView::Remove(plain@)]);
    }
    let out: Vec<Step> = chain(first, use_passwords(plain, purpose));
    chain(out, last)
}

// ---------------------------------------------------------------------------
// The steps
// ---------------------------------------------------------------------------

/// What a step of the work with a password file asks for.
pub open spec fn password_ask(h: Host, s: PasswordStepView) -> ActionView {
    match s {
        PasswordStepView::Begin { .. } | PasswordStepView::Encrypt { .. } => ActionView::Clock,
        PasswordStepView::Given { path, .. } => ActionView::Exists(path),
        PasswordStepView::OpenList { .. } => ActionView::OpenDir(
            h.config.inner().password_directory@,
        ),
        PasswordStepView::Scan { .. } => ActionView::NextEntry,
        PasswordStepView::ShowAll { plain } => ActionView::ReadText(plain),
        PasswordStepView::OpenPlain { plain } => ActionView::OpenLines(plain),
        PasswordStepView::Search { .. } => ActionView::NextLine,
        PasswordStepView::HashBefore { plain, .. } => ActionView::Hash(plain),
        PasswordStepView::HashAfter { plain, .. } => ActionView::Hash(plain),
    }
}

/// Whether an event answers a step of the work with a password file.
pub open spec fn password_accepts(s: PasswordStepView, e: EventView) -> bool {
    match s {
        PasswordStepView::Begin { .. } | PasswordStepView::Encrypt { .. } => e matches
            EventView::Clock(t) && is_calendar_time(t as int),
        PasswordStepView::Given { .. } => e is Answer,
        PasswordStepView::OpenList { .. } | PasswordStepView::OpenPlain { .. } => e is Done,
        PasswordStepView::Scan { .. } => e is Entry || e is End,
        PasswordStepView::Search { .. } => e is Text || e is End,
        PasswordStepView::ShowAll { .. } => e is Text,
        PasswordStepView::HashBefore { .. } | PasswordStepView::HashAfter { .. } => e is Text,
    }
}

/// One step of the work with a password file.
pub open spec fn one(s: PasswordStepView) -> Seq<StepView> {
    seq![StepView::Password(s)]
}

/// The end of a script that has failed.
pub open spec fn fail(message: Text) -> Seq<StepView> {
    seq![StepView::Halt(Some(message))]
}

/// What is done with the next line of the decrypted passwords: nothing more where there is none;
/// the first line that holds the query is sent or shown.
pub open spec fn search_steps(h: Host, query: Text, send: bool, line: Text) -> Seq<StepView> {
    if line.len() == 0 {
        seq![]
    } else if !occurs(line, query) {
        one(PasswordStepView::Search { query, send })
    } else if send {
        seq![telegram_step(h, line, "No status code 12"@), StepView::Say(line)]
    } else {
        seq![StepView::Say("\n"@ + line)]
    }
}

/// The steps that follow from the answer to a step of the work with a password file.
pub open spec fn password_expand(h: Host, s: PasswordStepView, e: EventView) -> Seq<StepView> {
    match (s, e) {
        (PasswordStepView::Begin { input, token, purpose }, EventView::Clock(t)) => {
            let plain = plain_path(utc_date_text(t), token);
            match input {
                Some(path) => one(PasswordStepView::Given { path, plain, purpose }),
                None => one(PasswordStepView::OpenList { plain, purpose }),
            }
        },
        (PasswordStepView::Given { path, plain, purpose }, EventView::Answer(found)) => if found {
            decrypt_steps(path, plain, purpose)
        } else {
            fail("Password File Not Found"@)
        },
        (PasswordStepView::OpenList { plain, purpose }, EventView::Done) => one(
            PasswordStepView::Scan { plain, purpose, seen: seq![] },
        ),
        (PasswordStepView::Scan { plain, purpose, seen }, EventView::Entry(name)) => one(
            PasswordStepView::Scan { plain, purpose, seen: seen.push(name) },
        ),
        (PasswordStepView::Scan { plain, purpose, seen }, EventView::End) => match current_file(
            seen,
        ) {
            Some(file) => decrypt_steps(
                joined_path(h.config.inner().password_directory@, file),
                plain,
                purpose,
            ),
            None => fail("no password file found"@),
        },
        (PasswordStepView::ShowAll { .. }, EventView::Text(text)) => seq![StepView::Say(text)],
        (PasswordStepView::Search { query, send }, EventView::Text(line)) => search_steps(
            h,
            query,
            send,
            line,
        ),
        (PasswordStepView::HashBefore { plain, edit }, EventView::Text(before)) => seq![
            edit_step(plain),
            StepView::Password(PasswordStepView::HashAfter { plain, before, edit }),
        ],
        (PasswordStepView::HashAfter { plain, before, edit }, EventView::Text(after)) => if before
            == after {
            seq![]
        } else {
            match edit.output {
                Some(file) => seq![encrypt_step(edit, plain, file)],
                None => one(PasswordStepView::Encrypt { plain, edit }),
            }
        },
        (PasswordStepView::Encrypt { plain, edit }, EventView::Clock(t)) => seq![
            encrypt_step(edit, plain, dated_file(h, utc_date_text(t))),
        ],
        _ => seq![],
    }
}

/// What a step of the work with a password file asks for.
pub fn password_action(host: &Host, s: &PasswordStep) -> (r: Action)
    ensures
        r@ == password_ask(*host, s@),
{
    match s {
        PasswordStep::Begin { .. } | PasswordStep::Encrypt { .. } => Action::Clock,
        PasswordStep::Given { path, .. } => Action::Exists(path.clone()),
        PasswordStep::OpenList { .. } => Action::OpenDir(
            host.config.get().password_directory.clone(),
        ),
        PasswordStep::Scan { .. } => Action::NextEntry,
        PasswordStep::ShowAll { plain } => Action::ReadText(plain.clone()),
        PasswordStep::OpenPlain { plain } => Action::OpenLines(plain.clone()),
        PasswordStep::Search { .. } => Action::NextLine,
        PasswordStep::HashBefore { plain, .. } => Action::Hash(plain.clone()),
        PasswordStep::HashAfter { plain, .. } => Action::Hash(plain.clone()),
    }
}

/// Whether an event answers a step of the work with a password file.
pub fn password_admits(s: &PasswordStep, e: &Event) -> (r: bool)
    ensures
        r == password_accepts(s@, e@),
{
    match s {
        PasswordStep::Begin { .. } | PasswordStep::Encrypt { .. } => match e {
            Event::Clock(t) => -377_705_116_800i64 <= *t && *t <= 253_402_300_799i64,
            _ => false,
        },
        PasswordStep::Given { .. } => matches!(e, Event::Answer(_)),
        PasswordStep::OpenList { .. } | PasswordStep::OpenPlain { .. } => matches!(e, Event::Done),
        PasswordStep::Scan { .. } => matches!(e, Event::Entry(_) | Event::End),
        PasswordStep::Search { .. } => matches!(e, Event::Text(_) | Event::End),
        PasswordStep::ShowAll { .. } => matches!(e, Event::Text(_)),
        PasswordStep::HashBefore { .. } | PasswordStep::HashAfter { .. } => matches!(
            e,
            Event::Text(_)
        ),
    }
}

fn just(s: PasswordStep) -> (r: Vec<Step>)
    ensures
        step_views(r@) == one(s@),
{
    let out: Vec<Step> = vec![Step::Password(s)];
    proof {
        assert(step_views(out@) =~= one(s@));
    }
    out
}

fn give_up(message: &str) -> (r: Vec<Step>)
    ensures
        step_views(r@) == fail(message@),
{
    let out: Vec<Step> = vec![Step::Halt(Some(message.to_string()))];
    proof {
        assert(step_views(out@) =~= fail(message@));
    }
    out
}

/// What is done with the next line of the decrypted passwords.
pub fn search_line(host: &Host, query: String, send: bool, line: String) -> (r: Vec<Step>)
    ensures
        step_views(r@) == search_steps(*host, query@, send, line@),
{
    let ghost expected = search_steps(*host, query@, send, line@);
    let mut out: Vec<Step> = Vec::new();
    if !line.as_str().is_empty() {
        if !contains(line.as_str(), query.as_str()) {
            out.push(Step::Password(PasswordStep::Search { query, send }));
        } else if send {
            out.push(send_message(host, line.as_str(), "No status code 12"));
            out.push(Step::Say(line));
        } else {
            out.push(Step::Say(cat("\n", line.as_str())));
        }
    }
    proof {
        assert(step_views(out@) =~= expected);
    }
    out
}

/// The steps that follow from the answer to a step of the work with a password file.
pub fn password_next(host: &Host, s: PasswordStep, e: Event) -> (r: Vec<Step>)
    requires
        password_accepts(s@, e@),
    ensures
        step_views(r@) == password_expand(*host, s@, e@),
        e@ matches EventView::Clock(t) ==> follows_earlier_days(t),
{
    let ghost expected = password_expand(*host, s@, e@);
    let out: Vec<Step> = match (s, e) {
        (PasswordStep::Begin { input, token, purpose }, Event::Clock(t)) => {
            let date: String = dated(t);
            let plain: String = cat5(
                "/tmp/passwords_",
                date.as_str(),
                "_",
                token.as_str(),
                ".txt",
            );
            match input {
                Some(path) => just(PasswordStep::Given { path, plain, purpose }),
                None => just(PasswordStep::OpenList { plain, purpose }),
            }
        },
        (PasswordStep::Given { path, plain, purpose }, Event::Answer(found)) => {
            if found {
                decrypt_password_file(path.as_str(), plain.as_str(), purpose)
            } else {
                give_up("Password File Not Found")
            }
        },
        (PasswordStep::OpenList { plain, purpose }, Event::Done) => {
            let seen: Vec<Vec<u8>> = Vec::new();
            proof {
                assert(byte_strings(seen@) =~= Seq::<Seq<u8>>::empty());
            }
            just(PasswordStep::Scan { plain, purpose, seen })
        },
        (PasswordStep::Scan { plain, purpose, seen }, Event::Entry(name)) => {
            let mut seen: Vec<Vec<u8>> = seen;
            let ghost earlier = byte_strings(seen@);
            seen.push(name);
            proof {
                assert(byte_strings(seen@) =~= earlier.push(name@));
            }
            just(PasswordStep::Scan { plain, purpose, seen })
        },
        (PasswordStep::Scan { plain, purpose, seen }, Event::End) => {
            match get_current_password_file(&seen) {
                Some(file) => {
                    let path: String = join_path(
                        host.config.get().password_directory.as_str(),
                        file.as_str(),
                    );
                    decrypt_password_file(path.as_str(), plain.as_str(), purpose)
                },
                None => give_up("no password file found"),
            }
        },
        (PasswordStep::ShowAll { .. }, Event::Text(text)) => vec![Step::Say(text)],
        (PasswordStep::Search { query, send }, Event::Text(line)) => search_line(
            host,
            query,
            send,
            line,
        ),
        (PasswordStep::HashBefore { plain, edit }, Event::Text(before)) => {
            let first: Step = edit_file(plain.as_str());
            vec![first, Step::Password(PasswordStep::HashAfter { plain, before, edit })]
        },
        (PasswordStep::HashAfter { plain, before, edit }, Event::Text(after)) => {
            if text_eq(before.as_str(), after.as_str()) {
                Vec::new()
            } else {
                match &edit.output {
                    Some(file) => vec![encrypt_file(&edit, plain.as_str(), file.as_str())],
                    None => just(PasswordStep::Encrypt { plain, edit }),
                }
            }
        },
        (PasswordStep::Encrypt { plain, edit }, Event::Clock(t)) => {
            let date: String = dated(t);
            let name: String = cat3("passwords_", date.as_str(), ".txt.asc");
            let file: String = join_path(
                host.config.get().password_directory.as_str(),
                name.as_str(),
            );
            vec![encrypt_file(&edit, plain.as_str(), file.as_str())]
        },
        _ => Vec::new(),
    };
    proof {
        assert(step_views(out@) =~= expected);
    }
    out
}

// ---------------------------------------------------------------------------
// What can be done with passwords
// ---------------------------------------------------------------------------

/// What to do with passwords.
#[allow(inconsistent_fields)]
#[derive(Debug, Clone, PartialEq, Eq)]
pub enum ShowPasswordOpts {
    /// Draw new passwords.
    Create { number_of_characters: Option<usize> },
    /// Show the first line that holds the query, or all lines.
    Show { input: Option<String>, query: Option<String> },
    /// Edit the password file.
    Edit { input: Option<String>, output: Option<String> },
    /// Send the first line that holds the query.
    Send { input: Option<String>, query: String },
}

/// How long passwords are, if no length was given.
pub const PASSWORD_LENGTH: usize = 16;

/// How long the token is that tells decrypted files of one date apart.
pub const TOKEN_LENGTH: usize = 16;

/// The step that draws up the work with a password file.
pub open spec fn begin(input: Option<String>, token: Text, purpose: PurposeView) -> Seq<StepView> {
    one(PasswordStepView::Begin { input: opt_text(input), token, purpose })
}

/// The steps of the work with a password file. To edit it takes a user and a key to encrypt it.
pub open spec fn file_steps(h: Host, opts: ShowPasswordOpts, token: Text) -> Seq<StepView> {
    match opts {
        ShowPasswordOpts::Create { .. } => seq![],
        ShowPasswordOpts::Show { input, query } => begin(
            input,
            token,
            PurposeView::Show(opt_text(query)),
        ),
        ShowPasswordOpts::Send { input, query } => begin(input, token, PurposeView::Send(query@)),
        ShowPasswordOpts::Edit { input, output } => match (
            h.config.inner().gpg_user,
            h.config.inner().gpg_key,
        ) {
            (None, _) => fail("No gpg user found"@),
            (Some(_), None) => fail("No gpg key found"@),
            (Some(gpg_user), Some(gpg_key)) => begin(
                input,
                token,
                PurposeView::Edit(
                    EditView { gpg_user: gpg_user@, gpg_key: gpg_key@, output: opt_text(output) },
                ),
            ),
        },
    }
}

/// Whether these can be the steps for `opts`: five passwords that were drawn, one to a line; or the
/// work with a password file, under a token that was drawn.
pub open spec fn can_be_steps(h: Host, opts: ShowPasswordOpts, steps: Seq<StepView>) -> bool {
    match opts {
        ShowPasswordOpts::Create { number_of_characters } => exists|drawn: Seq<Text>|
            #![trigger joined(drawn, "\n"@)]
            are_passwords(
                drawn,
                match number_of_characters {
                    Some(n) => n as nat,
                    None => PASSWORD_LENGTH as nat,
                },
            ) && steps == seq![StepView::Say(joined(drawn, "\n"@))],
        _ => exists|token: Text|
            #![trigger file_steps(h, opts, token)]
            is_token(token, TOKEN_LENGTH as nat) && steps == file_steps(h, opts, token),
    }
}

fn begin_with(input: Option<String>, token: String, purpose: Purpose) -> (r: Vec<Step>)
    ensures
        step_views(r@) == begin(input, token@, purpose@),
{
    just(PasswordStep::Begin { input, token, purpose })
}

impl ShowPasswordOpts {
    /// The steps of the work with a password file, under `token`.
    pub fn plan_with_token(self, host: &Host, token: String) -> (r: Vec<Step>)
        requires
            !(self is Create),
        ensures
            step_views(r@) == file_steps(*host, self, token@),
    {
        match self {
            ShowPasswordOpts::Create { .. } => Vec::new(),
            ShowPasswordOpts::Show { input, query } => begin_with(
                input,
                token,
                Purpose::Show(query),
            ),
            ShowPasswordOpts::Send { input, query } => begin_with(
                input,
                token,
                Purpose::Send(query),
            ),
            ShowPasswordOpts::Edit { input, output } => match &host.config.get().gpg_user {
                None => give_up("No gpg user found"),
                Some(gpg_user) => match &host.config.get().gpg_key {
                    None => give_up("No gpg key found"),
                    Some(gpg_key) => begin_with(
                        input,
                        token,
                        Purpose::Edit(
                            Edit { gpg_user: gpg_user.clone(), gpg_key: gpg_key.clone(), output },
                        ),
                    ),
                },
            },
        }
    }

    /// The steps for what is to be done.
    pub fn plan(self, host: &Host) -> (r: Vec<Step>)
        ensures
            can_be_steps(*host, self, step_views(r@)),
    {
        match self {
            ShowPasswordOpts::Create { number_of_characters } => {
                let n: usize = match number_of_characters {
                    Some(n) => n,
                    None => PASSWORD_LENGTH,
                };
                let drawn: Vec<String> = create_passwords(n);
                let out: Vec<Step> = vec![Step::Say(join_texts(&drawn, "\n"))];
                proof {
                    assert(step_views(out@) =~= seq![StepView::Say(joined(texts(drawn@), "\n"@))]);
                }
                out
            },
            opts => {
                let token: String = get_random_string(TOKEN_LENGTH);
                let ghost drawn = token@;
                let out: Vec<Step> = opts.plan_with_token(host, token);
                proof {
                    assert(step_views(out@) == file_steps(*host, opts, drawn));
                }
                out
            },
        }
    }
}

} // verus!
