//! What is done with passwords from the beginning to the end, whatever it is that is to be done.

use vstd::prelude::*;
use vstd::utf8::{decode_utf8_encode_utf8, is_ascii_chars};

use crate::action::{ActionView, CommandView, EventView};
use crate::cleanup::asked;
use crate::host::Host;
use crate::host_laws::{stands_in, success};
use crate::laws::{as_events, keeps, lemma_kept};
use crate::number::decimal;
use crate::order::{law_text_order_total, text_before_text};
use crate::outside::{decoded, is_calendar_time, path_shown, utc_date_text};
use crate::passwords::{
    all_chars, are_passwords, is_token, letters, picked, upper_lower, upper_lower_digits,
};
use crate::path::joined_path;
use crate::program::telegram;
use crate::refresh_laws::sends;
use crate::runs::listing;
use crate::script::{after, answers, ask, expand, next_action, possible};
use crate::search::{ends_with, starts_with};
use crate::step::{EditView, PasswordStepView, PurposeView, StepView};
use crate::text::{joined, opt_text, Text};
use crate::text_laws::{law_extension, law_occurs};
use crate::trace::{goes, lemma_start, lemma_then, to_run};
use crate::vault::{
    can_be_steps, current_file, dated_file, decrypt_step, decrypt_steps, edit_command, edit_step,
    encrypt_command, encrypt_step, file_steps, law_current_file, password_file, purpose_steps,
    ShowPasswordOpts,
};

verus! {

// ---------------------------------------------------------------------------
// Password files
// ---------------------------------------------------------------------------

/// Whether a file name is that of a password file.
pub open spec fn is_password_name(name: Text) -> bool {
    exists|middle: Text| name == #[trigger] ("passwords"@ + middle + ".txt.asc"@)
}

/// A directory entry is a password file exactly where its name is text that begins with `passwords`
/// and ends in `.txt.asc`.
pub proof fn law_password_file(entry: Seq<u8>, name: Text)
    ensures
        password_file(entry) == Some(name) <==> decoded(entry) == Some(name) && is_password_name(
            name,
        ),
{
    reveal_strlit("passwords");
    reveal_strlit(".txt.asc");
    reveal_strlit("asc");
    reveal_strlit(".txt");
    let (p, t) = ("passwords"@, ".txt.asc"@);
    if decoded(entry) == Some(name) {
        if is_password_name(name) {
            let middle = choose|middle: Text| name == #[trigger] (p + middle + t);
            assert(name.subrange(0, 9) =~= p);
            assert(name.subrange(name.len() - 8, name.len() as int) =~= t);
            let stem = p + middle + ".txt"@;
            assert(name =~= stem + seq!['.'] + "asc"@);
            decode_utf8_encode_utf8(entry);
            assert(!"asc"@.contains('.'));
            assert(is_ascii_chars("asc"@));
            law_extension(stem, "asc"@, "asc"@);
        }
        if starts_with(name, p) && ends_with(name, t) {
            let n = name.len() as int;
            assert(name.subrange(0, 9) == p);
            assert(name.subrange(n - 8, n) == t);
            if n < 17 {
                assert(name.subrange(n - 8, n)[0] == '.');
                assert(name[n - 8] == '.');
                assert(name.subrange(0, 9)[n - 8] == name[n - 8]);
            }
            let middle = name.subrange(9, n - 8);
            assert(name =~= name.subrange(0, 9) + middle + name.subrange(n - 8, n));
            assert(name == p + middle + t);
        }
    }
}

/// Whether a file is the last password file that a directory lists, in the order of their names.
pub open spec fn is_last_listed(names: Seq<Seq<u8>>, file: Text) -> bool {
    &&& is_password_name(file)
    &&& exists|i: int| 0 <= i < names.len() && decoded(#[trigger] names[i]) == Some(file)
    &&& forall|i: int|
        0 <= i < names.len() ==> (decoded(#[trigger] names[i]) matches Some(other)
            ==> !is_password_name(other) || other == file || text_before_text(other, file))
}

/// Whether a directory lists no password file.
pub open spec fn none_listed(names: Seq<Seq<u8>>) -> bool {
    forall|i: int|
        0 <= i < names.len() ==> (decoded(#[trigger] names[i]) matches Some(name)
            ==> !is_password_name(name))
}

/// The current file is the last password file that the directory lists.
pub proof fn law_current_is_last(names: Seq<Seq<u8>>, file: Text)
    ensures
        is_last_listed(names, file) ==> current_file(names) == Some(file),
        none_listed(names) <==> current_file(names) is None,
        current_file(names) == Some(file) ==> is_last_listed(names, file),
{
    law_current_file(names);
    assert forall|i: int, name: Text| 0 <= i < names.len() implies (password_file(names[i]) == Some(
        name,
    ) <==> decoded(#[trigger] names[i]) == Some(name) && #[trigger] is_password_name(name)) by {
        law_password_file(names[i], name);
    }
    if none_listed(names) {
        assert forall|i: int| 0 <= i < names.len() implies password_file(#[trigger] names[i])
            is None by {
            if password_file(names[i]) is Some {
                law_password_file(names[i], password_file(names[i])->0);
            }
        }
    }
    if current_file(names) is None {
        assert forall|i: int| 0 <= i < names.len() implies (decoded(#[trigger] names[i]) matches
            Some(name) ==> !is_password_name(name)) by {
            assert(password_file(names[i]) is None);
            if decoded(names[i]) is Some {
                law_password_file(names[i], decoded(names[i])->0);
            }
        }
    }
    if is_last_listed(names, file) {
        let k = choose|i: int| 0 <= i < names.len() && decoded(#[trigger] names[i]) == Some(file);
        law_password_file(names[k], file);
        assert(password_file(names[k]) == Some(file));
        assert(current_file(names) is Some);
        let f = current_file(names)->0;
        let j = choose|i: int|
            0 <= i < names.len() && password_file(#[trigger] names[i]) == Some(f);
        law_password_file(names[j], f);
        assert(!text_before_text(f, file));
        assert(f == file || text_before_text(f, file));
    }
    if current_file(names) == Some(file) {
        let j = choose|i: int|
            0 <= i < names.len() && password_file(#[trigger] names[i]) == Some(file);
        law_password_file(names[j], file);
        assert(decoded(names[j]) == Some(file));
        assert forall|i: int| 0 <= i < names.len() implies (decoded(#[trigger] names[i]) matches
            Some(other) ==> !is_password_name(other) || other == file || text_before_text(
            other,
            file,
        )) by {
            if decoded(names[i]) is Some {
                let other = decoded(names[i])->0;
                law_password_file(names[i], other);
                if is_password_name(other) {
                    assert(password_file(names[i]) == Some(other));
                    law_text_order_total(other, file);
                }
            }
        }
    }
}

// ---------------------------------------------------------------------------
// Decryption
// ---------------------------------------------------------------------------

/// The password file that was given.
pub open spec fn given(opts: ShowPasswordOpts) -> Option<Text> {
    match opts {
        ShowPasswordOpts::Create { .. } => None,
        ShowPasswordOpts::Show { input, .. } => opt_text(input),
        ShowPasswordOpts::Edit { input, .. } => opt_text(input),
        ShowPasswordOpts::Send { input, .. } => opt_text(input),
    }
}

/// Whether the work with a password file can begin: to edit it takes a user and a key.
pub open spec fn can_begin(h: Host, opts: ShowPasswordOpts) -> bool {
    &&& !(opts is Create)
    &&& opts is Edit ==> h.config.inner().gpg_user is Some && h.config.inner().gpg_key is Some
}

/// Where passwords are decrypted to at this time, under this token.
pub open spec fn plain_at(t: i64, token: Text) -> Text {
    "/tmp/passwords_"@ + utc_date_text(t) + "_"@ + token + ".txt"@
}

/// The file that is decrypted: the one that was given, else `last` of the password directory.
pub open spec fn decrypted(h: Host, opts: ShowPasswordOpts, last: Text) -> Text {
    match given(opts) {
        Some(path) => path,
        None => joined_path(h.config.inner().password_directory@, last),
    }
}

/// The answers until the password file is known.
pub open spec fn finding(opts: ShowPasswordOpts, t: i64, names: Seq<Seq<u8>>) -> Seq<EventView> {
    match given(opts) {
        Some(_) => seq![EventView::Clock(t), EventView::Answer(true)],
        None => seq![EventView::Clock(t), EventView::Done] + listing(names) + seq![EventView::End],
    }
}

/// That many questions for the next entry.
pub open spec fn entries(n: nat) -> Seq<ActionView> {
    Seq::new(n, |i: int| ActionView::NextEntry)
}

/// What is asked for until the password file is known: whether the file that was given exists, or
/// what the password directory lists.
pub open spec fn finding_actions(
    h: Host,
    opts: ShowPasswordOpts,
    names: Seq<Seq<u8>>,
) -> Seq<ActionView> {
    match given(opts) {
        Some(path) => seq![ActionView::Clock, ActionView::Exists(path)],
        None => seq![
            ActionView::Clock,
            ActionView::OpenDir(h.config.inner().password_directory@),
        ] + entries(names.len() + 1),
    }
}

/// The answers until the passwords are decrypted.
pub open spec fn opening(opts: ShowPasswordOpts, t: i64, names: Seq<Seq<u8>>) -> Seq<EventView> {
    finding(opts, t, names) + seq![EventView::Done, success()]
}

/// What is asked for to decrypt a file.
pub open spec fn decrypting(file: Text, plain: Text) -> Seq<ActionView> {
    seq![
        ActionView::Say("current_password_file "@ + path_shown(file)),
        to_run("gpg"@, seq!["--quiet"@, "--output"@, plain, "-d"@, file]),
    ]
}

/// What is asked for until the passwords are decrypted.
pub open spec fn opening_actions(
    h: Host,
    opts: ShowPasswordOpts,
    token: Text,
    t: i64,
    names: Seq<Seq<u8>>,
    last: Text,
) -> Seq<ActionView> {
    finding_actions(h, opts, names) + decrypting(decrypted(h, opts, last), plain_at(t, token))
}

/// Whether all that the opening needs is there.
pub open spec fn can_open(
    h: Host,
    opts: ShowPasswordOpts,
    t: i64,
    names: Seq<Seq<u8>>,
    last: Text,
) -> bool {
    &&& can_begin(h, opts)
    &&& is_calendar_time(t as int)
    &&& given(opts) is None ==> is_last_listed(names, last)
}

/// What the passwords are decrypted for.
spec fn purpose(h: Host, opts: ShowPasswordOpts) -> PurposeView {
    match opts {
        ShowPasswordOpts::Show { query, .. } => PurposeView::Show(opt_text(query)),
        ShowPasswordOpts::Send { query, .. } => PurposeView::Send(query@),
        ShowPasswordOpts::Edit { output, .. } => PurposeView::Edit(
            EditView {
                gpg_user: h.config.inner().gpg_user->0@,
                gpg_key: h.config.inner().gpg_key->0@,
                output: opt_text(output),
            },
        ),
        ShowPasswordOpts::Create { .. } => PurposeView::Show(None),
    }
}

proof fn lemma_scanned(
    h: Host,
    todo: Seq<StepView>,
    events: Seq<EventView>,
    trace: Seq<ActionView>,
    plain: Text,
    purpose: PurposeView,
    names: Seq<Seq<u8>>,
)
    requires
        goes(
            h,
            todo,
            events,
            seq![StepView::Password(PasswordStepView::Scan { plain, purpose, seen: seq![] })],
            trace,
        ),
    ensures
        goes(
            h,
            todo,
            events + listing(names),
            seq![StepView::Password(PasswordStepView::Scan { plain, purpose, seen: names })],
            trace + entries(names.len()),
        ),
    decreases names.len(),
{
    if names.len() == 0 {
        assert(names =~= seq![]);
        assert(events + listing(names) =~= events);
        assert(trace + entries(0) =~= trace);
    } else {
        let init = names.drop_last();
        let none = Seq::<StepView>::empty();
        lemma_scanned(h, todo, events, trace, plain, purpose, init);
        let scan = StepView::Password(PasswordStepView::Scan { plain, purpose, seen: init });
        let e = EventView::Entry(names.last());
        assert(seq![scan] =~= seq![scan] + none);
        lemma_then(h, todo, events + listing(init), scan, none, trace + entries(init.len()), e);
        assert(init.push(names.last()) =~= names);
        assert((events + listing(init)).push(e) =~= events + listing(names));
        assert((trace + entries(init.len())).push(ActionView::NextEntry) =~= trace + entries(
            names.len(),
        ));
        assert(after(h, todo, events + listing(names)) =~= seq![
            StepView::Password(PasswordStepView::Scan { plain, purpose, seen: names }),
        ]);
    }
}

proof fn lemma_begun(h: Host, opts: ShowPasswordOpts, token: Text, t: i64)
    requires
        can_begin(h, opts),
        is_calendar_time(t as int),
    ensures
        ({
            let plain = plain_at(t, token);
            goes(
                h,
                file_steps(h, opts, token),
                seq![EventView::Clock(t)],
                seq![
                    StepView::Password(
                        match given(opts) {
                            Some(path) => PasswordStepView::Given {
                                path,
                                plain,
                                purpose: purpose(h, opts),
                            },
                            None => PasswordStepView::OpenList { plain, purpose: purpose(h, opts) },
                        },
                    ),
                ],
                seq![ActionView::Clock],
            )
        }),
{
    let todo = file_steps(h, opts, token);
    let none = Seq::<StepView>::empty();
    let e0 = Seq::<EventView>::empty();
    let t0 = Seq::<ActionView>::empty();
    let first = StepView::Password(
        PasswordStepView::Begin { input: given(opts), token, purpose: purpose(h, opts) },
    );
    assert(todo =~= seq![first] + none);
    lemma_start(h, todo);
    lemma_then(h, todo, e0, first, none, t0, EventView::Clock(t));
    assert(e0.push(EventView::Clock(t)) =~= seq![EventView::Clock(t)]);
    assert(t0.push(ActionView::Clock) =~= seq![ActionView::Clock]);
    let plain = plain_at(t, token);
    assert(after(h, todo, seq![EventView::Clock(t)]) =~= seq![
        StepView::Password(
            match given(opts) {
                Some(path) => PasswordStepView::Given { path, plain, purpose: purpose(h, opts) },
                None => PasswordStepView::OpenList { plain, purpose: purpose(h, opts) },
            },
        ),
    ]);
}

/// The password file is found: the one that was given, or the last one of the directory.
proof fn lemma_found(
    h: Host,
    opts: ShowPasswordOpts,
    token: Text,
    t: i64,
    names: Seq<Seq<u8>>,
    last: Text,
)
    requires
        can_open(h, opts, t, names, last),
    ensures
        goes(
            h,
            file_steps(h, opts, token),
            finding(opts, t, names),
            decrypt_steps(decrypted(h, opts, last), plain_at(t, token), purpose(h, opts)),
            finding_actions(h, opts, names),
        ),
{
    let todo = file_steps(h, opts, token);
    let plain = plain_at(t, token);
    let none = Seq::<StepView>::empty();
    let p = purpose(h, opts);
    let e1 = seq![EventView::Clock(t)];
    let t1 = seq![ActionView::Clock];
    let end = decrypt_steps(decrypted(h, opts, last), plain, p);
    lemma_begun(h, opts, token, t);
    match given(opts) {
        Some(path) => {
            let s = StepView::Password(PasswordStepView::Given { path, plain, purpose: p });
            assert(after(h, todo, e1) =~= seq![s] + none);
            lemma_then(h, todo, e1, s, none, t1, EventView::Answer(true));
            assert(e1.push(EventView::Answer(true)) =~= finding(opts, t, names));
            assert(t1.push(ActionView::Exists(path)) =~= finding_actions(h, opts, names));
            assert(end + none =~= end);
        },
        None => {
            law_current_is_last(names, last);
            let dir = h.config.inner().password_directory@;
            let s = StepView::Password(PasswordStepView::OpenList { plain, purpose: p });
            let fresh = StepView::Password(
                PasswordStepView::Scan { plain, purpose: p, seen: seq![] },
            );
            let scan = StepView::Password(
                PasswordStepView::Scan { plain, purpose: p, seen: names },
            );
            assert(after(h, todo, e1) =~= seq![s] + none);
            lemma_then(h, todo, e1, s, none, t1, EventView::Done);
            let e2 = e1.push(EventView::Done);
            let t2 = t1.push(ActionView::OpenDir(dir));
            assert(after(h, todo, e2) =~= seq![fresh]);
            lemma_scanned(h, todo, e2, t2, plain, p, names);
            let e3 = e2 + listing(names);
            let t3 = t2 + entries(names.len());
            assert(seq![scan] =~= seq![scan] + none);
            lemma_then(h, todo, e3, scan, none, t3, EventView::End);
            assert(e3.push(EventView::End) =~= finding(opts, t, names));
            assert(t3.push(ActionView::NextEntry) =~= finding_actions(h, opts, names));
            assert(end + none =~= end);
        },
    }
}

/// The passwords are decrypted.
proof fn lemma_opened(
    h: Host,
    opts: ShowPasswordOpts,
    token: Text,
    t: i64,
    names: Seq<Seq<u8>>,
    last: Text,
)
    requires
        can_open(h, opts, t, names, last),
    ensures
        goes(
            h,
            file_steps(h, opts, token),
            opening(opts, t, names),
            purpose_steps(plain_at(t, token), purpose(h, opts)) + seq![
                StepView::Remove(plain_at(t, token)),
            ],
            opening_actions(h, opts, token, t, names, last),
        ),
{
    let todo = file_steps(h, opts, token);
    let plain = plain_at(t, token);
    let file = decrypted(h, opts, last);
    let e = finding(opts, t, names);
    let a = finding_actions(h, opts, names);
    let said = StepView::Say("current_password_file "@ + path_shown(file));
    let run = decrypt_step(file, plain);
    let rest = purpose_steps(plain, purpose(h, opts)) + seq![StepView::Remove(plain)];
    lemma_found(h, opts, token, t, names, last);
    assert(decrypt_steps(file, plain, purpose(h, opts)) =~= seq![said] + (seq![run] + rest));
    lemma_then(h, todo, e, said, seq![run] + rest, a, EventView::Done);
    let e1 = e.push(EventView::Done);
    let a1 = a.push(decrypting(file, plain)[0]);
    assert(after(h, todo, e1) =~= seq![run] + rest);
    lemma_then(h, todo, e1, run, rest, a1, success());
    assert(after(h, todo, e1.push(success())) =~= rest);
    assert(e1.push(success()) =~= opening(opts, t, names));
    assert(a1.push(decrypting(file, plain)[1]) =~= opening_actions(
        h,
        opts,
        token,
        t,
        names,
        last,
    ));
}

/// Whatever is to be done with a password file, it is found and decrypted in the same way. Where a
/// file was given, it is asked whether that very file exists, and that very file is decrypted; else
/// the password directory is listed, and its last password file is decrypted.
pub proof fn law_decryption(
    h: Host,
    opts: ShowPasswordOpts,
    token: Text,
    t: i64,
    names: Seq<Seq<u8>>,
    last: Text,
)
    requires
        can_open(h, opts, t, names, last),
    ensures
        possible(h, file_steps(h, opts, token), opening(opts, t, names)),
        asked(h, file_steps(h, opts, token), opening(opts, t, names))
            == opening_actions(h, opts, token, t, names, last),
{
    lemma_opened(h, opts, token, t, names, last);
}

proof fn lemma_given_missing(h: Host, opts: ShowPasswordOpts, token: Text, t: i64, path: Text)
    requires
        !(opts is Create),
        is_calendar_time(t as int),
        can_begin(h, opts),
        given(opts) == Some(path),
    ensures
        next_action(
            h,
            after(
                h,
                file_steps(h, opts, token),
                seq![EventView::Clock(t), EventView::Answer(false)],
            ),
        ) == ActionView::Finish(Some("Password File Not Found"@)),
{
    let todo = file_steps(h, opts, token);
    let plain = plain_at(t, token);
    let none = Seq::<StepView>::empty();
    let e1 = seq![EventView::Clock(t)];
    let t1 = seq![ActionView::Clock];
    let s = StepView::Password(
        PasswordStepView::Given { path, plain, purpose: purpose(h, opts) },
    );
    lemma_begun(h, opts, token, t);
    assert(after(h, todo, e1) =~= seq![s] + none);
    lemma_then(h, todo, e1, s, none, t1, EventView::Answer(false));
    assert(e1.push(EventView::Answer(false)) =~= seq![
        EventView::Clock(t),
        EventView::Answer(false),
    ]);
}

proof fn lemma_none_listed(
    h: Host,
    opts: ShowPasswordOpts,
    token: Text,
    t: i64,
    names: Seq<Seq<u8>>,
)
    requires
        !(opts is Create),
        is_calendar_time(t as int),
        can_begin(h, opts),
        given(opts) is None,
        none_listed(names),
    ensures
        next_action(
            h,
            after(
                h,
                file_steps(h, opts, token),
                seq![EventView::Clock(t), EventView::Done] + listing(names) + seq![EventView::End],
            ),
        ) == ActionView::Finish(Some("no password file found"@)),
{
    let todo = file_steps(h, opts, token);
    let plain = plain_at(t, token);
    let none = Seq::<StepView>::empty();
    let p = purpose(h, opts);
    let e1 = seq![EventView::Clock(t)];
    let t1 = seq![ActionView::Clock];
    let s = StepView::Password(PasswordStepView::OpenList { plain, purpose: p });
    let fresh = StepView::Password(PasswordStepView::Scan { plain, purpose: p, seen: seq![] });
    let scan = StepView::Password(PasswordStepView::Scan { plain, purpose: p, seen: names });
    lemma_begun(h, opts, token, t);
    law_current_is_last(names, seq![]);
    assert(after(h, todo, e1) =~= seq![s] + none);
    lemma_then(h, todo, e1, s, none, t1, EventView::Done);
    let e2 = e1.push(EventView::Done);
    let t2 = t1.push(ActionView::OpenDir(h.config.inner().password_directory@));
    assert(after(h, todo, e2) =~= seq![fresh]);
    lemma_scanned(h, todo, e2, t2, plain, p, names);
    let e3 = e2 + listing(names);
    assert(seq![scan] =~= seq![scan] + none);
    lemma_then(h, todo, e3, scan, none, t2 + entries(names.len()), EventView::End);
    assert(e3.push(EventView::End) =~= seq![EventView::Clock(t), EventView::Done] + listing(names)
        + seq![EventView::End]);
}

proof fn lemma_not_decrypted(
    h: Host,
    opts: ShowPasswordOpts,
    token: Text,
    t: i64,
    names: Seq<Seq<u8>>,
    last: Text,
    code: i32,
)
    requires
        can_open(h, opts, t, names, last),
        code != 0,
    ensures
        ({
            let todo = file_steps(h, opts, token);
            let message = "gpg -d failed with "@ + decimal(code as int);
            let failed = finding(opts, t, names) + seq![
                EventView::Done,
                EventView::Exit(Some(code)),
            ];
            &&& next_action(h, after(h, todo, failed)) == ActionView::Say(message)
            &&& next_action(h, after(h, todo, failed.push(EventView::Done)))
                == ActionView::Finish(Some(message))
        }),
{
    let todo = file_steps(h, opts, token);
    let plain = plain_at(t, token);
    let p = purpose(h, opts);
    let file = decrypted(h, opts, last);
    let e = finding(opts, t, names);
    let a = finding_actions(h, opts, names);
    let said = StepView::Say("current_password_file "@ + path_shown(file));
    let run = decrypt_step(file, plain);
    let rest = purpose_steps(plain, p) + seq![StepView::Remove(plain)];
    let message = "gpg -d failed with "@ + decimal(code as int);
    let x = EventView::Exit(Some(code));
    lemma_found(h, opts, token, t, names, last);
    assert(decrypt_steps(file, plain, p) =~= seq![said] + (seq![run] + rest));
    lemma_then(h, todo, e, said, seq![run] + rest, a, EventView::Done);
    let e2 = e.push(EventView::Done);
    let a2 = a.push(ask(h, said));
    assert(after(h, todo, e2) =~= seq![run] + rest);
    lemma_then(h, todo, e2, run, rest, a2, x);
    let e3 = e2.push(x);
    let tell = StepView::Say(message);
    let end = StepView::Halt(Some(message));
    assert(expand(h, run, x) =~= seq![tell, end]);
    assert(after(h, todo, e3) =~= seq![tell] + (seq![end] + rest));
    lemma_then(h, todo, e3, tell, seq![end] + rest, a2.push(ask(h, run)), EventView::Done);
    assert(after(h, todo, e3.push(EventView::Done)) =~= seq![end] + rest);
    assert(e3 =~= finding(opts, t, names) + seq![EventView::Done, x]);
}

/// Without a password file, or without a user and a key to encrypt an edited one again, the work
/// fails, and says why. Where the decryption fails, this is told, and is the error.
pub proof fn law_decryption_failures(
    h: Host,
    opts: ShowPasswordOpts,
    token: Text,
    t: i64,
    names: Seq<Seq<u8>>,
    last: Text,
    code: i32,
)
    requires
        !(opts is Create),
        is_calendar_time(t as int),
        code != 0,
    ensures
        ({
            let todo = file_steps(h, opts, token);
            let user = h.config.inner().gpg_user;
            let key = h.config.inner().gpg_key;
            let missing = after(h, todo, seq![EventView::Clock(t), EventView::Answer(false)]);
            let empty = after(
                h,
                todo,
                seq![EventView::Clock(t), EventView::Done] + listing(names) + seq![EventView::End],
            );
            let message = "gpg -d failed with "@ + decimal(code as int);
            let failed = finding(opts, t, names) + seq![
                EventView::Done,
                EventView::Exit(Some(code)),
            ];
            &&& opts is Edit && user is None ==> next_action(h, todo) == ActionView::Finish(
                Some("No gpg user found"@),
            )
            &&& opts is Edit && user is Some && key is None ==> next_action(h, todo)
                == ActionView::Finish(Some("No gpg key found"@))
            &&& can_begin(h, opts) && given(opts) is Some ==> next_action(h, missing)
                == ActionView::Finish(Some("Password File Not Found"@))
            &&& can_begin(h, opts) && given(opts) is None && none_listed(names) ==> next_action(
                h,
                empty,
            ) == ActionView::Finish(Some("no password file found"@))
            &&& can_open(h, opts, t, names, last) ==> next_action(h, after(h, todo, failed))
                == ActionView::Say(message) && next_action(
                h,
                after(h, todo, failed.push(EventView::Done)),
            ) == ActionView::Finish(Some(message))
        }),
{
    if can_begin(h, opts) {
        if given(opts) is Some {
            lemma_given_missing(h, opts, token, t, given(opts)->0);
        } else if none_listed(names) {
            lemma_none_listed(h, opts, token, t, names);
        }
    }
    if can_open(h, opts, t, names, last) {
        lemma_not_decrypted(h, opts, token, t, names, last, code);
    }
}

// ---------------------------------------------------------------------------
// What the passwords are decrypted for
// ---------------------------------------------------------------------------

/// That many questions for the next line.
pub open spec fn next_lines(n: nat) -> Seq<ActionView> {
    Seq::new(n, |i: int| ActionView::NextLine)
}

/// Whether none of these lines is empty or holds the query.
pub open spec fn none_match(lines: Seq<Text>, query: Text) -> bool {
    forall|i: int|
        0 <= i < lines.len() ==> (#[trigger] lines[i]).len() > 0 && !stands_in(lines[i], query)
}

/// To show passwords without a query is to show all of them, and then to remove what was decrypted.
pub proof fn law_show_all(
    h: Host,
    opts: ShowPasswordOpts,
    token: Text,
    t: i64,
    names: Seq<Seq<u8>>,
    last: Text,
    text: Text,
)
    requires
        can_open(h, opts, t, names, last),
        opts matches ShowPasswordOpts::Show { query, .. } && query is None,
    ensures
        goes(
            h,
            file_steps(h, opts, token),
            opening(opts, t, names) + seq![EventView::Text(text), EventView::Done, EventView::Done],
            seq![],
            opening_actions(h, opts, token, t, names, last) + seq![
                ActionView::ReadText(plain_at(t, token)),
                ActionView::Say(text),
                ActionView::Remove(plain_at(t, token)),
            ],
        ),
{
    let todo = file_steps(h, opts, token);
    let plain = plain_at(t, token);
    let none = Seq::<StepView>::empty();
    let e = opening(opts, t, names);
    let a = opening_actions(h, opts, token, t, names, last);
    let read = StepView::Password(PasswordStepView::ShowAll { plain });
    let said = StepView::Say(text);
    let gone = StepView::Remove(plain);
    lemma_opened(h, opts, token, t, names, last);
    assert(after(h, todo, e) =~= seq![read] + seq![gone]);
    lemma_then(h, todo, e, read, seq![gone], a, EventView::Text(text));
    let e1 = e.push(EventView::Text(text));
    let a1 = a.push(ActionView::ReadText(plain));
    assert(after(h, todo, e1) =~= seq![said] + seq![gone]);
    lemma_then(h, todo, e1, said, seq![gone], a1, EventView::Done);
    let e2 = e1.push(EventView::Done);
    let a2 = a1.push(ActionView::Say(text));
    assert(after(h, todo, e2) =~= seq![gone] + none);
    lemma_then(h, todo, e2, gone, none, a2, EventView::Done);
    let e3 = e2.push(EventView::Done);
    assert(after(h, todo, e3) =~= none);
    assert(e3 =~= e + seq![EventView::Text(text), EventView::Done, EventView::Done]);
    assert(a2.push(ActionView::Remove(plain)) =~= a + seq![
        ActionView::ReadText(plain),
        ActionView::Say(text),
        ActionView::Remove(plain),
    ]);
}

proof fn lemma_searched(
    h: Host,
    todo: Seq<StepView>,
    events: Seq<EventView>,
    trace: Seq<ActionView>,
    query: Text,
    send: bool,
    rest: Seq<StepView>,
    lines: Seq<Text>,
)
    requires
        goes(
            h,
            todo,
            events,
            seq![StepView::Password(PasswordStepView::Search { query, send })] + rest,
            trace,
        ),
        none_match(lines, query),
    ensures
        goes(
            h,
            todo,
            events + as_events(lines),
            seq![StepView::Password(PasswordStepView::Search { query, send })] + rest,
            trace + next_lines(lines.len()),
        ),
    decreases lines.len(),
{
    if lines.len() == 0 {
        assert(events + as_events(lines) =~= events);
        assert(trace + next_lines(0) =~= trace);
    } else {
        let init = lines.drop_last();
        let line = lines.last();
        assert forall|i: int| 0 <= i < init.len() implies (#[trigger] init[i]).len() > 0
            && !stands_in(init[i], query) by {
            assert(init[i] == lines[i]);
        }
        lemma_searched(h, todo, events, trace, query, send, rest, init);
        let s = StepView::Password(PasswordStepView::Search { query, send });
        let e = EventView::Text(line);
        assert(lines[lines.len() - 1] == line);
        law_occurs(line, query);
        lemma_then(h, todo, events + as_events(init), s, rest, trace + next_lines(init.len()), e);
        assert(expand(h, s, e) =~= seq![s]);
        assert((events + as_events(init)).push(e) =~= events + as_events(lines));
        assert((trace + next_lines(init.len())).push(ActionView::NextLine) =~= trace + next_lines(
            lines.len(),
        ));
    }
}

/// What the passwords are searched for.
pub open spec fn wanted(opts: ShowPasswordOpts) -> Option<Text> {
    match opts {
        ShowPasswordOpts::Show { query, .. } => opt_text(query),
        ShowPasswordOpts::Send { query, .. } => Some(query@),
        _ => None,
    }
}

proof fn lemma_searching(
    h: Host,
    opts: ShowPasswordOpts,
    token: Text,
    t: i64,
    names: Seq<Seq<u8>>,
    last: Text,
    lines: Seq<Text>,
)
    requires
        can_open(h, opts, t, names, last),
        wanted(opts) is Some,
        none_match(lines, wanted(opts)->0),
    ensures
        goes(
            h,
            file_steps(h, opts, token),
            opening(opts, t, names) + seq![EventView::Done] + as_events(lines),
            seq![
                StepView::Password(
                    PasswordStepView::Search { query: wanted(opts)->0, send: opts is Send },
                ),
            ] + seq![StepView::Remove(plain_at(t, token))],
            opening_actions(h, opts, token, t, names, last) + seq![
                ActionView::OpenLines(plain_at(t, token)),
            ] + next_lines(lines.len()),
        ),
{
    let todo = file_steps(h, opts, token);
    let plain = plain_at(t, token);
    let query = wanted(opts)->0;
    let e = opening(opts, t, names);
    let a = opening_actions(h, opts, token, t, names, last);
    let open = StepView::Password(PasswordStepView::OpenPlain { plain });
    let search = StepView::Password(PasswordStepView::Search { query, send: opts is Send });
    let gone = StepView::Remove(plain);
    lemma_opened(h, opts, token, t, names, last);
    assert(after(h, todo, e) =~= seq![open] + (seq![search] + seq![gone]));
    lemma_then(h, todo, e, open, seq![search] + seq![gone], a, EventView::Done);
    let e1 = e.push(EventView::Done);
    let a1 = a.push(ActionView::OpenLines(plain));
    assert(after(h, todo, e1) =~= seq![search] + seq![gone]);
    assert(e1 =~= e + seq![EventView::Done]);
    assert(a1 =~= a + seq![ActionView::OpenLines(plain)]);
    lemma_searched(h, todo, e1, a1, query, opts is Send, seq![gone], lines);
}

/// To show passwords by a query is to show the first line that holds it, after an empty line, and
/// then to remove what was decrypted.
pub proof fn law_show_first_match(
    h: Host,
    opts: ShowPasswordOpts,
    token: Text,
    t: i64,
    names: Seq<Seq<u8>>,
    last: Text,
    lines: Seq<Text>,
    found: Text,
)
    requires
        can_open(h, opts, t, names, last),
        opts matches ShowPasswordOpts::Show { query, .. } && (query matches Some(q) && none_match(
            lines,
            q@,
        ) && found.len() > 0 && stands_in(found, q@)),
    ensures
        goes(
            h,
            file_steps(h, opts, token),
            opening(opts, t, names) + seq![EventView::Done] + as_events(lines) + seq![
                EventView::Text(found),
                EventView::Done,
                EventView::Done,
            ],
            seq![],
            opening_actions(h, opts, token, t, names, last) + seq![
                ActionView::OpenLines(plain_at(t, token)),
            ] + next_lines(lines.len()) + seq![
                ActionView::NextLine,
                ActionView::Say("\n"@ + found),
                ActionView::Remove(plain_at(t, token)),
            ],
        ),
{
    let todo = file_steps(h, opts, token);
    let plain = plain_at(t, token);
    let none = Seq::<StepView>::empty();
    let query = wanted(opts)->0;
    let e = opening(opts, t, names) + seq![EventView::Done] + as_events(lines);
    let a = opening_actions(h, opts, token, t, names, last) + seq![
        ActionView::OpenLines(plain),
    ] + next_lines(lines.len());
    let search = StepView::Password(PasswordStepView::Search { query, send: false });
    let gone = StepView::Remove(plain);
    let said = StepView::Say("\n"@ + found);
    lemma_searching(h, opts, token, t, names, last, lines);
    law_occurs(found, query);
    lemma_then(h, todo, e, search, seq![gone], a, EventView::Text(found));
    let e1 = e.push(EventView::Text(found));
    let a1 = a.push(ActionView::NextLine);
    assert(after(h, todo, e1) =~= seq![said] + seq![gone]);
    lemma_then(h, todo, e1, said, seq![gone], a1, EventView::Done);
    let e2 = e1.push(EventView::Done);
    let a2 = a1.push(ActionView::Say("\n"@ + found));
    assert(after(h, todo, e2) =~= seq![gone] + none);
    lemma_then(h, todo, e2, gone, none, a2, EventView::Done);
    let e3 = e2.push(EventView::Done);
    assert(after(h, todo, e3) =~= none);
    assert(e3 =~= e + seq![EventView::Text(found), EventView::Done, EventView::Done]);
    assert(a2.push(ActionView::Remove(plain)) =~= a + seq![
        ActionView::NextLine,
        ActionView::Say("\n"@ + found),
        ActionView::Remove(plain),
    ]);
}

/// To send a password is to send the first line that holds the query, to show it, and then to
/// remove what was decrypted. Where it could not be sent, that is the error.
pub proof fn law_send_first_match(
    h: Host,
    opts: ShowPasswordOpts,
    token: Text,
    t: i64,
    names: Seq<Seq<u8>>,
    last: Text,
    lines: Seq<Text>,
    found: Text,
    code: i32,
)
    requires
        can_open(h, opts, t, names, last),
        opts matches ShowPasswordOpts::Send { query, .. } && none_match(lines, query@)
            && found.len() > 0 && stands_in(found, query@),
        code != 0,
    ensures
        goes(
            h,
            file_steps(h, opts, token),
            opening(opts, t, names) + seq![EventView::Done] + as_events(lines) + seq![
                EventView::Text(found),
                success(),
                EventView::Done,
                EventView::Done,
            ],
            seq![],
            opening_actions(h, opts, token, t, names, last) + seq![
                ActionView::OpenLines(plain_at(t, token)),
            ] + next_lines(lines.len()) + seq![ActionView::NextLine] + sends(h, found) + seq![
                ActionView::Say(found),
                ActionView::Remove(plain_at(t, token)),
            ],
        ),
        next_action(
            h,
            after(
                h,
                file_steps(h, opts, token),
                opening(opts, t, names) + seq![EventView::Done] + as_events(lines) + seq![
                    EventView::Text(found),
                    EventView::Exit(Some(code)),
                ],
            ),
        ) == ActionView::Finish(Some("send-to-telegram failed with "@ + decimal(code as int))),
{
    let todo = file_steps(h, opts, token);
    let plain = plain_at(t, token);
    let none = Seq::<StepView>::empty();
    let query = wanted(opts)->0;
    let e = opening(opts, t, names) + seq![EventView::Done] + as_events(lines);
    let a = opening_actions(h, opts, token, t, names, last) + seq![
        ActionView::OpenLines(plain),
    ] + next_lines(lines.len());
    let search = StepView::Password(PasswordStepView::Search { query, send: true });
    let gone = StepView::Remove(plain);
    let said = StepView::Say(found);
    lemma_searching(h, opts, token, t, names, last, lines);
    law_occurs(found, query);
    lemma_then(h, todo, e, search, seq![gone], a, EventView::Text(found));
    let e1 = e.push(EventView::Text(found));
    let a1 = a.push(ActionView::NextLine);
    let run = expand(h, search, EventView::Text(found))[0];
    assert(after(h, todo, e1) =~= seq![run] + (seq![said] + seq![gone]));
    lemma_then(h, todo, e1, run, seq![said] + seq![gone], a1, EventView::Exit(Some(code)));
    assert(e1.push(EventView::Exit(Some(code))) =~= e + seq![
        EventView::Text(found),
        EventView::Exit(Some(code)),
    ]);
    lemma_then(h, todo, e1, run, seq![said] + seq![gone], a1, success());
    let e2 = e1.push(success());
    let a2 = a1.push(sends(h, found)[0]);
    assert(after(h, todo, e2) =~= seq![said] + seq![gone]);
    lemma_then(h, todo, e2, said, seq![gone], a2, EventView::Done);
    let e3 = e2.push(EventView::Done);
    let a3 = a2.push(ActionView::Say(found));
    assert(after(h, todo, e3) =~= seq![gone] + none);
    lemma_then(h, todo, e3, gone, none, a3, EventView::Done);
    let e4 = e3.push(EventView::Done);
    assert(after(h, todo, e4) =~= none);
    assert(e4 =~= e + seq![
        EventView::Text(found),
        success(),
        EventView::Done,
        EventView::Done,
    ]);
    assert(a3.push(ActionView::Remove(plain)) =~= a + seq![ActionView::NextLine] + sends(h, found)
        + seq![ActionView::Say(found), ActionView::Remove(plain)]);
}

/// Where no line holds the query, up to the end or to an empty line, nothing is shown and nothing
/// sent, and what was decrypted is removed.
pub proof fn law_nothing_matches(
    h: Host,
    opts: ShowPasswordOpts,
    token: Text,
    t: i64,
    names: Seq<Seq<u8>>,
    last: Text,
    lines: Seq<Text>,
)
    requires
        can_open(h, opts, t, names, last),
        wanted(opts) is Some,
        none_match(lines, wanted(opts)->0),
    ensures
        goes(
            h,
            file_steps(h, opts, token),
            opening(opts, t, names) + seq![EventView::Done] + as_events(lines) + seq![
                EventView::End,
                EventView::Done,
            ],
            seq![],
            opening_actions(h, opts, token, t, names, last) + seq![
                ActionView::OpenLines(plain_at(t, token)),
            ] + next_lines(lines.len()) + seq![
                ActionView::NextLine,
                ActionView::Remove(plain_at(t, token)),
            ],
        ),
        goes(
            h,
            file_steps(h, opts, token),
            opening(opts, t, names) + seq![EventView::Done] + as_events(lines) + seq![
                EventView::Text(seq![]),
                EventView::Done,
            ],
            seq![],
            opening_actions(h, opts, token, t, names, last) + seq![
                ActionView::OpenLines(plain_at(t, token)),
            ] + next_lines(lines.len()) + seq![
                ActionView::NextLine,
                ActionView::Remove(plain_at(t, token)),
            ],
        ),
{
    lemma_search_ends(h, opts, token, t, names, last, lines, EventView::End);
    lemma_search_ends(h, opts, token, t, names, last, lines, EventView::Text(seq![]));
}

proof fn lemma_search_ends(
    h: Host,
    opts: ShowPasswordOpts,
    token: Text,
    t: i64,
    names: Seq<Seq<u8>>,
    last: Text,
    lines: Seq<Text>,
    end: EventView,
)
    requires
        can_open(h, opts, t, names, last),
        wanted(opts) is Some,
        none_match(lines, wanted(opts)->0),
        end == EventView::End || end == EventView::Text(seq![]),
    ensures
        goes(
            h,
            file_steps(h, opts, token),
            opening(opts, t, names) + seq![EventView::Done] + as_events(lines) + seq![
                end,
                EventView::Done,
            ],
            seq![],
            opening_actions(h, opts, token, t, names, last) + seq![
                ActionView::OpenLines(plain_at(t, token)),
            ] + next_lines(lines.len()) + seq![
                ActionView::NextLine,
                ActionView::Remove(plain_at(t, token)),
            ],
        ),
{
    let todo = file_steps(h, opts, token);
    let plain = plain_at(t, token);
    let none = Seq::<StepView>::empty();
    let query = wanted(opts)->0;
    let e = opening(opts, t, names) + seq![EventView::Done] + as_events(lines);
    let a = opening_actions(h, opts, token, t, names, last) + seq![
        ActionView::OpenLines(plain),
    ] + next_lines(lines.len());
    let search = StepView::Password(PasswordStepView::Search { query, send: opts is Send });
    let gone = StepView::Remove(plain);
    lemma_searching(h, opts, token, t, names, last, lines);
    lemma_then(h, todo, e, search, seq![gone], a, end);
    let e1 = e.push(end);
    let a1 = a.push(ActionView::NextLine);
    assert(after(h, todo, e1) =~= seq![gone] + none);
    lemma_then(h, todo, e1, gone, none, a1, EventView::Done);
    let e2 = e1.push(EventView::Done);
    assert(after(h, todo, e2) =~= none);
    assert(e2 =~= e + seq![end, EventView::Done]);
    assert(a1.push(ActionView::Remove(plain)) =~= a + seq![
        ActionView::NextLine,
        ActionView::Remove(plain),
    ]);
}

/// What an edit asks for: the checksum of the passwords, the editor, and the checksum again.
pub open spec fn editing(plain: Text) -> Seq<ActionView> {
    seq![
        ActionView::Hash(plain),
        to_run("emacs"@, seq!["-nw"@, plain]),
        ActionView::Hash(plain),
    ]
}

/// What encrypts the passwords again.
pub open spec fn encrypting(h: Host, plain: Text, file: Text) -> ActionView {
    to_run(
        "gpg"@,
        seq![
            "-aes"@,
            "-r"@,
            h.config.inner().gpg_key->0@,
            "-u"@,
            h.config.inner().gpg_user->0@,
            "--output"@,
            file,
            plain,
        ],
    )
}

proof fn lemma_edited(
    h: Host,
    opts: ShowPasswordOpts,
    token: Text,
    t: i64,
    names: Seq<Seq<u8>>,
    last: Text,
    first: Text,
    second: Text,
)
    requires
        can_open(h, opts, t, names, last),
        opts is Edit,
    ensures
        ({
            let plain = plain_at(t, token);
            let edit = purpose(h, opts)->Edit_0;
            let then = StepView::Password(
                PasswordStepView::HashAfter { plain, before: first, edit },
            );
            goes(
                h,
                file_steps(h, opts, token),
                opening(opts, t, names) + seq![
                    EventView::Text(first),
                    success(),
                    EventView::Text(second),
                ],
                expand(h, then, EventView::Text(second)) + seq![StepView::Remove(plain)],
                opening_actions(h, opts, token, t, names, last) + editing(plain),
            )
        }),
{
    let todo = file_steps(h, opts, token);
    let plain = plain_at(t, token);
    let edit = purpose(h, opts)->Edit_0;
    let e = opening(opts, t, names);
    let a = opening_actions(h, opts, token, t, names, last);
    let hash = StepView::Password(PasswordStepView::HashBefore { plain, edit });
    let then = StepView::Password(PasswordStepView::HashAfter { plain, before: first, edit });
    let run = edit_step(plain);
    let gone = StepView::Remove(plain);
    lemma_opened(h, opts, token, t, names, last);
    assert(after(h, todo, e) =~= seq![hash] + seq![gone]);
    lemma_then(h, todo, e, hash, seq![gone], a, EventView::Text(first));
    let e1 = e.push(EventView::Text(first));
    let a1 = a.push(ActionView::Hash(plain));
    assert(after(h, todo, e1) =~= seq![run] + (seq![then] + seq![gone]));
    lemma_then(h, todo, e1, run, seq![then] + seq![gone], a1, success());
    let e2 = e1.push(success());
    let a2 = a1.push(editing(plain)[1]);
    assert(after(h, todo, e2) =~= seq![then] + seq![gone]);
    lemma_then(h, todo, e2, then, seq![gone], a2, EventView::Text(second));
    assert(e2.push(EventView::Text(second)) =~= e + seq![
        EventView::Text(first),
        success(),
        EventView::Text(second),
    ]);
    assert(a2.push(ActionView::Hash(plain)) =~= a + editing(plain));
}

/// An edit that changes nothing encrypts nothing: what was decrypted is removed, and that is all.
pub proof fn law_unchanged_edit(
    h: Host,
    opts: ShowPasswordOpts,
    token: Text,
    t: i64,
    names: Seq<Seq<u8>>,
    last: Text,
    hash: Text,
)
    requires
        can_open(h, opts, t, names, last),
        opts is Edit,
    ensures
        goes(
            h,
            file_steps(h, opts, token),
            opening(opts, t, names) + seq![
                EventView::Text(hash),
                success(),
                EventView::Text(hash),
                EventView::Done,
            ],
            seq![],
            opening_actions(h, opts, token, t, names, last) + editing(plain_at(t, token)) + seq![
                ActionView::Remove(plain_at(t, token)),
            ],
        ),
{
    let todo = file_steps(h, opts, token);
    let plain = plain_at(t, token);
    let none = Seq::<StepView>::empty();
    let gone = StepView::Remove(plain);
    let e = opening(opts, t, names) + seq![EventView::Text(hash), success(), EventView::Text(hash)];
    let a = opening_actions(h, opts, token, t, names, last) + editing(plain);
    lemma_edited(h, opts, token, t, names, last, hash, hash);
    assert(after(h, todo, e) =~= seq![gone] + none);
    lemma_then(h, todo, e, gone, none, a, EventView::Done);
    let e1 = e.push(EventView::Done);
    assert(after(h, todo, e1) =~= none);
    assert(e1 =~= opening(opts, t, names) + seq![
        EventView::Text(hash),
        success(),
        EventView::Text(hash),
        EventView::Done,
    ]);
    assert(a.push(ActionView::Remove(plain)) =~= a + seq![ActionView::Remove(plain)]);
}

/// An edit that changes something is encrypted for the key and by the user of the settings: to the
/// file that was given for it, else to one that is named by the date on which it is encrypted.
/// Then what was decrypted is removed.
pub proof fn law_changed_edit(
    h: Host,
    opts: ShowPasswordOpts,
    token: Text,
    t: i64,
    names: Seq<Seq<u8>>,
    last: Text,
    first: Text,
    second: Text,
    later: i64,
)
    requires
        can_open(h, opts, t, names, last),
        opts is Edit,
        first != second,
        is_calendar_time(later as int),
    ensures
        opts matches ShowPasswordOpts::Edit { output, .. } ==> (output matches Some(file) ==> goes(
            h,
            file_steps(h, opts, token),
            opening(opts, t, names) + seq![
                EventView::Text(first),
                success(),
                EventView::Text(second),
                success(),
                EventView::Done,
            ],
            seq![],
            opening_actions(h, opts, token, t, names, last) + editing(plain_at(t, token)) + seq![
                encrypting(h, plain_at(t, token), file@),
                ActionView::Remove(plain_at(t, token)),
            ],
        )),
        opts matches ShowPasswordOpts::Edit { output, .. } ==> (output is None ==> goes(
            h,
            file_steps(h, opts, token),
            opening(opts, t, names) + seq![
                EventView::Text(first),
                success(),
                EventView::Text(second),
                EventView::Clock(later),
                success(),
                EventView::Done,
            ],
            seq![],
            opening_actions(h, opts, token, t, names, last) + editing(plain_at(t, token)) + seq![
                ActionView::Clock,
                encrypting(
                    h,
                    plain_at(t, token),
                    joined_path(
                        h.config.inner().password_directory@,
                        "passwords_"@ + utc_date_text(later) + ".txt.asc"@,
                    ),
                ),
                ActionView::Remove(plain_at(t, token)),
            ],
        )),
{
    let todo = file_steps(h, opts, token);
    let plain = plain_at(t, token);
    let none = Seq::<StepView>::empty();
    let gone = StepView::Remove(plain);
    let edit = purpose(h, opts)->Edit_0;
    let e0 = opening(opts, t, names);
    let a0 = opening_actions(h, opts, token, t, names, last);
    let e = e0 + seq![EventView::Text(first), success(), EventView::Text(second)];
    let a = a0 + editing(plain);
    lemma_edited(h, opts, token, t, names, last, first, second);
    match edit.output {
        Some(file) => {
            let run = encrypt_step(edit, plain, file);
            let act = encrypting(h, plain, file);
            assert(after(h, todo, e) =~= seq![run] + seq![gone]);
            lemma_then(h, todo, e, run, seq![gone], a, success());
            assert(ask(h, run) == act);
            let e1 = e.push(success());
            let a1 = a.push(act);
            assert(after(h, todo, e1) =~= seq![gone] + none);
            lemma_then(h, todo, e1, gone, none, a1, EventView::Done);
            let e2 = e1.push(EventView::Done);
            assert(after(h, todo, e2) =~= none);
            assert(e2 =~= e0 + seq![
                EventView::Text(first),
                success(),
                EventView::Text(second),
                success(),
                EventView::Done,
            ]);
            assert(a1.push(ActionView::Remove(plain)) =~= a0 + editing(plain) + seq![
                act,
                ActionView::Remove(plain),
            ]);
        },
        None => {
            let file = joined_path(
                h.config.inner().password_directory@,
                "passwords_"@ + utc_date_text(later) + ".txt.asc"@,
            );
            let clock = StepView::Password(PasswordStepView::Encrypt { plain, edit });
            let run = encrypt_step(edit, plain, file);
            let act = encrypting(h, plain, file);
            let c = EventView::Clock(later);
            assert(after(h, todo, e) =~= seq![clock] + seq![gone]);
            lemma_then(h, todo, e, clock, seq![gone], a, c);
            let e1 = e.push(c);
            let a1 = a.push(ActionView::Clock);
            assert(after(h, todo, e1) =~= seq![run] + seq![gone]);
            lemma_then(h, todo, e1, run, seq![gone], a1, success());
            assert(ask(h, run) == act);
            let e2 = e1.push(success());
            let a2 = a1.push(act);
            assert(after(h, todo, e2) =~= seq![gone] + none);
            lemma_then(h, todo, e2, gone, none, a2, EventView::Done);
            let e3 = e2.push(EventView::Done);
            assert(after(h, todo, e3) =~= none);
            assert(e3 =~= e0 + seq![
                EventView::Text(first),
                success(),
                EventView::Text(second),
                c,
                success(),
                EventView::Done,
            ]);
            assert(a2.push(ActionView::Remove(plain)) =~= a0 + editing(plain) + seq![
                ActionView::Clock,
                act,
                ActionView::Remove(plain),
            ]);
        },
    }
}

// ---------------------------------------------------------------------------
// What is never done
// ---------------------------------------------------------------------------

/// Whether a command that decrypts a file decrypts this one.
pub open spec fn decrypts_only(c: CommandView, path: Text) -> bool {
    c.program == "gpg"@ && c.args.len() == 5 && c.args[3] == "-d"@ ==> c.args[4] == path
}

/// Whether a step works with the password file that was given, and with no other.
spec fn uses_given(s: StepView, path: Text) -> bool {
    match s {
        StepView::Say(_) | StepView::Log(_) | StepView::Remove(_) | StepView::Halt(_) => true,
        StepView::Run { command, .. } => decrypts_only(command, path),
        StepView::Password(p) => match p {
            PasswordStepView::Begin { input, .. } => input == Some(path),
            PasswordStepView::Given { path: x, .. } => x == path,
            PasswordStepView::OpenList { .. } | PasswordStepView::Scan { .. } => false,
            _ => true,
        },
        _ => false,
    }
}

proof fn lemma_uses_given(h: Host, s: StepView, e: EventView, path: Text)
    requires
        uses_given(s, path),
        answers(s, e),
    ensures
        forall|i: int|
            0 <= i < expand(h, s, e).len() ==> uses_given(#[trigger] expand(h, s, e)[i], path),
{
    match s {
        StepView::Password(PasswordStepView::Search { query, send }) => match e {
            EventView::Text(line) => {
                assert(sends(h, line).len() == 1);
                assert(telegram(h, line).args.len() == 4);
            },
            _ => {},
        },
        StepView::Password(PasswordStepView::HashBefore { plain, .. }) => {
            assert(edit_command(plain).args.len() == 2);
        },
        StepView::Password(PasswordStepView::HashAfter { plain, edit, .. }) => match edit.output {
            Some(file) => {
                assert(encrypt_command(edit, plain, file).args.len() == 8);
            },
            None => {},
        },
        StepView::Password(PasswordStepView::Encrypt { plain, edit }) => match e {
            EventView::Clock(t) => {
                assert(encrypt_command(edit, plain, dated_file(h, utc_date_text(t))).args.len()
                    == 8);
            },
            _ => {},
        },
        _ => {},
    }
}

/// Where a password file was given, the password directory is never listed, and no other file is
/// ever decrypted, whatever is to be done and whatever is answered.
pub proof fn law_only_the_given_file(
    h: Host,
    opts: ShowPasswordOpts,
    todo: Seq<StepView>,
    path: Text,
    events: Seq<EventView>,
)
    requires
        can_be_steps(h, opts, todo),
        given(opts) == Some(path),
        possible(h, todo, events),
    ensures
        ({
            let next = next_action(h, after(h, todo, events));
            &&& !(next is OpenDir)
            &&& !(next is NextEntry)
            &&& next matches ActionView::Status(c) ==> decrypts_only(c, path)
        }),
{
    let p = |s: StepView| uses_given(s, path);
    assert(keeps(h, p, events)) by {
        assert forall|s: StepView, e: EventView, i: int|
            p(s) && events.contains(e) && answers(s, e) && 0 <= i < expand(
                h,
                s,
                e,
            ).len() implies p(#[trigger] expand(h, s, e)[i]) by {
            lemma_uses_given(h, s, e, path);
        }
    }
    assert forall|i: int| 0 <= i < todo.len() implies p(#[trigger] todo[i]) by {}
    lemma_kept(h, p, events, todo, events);
    let now = after(h, todo, events);
    if now.len() > 0 {
        assert(p(now[0]));
    }
}

// ---------------------------------------------------------------------------
// New passwords
// ---------------------------------------------------------------------------

pub open spec fn is_upper(c: char) -> bool {
    'A' <= c <= 'Z'
}

pub open spec fn is_lower(c: char) -> bool {
    'a' <= c <= 'z'
}

pub open spec fn is_number(c: char) -> bool {
    '0' <= c <= '9'
}

pub open spec fn is_special(c: char) -> bool {
    ||| c == '~' || c == '@' || c == '#' || c == '$' || c == '%' || c == '^' || c == '&'
    ||| c == '*' || c == ',' || c == '.' || c == '(' || c == ')' || c == '|' || c == '/'
    ||| c == '?'
}

proof fn lemma_letters(first: char, last: char, n: nat, c: char)
    requires
        first <= last <= '\u{7f}',
        n == last as int - first as int + 1,
    ensures
        letters(first, n).contains(c) <==> first <= c <= last,
{
    let v = letters(first, n);
    if v.contains(c) {
        let i = choose|i: int| 0 <= i < v.len() && v[i] == c;
        assert(v[i] == (first as int + i) as char);
    }
    if first <= c <= last {
        let i = c as int - first as int;
        assert(v[i] == c);
    }
}

/// The alphabets are the upper case letters, the lower case letters, the digits and the special
/// characters, and nothing else.
pub proof fn law_alphabets(c: char)
    ensures
        letters('A', 26).contains(c) <==> is_upper(c),
        letters('a', 26).contains(c) <==> is_lower(c),
        letters('0', 10).contains(c) <==> is_number(c),
        upper_lower().contains(c) <==> is_upper(c) || is_lower(c),
        upper_lower_digits().contains(c) <==> is_upper(c) || is_lower(c) || is_number(c),
        all_chars().contains(c) <==> is_upper(c) || is_lower(c) || is_number(c) || is_special(c),
{
    lemma_letters('A', 'Z', 26, c);
    lemma_letters('a', 'z', 26, c);
    lemma_letters('0', '9', 10, c);
    lemma_either(letters('A', 26), letters('a', 26), c);
    lemma_either(upper_lower(), letters('0', 10), c);
    lemma_either(upper_lower_digits(), "~@#$%^&*,.()|/?"@, c);
    reveal_strlit("~@#$%^&*,.()|/?");
    let s = "~@#$%^&*,.()|/?"@;
    if is_special(c) {
        assert(s[0] == '~' && s[1] == '@' && s[2] == '#' && s[3] == '$' && s[4] == '%');
        assert(s[5] == '^' && s[6] == '&' && s[7] == '*' && s[8] == ',' && s[9] == '.');
        assert(s[10] == '(' && s[11] == ')' && s[12] == '|' && s[13] == '/' && s[14] == '?');
        assert(s.contains(c));
    }
    if s.contains(c) {
        let i = choose|i: int| 0 <= i < s.len() && s[i] == c;
        assert(is_special(s[i]));
    }
}

proof fn lemma_either(a: Seq<char>, b: Seq<char>, c: char)
    ensures
        (a + b).contains(c) <==> a.contains(c) || b.contains(c),
{
    if a.contains(c) {
        let i = choose|i: int| 0 <= i < a.len() && a[i] == c;
        assert((a + b)[i] == c);
    }
    if b.contains(c) {
        let i = choose|i: int| 0 <= i < b.len() && b[i] == c;
        assert((a + b)[a.len() + i] == c);
    }
    if (a + b).contains(c) {
        let i = choose|i: int| 0 <= i < (a + b).len() && (a + b)[i] == c;
        if i < a.len() {
            assert(a[i] == c);
        } else {
            assert(b[i - a.len()] == c);
        }
    }
}

/// Whether these are five passwords, all of the length that was asked for or of 16 characters: of
/// upper case letters; of lower case letters; of letters; of letters and digits; and of letters,
/// digits and special characters.
pub open spec fn are_wanted(opts: ShowPasswordOpts, v: Seq<Text>) -> bool {
    &&& v.len() == 5
    &&& forall|k: int|
        0 <= k < 5 ==> (#[trigger] v[k]).len() == (match opts {
            ShowPasswordOpts::Create { number_of_characters: Some(n) } => n as nat,
            _ => 16,
        })
    &&& forall|i: int| 0 <= i < v[0].len() ==> is_upper(#[trigger] v[0][i])
    &&& forall|i: int| 0 <= i < v[1].len() ==> is_lower(#[trigger] v[1][i])
    &&& forall|i: int| 0 <= i < v[2].len() ==> is_upper(#[trigger] v[2][i]) || is_lower(v[2][i])
    &&& forall|i: int|
        0 <= i < v[3].len() ==> is_upper(#[trigger] v[3][i]) || is_lower(v[3][i]) || is_number(
            v[3][i],
        )
    &&& forall|i: int|
        0 <= i < v[4].len() ==> is_upper(#[trigger] v[4][i]) || is_lower(v[4][i]) || is_number(
            v[4][i],
        ) || is_special(v[4][i])
}

proof fn lemma_wanted(opts: ShowPasswordOpts, v: Seq<Text>, n: nat)
    requires
        opts matches ShowPasswordOpts::Create { number_of_characters } && n == (
        match number_of_characters {
            Some(n) => n as nat,
            None => 16,
        }),
    ensures
        are_passwords(v, n) <==> are_wanted(opts, v),
{
    assert forall|c: char| #[trigger] letters('A', 26).contains(c) <==> is_upper(c) by {
        law_alphabets(c);
    }
    assert forall|c: char| #[trigger] letters('a', 26).contains(c) <==> is_lower(c) by {
        law_alphabets(c);
    }
    assert forall|c: char| #[trigger] upper_lower().contains(c) <==> is_upper(c) || is_lower(c) by {
        law_alphabets(c);
    }
    assert forall|c: char| #[trigger]
        upper_lower_digits().contains(c) <==> is_upper(c) || is_lower(c) || is_number(c) by {
        law_alphabets(c);
    }
    assert forall|c: char| #[trigger]
        all_chars().contains(c) <==> is_upper(c) || is_lower(c) || is_number(c) || is_special(
            c,
        ) by {
        law_alphabets(c);
    }
    if are_passwords(v, n) {
        assert forall|k: int| 0 <= k < 5 implies (#[trigger] v[k]).len() == n by {
            assert(k == 0 || k == 1 || k == 2 || k == 3 || k == 4);
        }
        assert(are_wanted(opts, v));
    }
    if are_wanted(opts, v) {
        assert(v[0].len() == n && v[1].len() == n && v[2].len() == n);
        assert(v[3].len() == n && v[4].len() == n);
        assert(are_passwords(v, n));
    }
}

/// To create passwords is to show five of them, one to a line. Any that are wanted may come.
pub proof fn law_created_passwords(h: Host, opts: ShowPasswordOpts, todo: Seq<StepView>)
    requires
        opts is Create,
    ensures
        can_be_steps(h, opts, todo) <==> exists|v: Seq<Text>| #[trigger]
            are_wanted(opts, v) && todo == seq![StepView::Say(joined(v, "\n"@))],
{
    let n = match opts {
        ShowPasswordOpts::Create { number_of_characters: Some(n) } => n as nat,
        _ => 16,
    };
    if can_be_steps(h, opts, todo) {
        let v = choose|v: Seq<Text>|
            #![trigger joined(v, "\n"@)]
            are_passwords(v, n) && todo == seq![StepView::Say(joined(v, "\n"@))];
        lemma_wanted(opts, v, n);
    }
    if exists|v: Seq<Text>| #[trigger]
        are_wanted(opts, v) && todo == seq![StepView::Say(joined(v, "\n"@))] {
        let v = choose|v: Seq<Text>| #[trigger]
            are_wanted(opts, v) && todo == seq![StepView::Say(joined(v, "\n"@))];
        lemma_wanted(opts, v, n);
        assert(todo == seq![StepView::Say(joined(v, "\n"@))]);
    }
}

/// A password is what stands in the alphabet at the places that were drawn, one after the other.
pub proof fn law_picked(chars: Seq<char>, place: usize, a: Seq<usize>, b: Seq<usize>)
    ensures
        picked(chars, seq![]) == Seq::<char>::empty(),
        picked(chars, seq![place]) == seq![chars[place as int]],
        picked(chars, a + b) == picked(chars, a) + picked(chars, b),
{
    assert(picked(chars, seq![]) =~= Seq::<char>::empty());
    assert(picked(chars, seq![place]) =~= seq![chars[place as int]]);
    assert(picked(chars, a + b) =~= picked(chars, a) + picked(chars, b));
}

/// The work with a password file is told apart by 16 letters and digits, any that may be drawn.
pub proof fn law_token(h: Host, opts: ShowPasswordOpts, todo: Seq<StepView>)
    requires
        !(opts is Create),
    ensures
        can_be_steps(h, opts, todo) <==> exists|token: Text|
            {
                &&& todo == #[trigger] file_steps(h, opts, token)
                &&& token.len() == 16
                &&& forall|i: int|
                    0 <= i < token.len() ==> is_upper(#[trigger] token[i]) || is_lower(token[i])
                        || is_number(token[i])
            },
{
    if can_be_steps(h, opts, todo) {
        let token = choose|token: Text|
            is_token(token, 16) && todo == #[trigger] file_steps(h, opts, token);
        assert(todo == file_steps(h, opts, token));
    }
}

} // verus!
