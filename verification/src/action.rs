//! What a script asks of the outside world, and what it is told.

use vstd::prelude::*;

use crate::text::{clone_opt, clone_texts, opt_text, texts, Text};

verus! {

/// A program to run, with its arguments, in a directory of its own or in the current one.
#[derive(Debug, PartialEq, Eq)]
pub struct Command {
    pub program: String,
    pub args: Vec<String>,
    pub dir: Option<String>,
}

/// What a `Command` holds.
#[verifier::ext_equal]
pub struct CommandView {
    pub program: Text,
    pub args: Seq<Text>,
    pub dir: Option<Text>,
}

impl View for Command {
    type V = CommandView;

    open spec fn view(&self) -> CommandView {
        CommandView { program: self.program@, args: texts(self.args@), dir: opt_text(self.dir) }
    }
}

impl Command {
    /// `program` with `args`, in the current directory.
    pub fn new(program: &str, args: Vec<String>) -> (r: Command)
        ensures
            r@ == (CommandView { program: program@, args: texts(args@), dir: None }),
    {
        Command { program: program.to_string(), args, dir: None }
    }

    /// `program` with `args`, in the directory `dir`.
    pub fn within(dir: &str, program: &str, args: Vec<String>) -> (r: Command)
        ensures
            r@ == (CommandView { program: program@, args: texts(args@), dir: Some(dir@) }),
    {
        Command { program: program.to_string(), args, dir: Some(dir.to_string()) }
    }

    /// The same program once more.
    pub fn copy(&self) -> (r: Command)
        ensures
            r@ == self@,
    {
        Command {
            program: self.program.clone(),
            args: clone_texts(&self.args),
            dir: clone_opt(&self.dir),
        }
    }
}

/// A program that runs while the script goes on.
#[derive(Debug, Clone, Copy, PartialEq, Eq)]
pub enum Slot {
    Weather,
    Calendar,
}

/// What a script asks for next. Each is answered by one `Event`.
#[derive(Debug, PartialEq, Eq)]
pub enum Action {
    /// Write a line to standard output.
    Say(String),
    /// Write a line to standard error.
    SayErr(String),
    /// Log an error.
    Log(String),
    /// Does this path exist?
    Exists(String),
    /// Run a program to its end, on the terminal of this one.
    Status(Command),
    /// Run a program to its end and pass on the lines that it writes.
    Pipe(Command),
    /// Run a program to its end and keep what it writes.
    Output(Command),
    /// Start a program.
    Spawn { slot: Slot, command: Command },
    /// Wait for a program that was started, and give what it wrote.
    Collect(Slot),
    /// Rename a file.
    Rename { from: String, to: String },
    /// Remove a file.
    Remove(String),
    /// Remove a directory and all that is in it.
    RemoveTree(String),
    /// Let this many seconds pass.
    Sleep(u64),
    /// Bring all repositories up to date.
    UpdateRepos,
    /// How long is this file?
    FileLength(String),
    /// All of a file as text.
    ReadText(String),
    /// The first line of a file as text, with its line end.
    ReadLine(String),
    /// The name of the user.
    User,
    /// The local time of day with the date and the offset from UTC.
    LocalTime,
    /// The number of seconds since the beginning of 1970.
    Clock,
    /// Begin to list a directory.
    OpenDir(String),
    /// The name of the next entry of the directory that is being listed.
    NextEntry,
    /// When the entry that was named last was modified, in seconds since the beginning of 1970.
    EntryModified,
    /// All of the file `name` of the directory `dir` as text.
    ReadEntry { dir: String, name: Vec<u8> },
    /// Remove the file `name` of the directory `dir`.
    RemoveEntry { dir: String, name: Vec<u8> },
    /// Begin to read a file line by line.
    OpenLines(String),
    /// The next line of the file that is being read, with its line end.
    NextLine,
    /// The checksum of a file.
    Hash(String),
    /// A number of seconds with a fraction, as text: its whole part and its fraction.
    Measure(Option<String>),
    /// Nothing more: the script has succeeded, or failed with a message.
    Finish(Option<String>),
}

/// What an `Action` holds.
#[verifier::ext_equal]
pub enum ActionView {
    Say(Text),
    SayErr(Text),
    Log(Text),
    Exists(Text),
    Status(CommandView),
    Pipe(CommandView),
    Output(CommandView),
    Spawn { slot: Slot, command: CommandView },
    Collect(Slot),
    Rename { from: Text, to: Text },
    Remove(Text),
    RemoveTree(Text),
    Sleep(u64),
    UpdateRepos,
    FileLength(Text),
    ReadText(Text),
    ReadLine(Text),
    User,
    LocalTime,
    Clock,
    OpenDir(Text),
    NextEntry,
    EntryModified,
    ReadEntry { dir: Text, name: Seq<u8> },
    RemoveEntry { dir: Text, name: Seq<u8> },
    OpenLines(Text),
    NextLine,
    Hash(Text),
    Measure(Option<Text>),
    Finish(Option<Text>),
}

impl View for Action {
    type V = ActionView;

    open spec fn view(&self) -> ActionView {
        match self {
            Action::Say(s) => ActionView::Say(s@),
            Action::SayErr(s) => ActionView::SayErr(s@),
            Action::Log(s) => ActionView::Log(s@),
            Action::Exists(s) => ActionView::Exists(s@),
            Action::Status(c) => ActionView::Status(c@),
            Action::Pipe(c) => ActionView::Pipe(c@),
            Action::Output(c) => ActionView::Output(c@),
            Action::Spawn { slot, command } => ActionView::Spawn { slot: *slot, command: command@ },
            Action::Collect(slot) => ActionView::Collect(*slot),
            Action::Rename { from, to } => ActionView::Rename { from: from@, to: to@ },
            Action::Remove(s) => ActionView::Remove(s@),
            Action::RemoveTree(s) => ActionView::RemoveTree(s@),
            Action::Sleep(n) => ActionView::Sleep(*n),
            Action::UpdateRepos => ActionView::UpdateRepos,
            Action::FileLength(s) => ActionView::FileLength(s@),
            Action::ReadText(s) => ActionView::ReadText(s@),
            Action::ReadLine(s) => ActionView::ReadLine(s@),
            Action::User => ActionView::User,
            Action::LocalTime => ActionView::LocalTime,
            Action::Clock => ActionView::Clock,
            Action::OpenDir(s) => ActionView::OpenDir(s@),
            Action::NextEntry => ActionView::NextEntry,
            Action::EntryModified => ActionView::EntryModified,
            Action::ReadEntry { dir, name } => ActionView::ReadEntry { dir: dir@, name: name@ },
            Action::RemoveEntry { dir, name } => ActionView::RemoveEntry { dir: dir@, name: name@ },
            Action::OpenLines(s) => ActionView::OpenLines(s@),
            Action::NextLine => ActionView::NextLine,
            Action::Hash(s) => ActionView::Hash(s@),
            Action::Measure(o) => ActionView::Measure(opt_text(*o)),
            Action::Finish(o) => ActionView::Finish(opt_text(*o)),
        }
    }
}

/// What a script is told about the action that it asked for.
#[derive(Debug, PartialEq, Eq)]
pub enum Event {
    /// It was done.
    Done,
    /// Yes or no.
    Answer(bool),
    /// A program ended with this exit code, or without one.
    Exit(Option<i32>),
    /// What a program wrote.
    Output(Vec<u8>),
    /// A text.
    Text(String),
    /// The file could not be opened.
    NotOpened,
    /// A length in bytes.
    Length(u64),
    /// The name of a directory entry.
    Entry(Vec<u8>),
    /// There is no further entry or line.
    End,
    /// A number of seconds.
    Seconds(u64),
    /// The time since the beginning of 1970.
    Clock(i64),
    /// A number of seconds: its whole part, and its fraction to three places.
    Uptime { whole_seconds: i64, subseconds: String },
    /// It could not be done.
    Failed(String),
}

/// What an `Event` holds.
#[verifier::ext_equal]
pub enum EventView {
    Done,
    Answer(bool),
    Exit(Option<i32>),
    Output(Seq<u8>),
    Text(Text),
    NotOpened,
    Length(u64),
    Entry(Seq<u8>),
    End,
    Seconds(u64),
    Clock(i64),
    Uptime { whole_seconds: i64, subseconds: Text },
    Failed(Text),
}

impl View for Event {
    type V = EventView;

    open spec fn view(&self) -> EventView {
        match self {
            Event::Done => EventView::Done,
            Event::Answer(b) => EventView::Answer(*b),
            Event::Exit(c) => EventView::Exit(*c),
            Event::Output(b) => EventView::Output(b@),
            Event::Text(s) => EventView::Text(s@),
            Event::NotOpened => EventView::NotOpened,
            Event::Length(n) => EventView::Length(*n),
            Event::Entry(b) => EventView::Entry(b@),
            Event::End => EventView::End,
            Event::Seconds(n) => EventView::Seconds(*n),
            Event::Clock(n) => EventView::Clock(*n),
            Event::Uptime { whole_seconds, subseconds } => EventView::Uptime {
                whole_seconds: *whole_seconds,
                subseconds: subseconds@,
            },
            Event::Failed(s) => EventView::Failed(s@),
        }
    }
}

} // verus!
