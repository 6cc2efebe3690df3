//! The event file through which a command reaches a running instance: what
//! a sender writes, and what the receiver makes of what it reads.
use vstd::prelude::*;

use std::path::PathBuf;

use crate::cli::word_command;
use crate::text::{is_ws, trim, trim_end, trim_start, trimmed};
use crate::EVENT_FILE;

verus! {

/// `std::path::PathBuf`, carried through as an opaque value.
#[verifier::external_type_specification]
#[verifier::external_body]
pub struct ExPathBuf(PathBuf);

/// Where events arrive: the watched directory and the event file in it.
pub struct FileWatcher {
    directory: PathBuf,
    event_file: PathBuf,
}

impl FileWatcher {
    /// The watched directory.
    pub closed spec fn directory_spec(&self) -> PathBuf {
        self.directory
    }

    /// The event file.
    pub closed spec fn event_file_spec(&self) -> PathBuf {
        self.event_file
    }

    /// A watcher for `event_file` inside `directory`.
    pub fn new(directory: PathBuf, event_file: PathBuf) -> (r: Self)
        ensures
            r.directory_spec() == directory,
            r.event_file_spec() == event_file,
    {
        Self { directory, event_file }
    }

    /// The watched directory.
    pub fn directory(&self) -> (r: &PathBuf)
        ensures
            *r == self.directory_spec(),
    {
        &self.directory
    }

    /// The event file.
    pub fn event_file(&self) -> (r: &PathBuf)
        ensures
            *r == self.event_file_spec(),
    {
        &self.event_file
    }

    /// The event that the event file held, given its raw contents (which the
    /// caller has read from [`FileWatcher::event_file`] before removing the
    /// file): the contents without surrounding whitespace.
    pub fn read_event(&self, contents: &str) -> (r: String)
        ensures
            r@ == trimmed(contents@),
    {
        trim(contents)
    }
}

/// A file to write: its name inside the configuration directory and its
/// contents.
pub struct FileWrite {
    pub file_name: String,
    pub contents: String,
}

/// The write that hands `word` to a running instance: the word, as the
/// whole contents of the event file.
pub fn send_event(word: &str) -> (w: FileWrite)
    ensures
        w.file_name@ == EVENT_FILE@,
        w.contents@ == word@,
{
    FileWrite { file_name: String::from_str(EVENT_FILE), contents: String::from_str(word) }
}

proof fn lemma_trimmed_fixed(s: Seq<char>)
    requires
        s.len() > 0,
        !is_ws(s[0]),
        !is_ws(s.last()),
    ensures
        trimmed(s) == s,
{
    assert(trim_start(s) == s);
    assert(trim_end(s) == s);
}

/// A command word written by [`send_event`] and read back by
/// [`FileWatcher::read_event`] names the same command.
pub proof fn lemma_event_round_trip(word: Seq<char>)
    requires
        word_command(word) is Some,
    ensures
        word_command(trimmed(word)) == word_command(word),
{
    reveal_strlit("halt");
    reveal_strlit("next");
    reveal_strlit("reload");
    lemma_trimmed_fixed(word);
}

} // verus!
