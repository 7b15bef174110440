//! Filters: which snapshots and which processes a command is about.
//!
//! A filter is written `key=value`. A key that begins with `comm` asks for a
//! command, one that begins with `hash` for a fingerprint.

use crate::number::{
    digit, digits, lemma_written_number_reads_back, parse_number, parsed,
};
use crate::snapshot::Snapshot;
use crate::text::{
    chars_of, contains, contains_text, find, first_index, has_char, lemma_first_index_is,
    starts_with, string_of, trim, trimmed,
};
use crate::util::fingerprint;
use vstd::prelude::*;
use vstd::slice::slice_subrange;

verus! {

/// What a filter asks for.
#[derive(Debug)]
pub enum Filter {
    /// A command that holds this text (of a snapshot) or begins with it (of a
    /// running process).
    Command(String),
    /// The snapshot with this fingerprint.
    Hash(u64),
    /// The key is neither of the two: nothing matches.
    Nothing,
}

/// A filter as a value.
pub enum FilterModel {
    Command(Seq<char>),
    Hash(u64),
    Nothing,
}

/// Why a filter was refused.
#[derive(Clone, Copy, Debug, PartialEq, Eq, Structural)]
pub enum FilterError {
    /// The text is not a key and a value with one `=` between them.
    InvalidSyntax,
    /// The value of a `hash` filter is no fingerprint in decimal digits.
    InvalidHash,
}

/// What a command is about.
#[derive(Debug)]
pub enum Target {
    /// The process with this id.
    Pid(i32),
    /// What the filter matches.
    Matching(Filter),
}

/// Why a command cannot run.
#[derive(Clone, Copy, Debug, PartialEq, Eq, Structural)]
pub enum CommandError {
    /// Neither a filter nor a process id was given.
    InvalidParameters,
}

impl View for Filter {
    type V = FilterModel;

    open spec fn view(&self) -> FilterModel {
        match self {
            Filter::Command(c) => FilterModel::Command(c@),
            Filter::Hash(h) => FilterModel::Hash(*h),
            Filter::Nothing => FilterModel::Nothing,
        }
    }
}

/// What the text of a filter says.
pub open spec fn parse_filter(s: Seq<char>) -> Result<FilterModel, FilterError> {
    let eq = first_index(s, '=');
    let key = s.take(eq);
    let val = s.skip(eq + 1);
    if eq >= s.len() || val.contains('=') {
        Err(FilterError::InvalidSyntax)
    } else if "comm"@.is_prefix_of(key) {
        Ok(FilterModel::Command(trim(val)))
    } else if "hash"@.is_prefix_of(key) {
        match parsed(val, 10, u64::MAX as int) {
            Some(h) => Ok(FilterModel::Hash(h as u64)),
            None => Err(FilterError::InvalidHash),
        }
    } else {
        Ok(FilterModel::Nothing)
    }
}

/// A stored snapshot matches a filter by its command: a command filter asks
/// that the command hold the text, a hash filter that it have the fingerprint.
pub open spec fn snapshot_matches(filter: FilterModel, command: Seq<char>) -> bool {
    match filter {
        FilterModel::Command(c) => contains(command, c),
        FilterModel::Hash(h) => fingerprint(command) == h,
        FilterModel::Nothing => false,
    }
}

/// A running process matches a command filter whose text its command begins
/// with, and no other filter.
pub open spec fn process_matches(filter: FilterModel, command: Seq<char>) -> bool {
    match filter {
        FilterModel::Command(c) => c.is_prefix_of(command),
        _ => false,
    }
}

impl Filter {
    /// Reads a filter.
    pub fn parse(s: &str) -> (r: Result<Filter, FilterError>)
        ensures
            match r {
                Ok(f) => parse_filter(s@) == Ok::<FilterModel, FilterError>(f@),
                Err(e) => parse_filter(s@) == Err::<FilterModel, FilterError>(e),
            },
    {
        let chars = chars_of(s);
        let all = chars.as_slice();
        let eq = find(all, '=');
        if eq >= all.len() {
            return Err(FilterError::InvalidSyntax);
        }
        let key = slice_subrange(all, 0, eq);
        let val = slice_subrange(all, eq + 1, all.len());
        if has_char(val, '=') {
            return Err(FilterError::InvalidSyntax);
        }
        if starts_with(key, chars_of("comm").as_slice()) {
            Ok(Filter::Command(string_of(trimmed(val))))
        } else if starts_with(key, chars_of("hash").as_slice()) {
            match parse_number(val, 10, u64::MAX) {
                Some(h) => Ok(Filter::Hash(h)),
                None => Err(FilterError::InvalidHash),
            }
        } else {
            Ok(Filter::Nothing)
        }
    }

    /// Tells whether a stored snapshot matches the filter.
    pub fn matches_snapshot(&self, snapshot: &Snapshot) -> (b: bool)
        ensures
            b == snapshot_matches(self@, snapshot.command@),
    {
        match self {
            Filter::Command(c) => {
                let command = chars_of(snapshot.command.as_str());
                let text = chars_of(c.as_str());
                contains_text(command.as_slice(), text.as_slice())
            },
            Filter::Hash(h) => snapshot.get_hash() == *h,
            Filter::Nothing => false,
        }
    }

    /// Tells whether a running process with this command matches the filter.
    pub fn matches_process(&self, command: &str) -> (b: bool)
        ensures
            b == process_matches(self@, command@),
    {
        match self {
            Filter::Command(c) => {
                let name = chars_of(command);
                let text = chars_of(c.as_str());
                starts_with(name.as_slice(), text.as_slice())
            },
            _ => false,
        }
    }
}

/// Tells whether a stored snapshot is among those that a command is about:
/// every snapshot where no filter is given, else those that match the filter.
pub fn match_filter(filter: Option<&Filter>, snapshot: &Snapshot) -> (b: bool)
    ensures
        b == match filter {
            Some(f) => snapshot_matches(f@, snapshot.command@),
            None => true,
        },
{
    match filter {
        Some(f) => f.matches_snapshot(snapshot),
        None => true,
    }
}

/// Tells whether a running process is among those that a command is about:
/// every process where no filter is given, else those that match the filter.
pub fn match_filter_process(filter: Option<&Filter>, command: &str) -> (b: bool)
    ensures
        b == match filter {
            Some(f) => process_matches(f@, command@),
            None => true,
        },
{
    match filter {
        Some(f) => f.matches_process(command),
        None => true,
    }
}

/// Tells whether the files of a stored snapshot are primed: the snapshot is
/// among those that the command is about, and it is enabled.
pub fn is_primed(filter: Option<&Filter>, snapshot: &Snapshot) -> (b: bool)
    ensures
        b == (snapshot.enabled && match filter {
            Some(f) => snapshot_matches(f@, snapshot.command@),
            None => true,
        }),
{
    snapshot.enabled && match_filter(filter, snapshot)
}

/// What a command that takes a process id or a filter is about. The process
/// id goes first; with neither the command cannot run.
pub fn select_target(filter: Option<Filter>, pid: Option<i32>) -> (r: Result<
    Target,
    CommandError,
>)
    ensures
        match r {
            Ok(Target::Pid(p)) => pid == Some(p),
            Ok(Target::Matching(f)) => pid is None && filter == Some(f),
            Err(e) => pid is None && filter is None && e == CommandError::InvalidParameters,
        },
{
    match pid {
        Some(p) => Ok(Target::Pid(p)),
        None => match filter {
            Some(f) => Ok(Target::Matching(f)),
            None => Err(CommandError::InvalidParameters),
        },
    }
}

/// The filter `hash=` with the fingerprint of a command in decimal digits
/// matches the snapshots of that command.
pub proof fn lemma_hash_filter_finds_command(command: Seq<char>)
    ensures
        ({
            let text = "hash"@ + seq!['='] + digits(fingerprint(command) as int, 10);
            match parse_filter(text) {
                Ok(filter) => snapshot_matches(filter, command),
                Err(_) => false,
            }
        }),
{
    let h = fingerprint(command);
    let number = digits(h as int, 10);
    let text = "hash"@ + seq!['='] + number;
    reveal_strlit("hash");
    reveal_strlit("comm");
    lemma_written_number_reads_back(h as int, 10, u64::MAX as int);
    lemma_first_index_is(text, '=', 4);
    assert(text.take(4) =~= "hash"@);
    assert(text.skip(5) =~= number);
    assert(!number.contains('=')) by {
        if number.contains('=') {
            let i = choose|i: int| 0 <= i < number.len() && number[i] == '=';
            assert(digit(number[i]) < 10);
        }
    }
    assert(!"comm"@.is_prefix_of("hash"@)) by {
        assert("comm"@[0] != "hash"@[0]);
        if "comm"@.is_prefix_of("hash"@) {
            assert("hash"@.subrange(0, 4)[0] == "comm"@[0]);
        }
    }
    assert("hash"@.is_prefix_of("hash"@)) by {
        assert("hash"@.subrange(0, 4) =~= "hash"@);
    }
}

} // verus!
