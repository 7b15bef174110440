//! The memory map of a process: its lines, the mappings they describe, and the
//! files behind them.

use crate::number::{digit, lemma_value_prefix, parse_number, parsed, value};
use crate::pathset::PathSet;
use crate::text::{
    after_first, blank, chars_of, contains, contains_text, find, first_index, has_char, is_blank,
    lemma_after_first, lemma_after_none, lemma_first_index_is, lemma_without_leading, lines,
    rest_after, same, slice_views, split_lines, string_of, strip_leading, trim, trimmed,
    without_leading,
};
use vstd::prelude::*;
use vstd::slice::slice_subrange;

verus! {

/// Why a line of a memory map was refused.
#[derive(Clone, Copy, Debug, PartialEq, Eq, Structural)]
pub enum ParseError {
    /// The line holds no space, so it has fewer than two fields.
    MissingField,
    /// The first field is not two hexadecimal numbers with a `-` between them,
    /// or one of them does not fit an address.
    InvalidAddress,
    /// The range ends at or before its start.
    EmptyRange,
}

/// Why a process could not be looked at.
#[derive(Clone, Copy, Debug, PartialEq, Eq, Structural)]
pub enum AccessError {
    /// The process is gone.
    NotFound,
    /// The process belongs to someone else.
    PermissionDenied,
    /// Reading failed for another reason.
    Other,
}

/// What can go wrong while a process is inspected.
#[derive(Clone, Copy, Debug, PartialEq, Eq, Structural)]
pub enum ProcessError {
    /// The files that describe the process could not be read.
    ReadError(AccessError),
    /// A line of the memory map was refused.
    ParseMappingError(ParseError),
    /// The processes could not be listed.
    EnumProcessesError,
}

/// One mapped range of addresses of a process.
#[derive(Debug, Clone, PartialEq)]
pub struct Mapping {
    /// The file behind the range; `None` for an anonymous range.
    pub file: Option<String>,
    /// First address of the range.
    pub start: usize,
    /// First address after the range.
    pub end: usize,
    pub read: bool,
    pub write: bool,
    pub execute: bool,
    pub shared: bool,
    pub private: bool,
}

/// A mapping as a value: its file as a text.
pub struct MappingModel {
    pub file: Option<Seq<char>>,
    pub start: usize,
    pub end: usize,
    pub read: bool,
    pub write: bool,
    pub execute: bool,
    pub shared: bool,
    pub private: bool,
}

impl View for Mapping {
    type V = MappingModel;

    open spec fn view(&self) -> MappingModel {
        MappingModel {
            file: match self.file {
                Some(f) => Some(f@),
                None => None,
            },
            start: self.start,
            end: self.end,
            read: self.read,
            write: self.write,
            execute: self.execute,
            shared: self.shared,
            private: self.private,
        }
    }
}

impl Mapping {
    /// The range is not empty.
    pub open spec fn wf(&self) -> bool {
        self.start < self.end
    }
}

/// The views of a list of mappings.
pub open spec fn mapping_views(v: Seq<Mapping>) -> Seq<MappingModel> {
    v.map_values(|m: Mapping| m@)
}

/// The path that a line of a memory map names: what follows its fifth field,
/// without the spaces that pad it on the left. It is empty where the line has
/// no more than five fields. A field ends at a space.
pub open spec fn path_text(s: Seq<char>) -> Seq<char> {
    without_leading(
        after_first(
            after_first(after_first(after_first(after_first(s, ' '), ' '), ' '), ' '),
            ' ',
        ),
        ' ',
    )
}

/// What a line of a memory map says.
///
/// The line is `start-end perms offset device inode path`, its fields parted
/// by single spaces; the path may be missing, and spaces may stand before it.
/// The first field holds two hexadecimal numbers, the second the permissions:
/// each of the letters `r`, `w`, `x`, `s`, `p` grants what it stands for by
/// being there. Only the first two fields must be there. The file is the path,
/// which is all that follows the fifth field; a line whose path is missing or
/// blank has no file.
pub open spec fn parse_mapping(s: Seq<char>) -> Result<MappingModel, ParseError> {
    let space = first_index(s, ' ');
    let address = s.take(space);
    let rest = s.skip(space + 1);
    let perms = rest.take(first_index(rest, ' '));
    let dash = first_index(address, '-');
    let start = parsed(address.take(dash), 16, usize::MAX as int);
    let end = parsed(address.skip(dash + 1), 16, usize::MAX as int);
    let path = path_text(s);
    if space >= s.len() {
        Err(ParseError::MissingField)
    } else if dash >= address.len() || start is None || end is None {
        Err(ParseError::InvalidAddress)
    } else if start->0 >= end->0 {
        Err(ParseError::EmptyRange)
    } else {
        Ok(
            MappingModel {
                file: if is_blank(path) {
                    None
                } else {
                    Some(path)
                },
                start: start->0 as usize,
                end: end->0 as usize,
                read: perms.contains('r'),
                write: perms.contains('w'),
                execute: perms.contains('x'),
                shared: perms.contains('s'),
                private: perms.contains('p'),
            },
        )
    }
}

/// What the lines of a memory map say: the mapping of each line, in order, or
/// the error of the first line that is refused.
pub open spec fn parse_mappings(ls: Seq<Seq<char>>) -> Result<Seq<MappingModel>, ParseError>
    decreases ls.len(),
{
    if ls.len() == 0 {
        Ok(Seq::empty())
    } else {
        match parse_mappings(ls.drop_last()) {
            Err(e) => Err(e),
            Ok(ms) => match parse_mapping(ls.last()) {
                Err(e) => Err(e),
                Ok(m) => Ok(ms.push(m)),
            },
        }
    }
}

/// A path that names no ordinary file: one of the kernel's names for a special
/// region, the path of a deleted file, or a blank.
pub open spec fn is_section(path: Seq<char>) -> bool {
    ||| path == "[vdso]"@
    ||| path == "[stack]"@
    ||| path == "[heap]"@
    ||| path == "[vsyscall]"@
    ||| path == "[vvar]"@
    ||| contains(path, "(deleted)"@)
    ||| is_blank(path)
}

/// The file of each mapping of a list, in order; `None` for a mapping that has
/// none.
pub open spec fn files_of(maps: Seq<MappingModel>) -> Seq<Option<Seq<char>>> {
    maps.map_values(|m: MappingModel| m.file)
}

/// The files behind a list of mappings: the file of each mapping that has one,
/// but for the paths that name no ordinary file.
pub open spec fn mapped_files(maps: Seq<MappingModel>) -> Set<Seq<char>> {
    Set::new(|f: Seq<char>| !is_section(f) && files_of(maps).to_set().contains(Some(f)))
}

/// The name of a process as its `comm` file gives it: without the white space
/// around it, up to the first NUL.
pub open spec fn command_of(comm: Seq<char>) -> Seq<char> {
    let t = trim(comm);
    t.take(first_index(t, '\0'))
}

/// The process that a directory entry names: its name in decimal digits, if it
/// is nothing else and fits a process id.
pub open spec fn pid_of(name: Seq<char>) -> Option<int> {
    parsed(name, 10, i32::MAX as int)
}

impl Mapping {
    /// Reads one line of a memory map.
    pub fn from_str(s: &str) -> (r: Result<Mapping, ParseError>)
        ensures
            match r {
                Ok(m) => parse_mapping(s@) == Ok::<MappingModel, ParseError>(m@) && m.wf(),
                Err(e) => parse_mapping(s@) == Err::<MappingModel, ParseError>(e),
            },
    {
        let chars = chars_of(s);
        Mapping::from_chars(chars.as_slice())
    }

    /// Reads one line of a memory map, given as characters.
    pub fn from_chars(s: &[char]) -> (r: Result<Mapping, ParseError>)
        ensures
            match r {
                Ok(m) => parse_mapping(s@) == Ok::<MappingModel, ParseError>(m@) && m.wf(),
                Err(e) => parse_mapping(s@) == Err::<MappingModel, ParseError>(e),
            },
    {
        let space = find(s, ' ');
        if space >= s.len() {
            return Err(ParseError::MissingField);
        }
        let address = slice_subrange(s, 0, space);
        let rest = slice_subrange(s, space + 1, s.len());
        let perms = slice_subrange(rest, 0, find(rest, ' '));
        let dash = find(address, '-');
        if dash >= address.len() {
            return Err(ParseError::InvalidAddress);
        }
        let limit = usize::MAX as u64;
        let start = match parse_number(slice_subrange(address, 0, dash), 16, limit) {
            Some(n) => n as usize,
            None => {
                return Err(ParseError::InvalidAddress);
            },
        };
        let end = match parse_number(
            slice_subrange(address, dash + 1, address.len()),
            16,
            limit,
        ) {
            Some(n) => n as usize,
            None => {
                return Err(ParseError::InvalidAddress);
            },
        };
        if start >= end {
            return Err(ParseError::EmptyRange);
        }
        let path = strip_leading(
            rest_after(rest_after(rest_after(rest_after(rest_after(s, ' '), ' '), ' '), ' '), ' '),
            ' ',
        );
        let file = if blank(path) {
            None
        } else {
            Some(string_of(path))
        };
        Ok(
            Mapping {
                file,
                start,
                end,
                read: has_char(perms, 'r'),
                write: has_char(perms, 'w'),
                execute: has_char(perms, 'x'),
                shared: has_char(perms, 's'),
                private: has_char(perms, 'p'),
            },
        )
    }
}

/// Tells whether `path` names no ordinary file.
pub fn is_section_mapping(path: &str) -> (b: bool)
    ensures
        b == is_section(path@),
{
    let chars = chars_of(path);
    is_section_text(chars.as_slice())
}

/// Tells whether the path with the characters `p` names no ordinary file.
pub fn is_section_text(p: &[char]) -> (b: bool)
    ensures
        b == is_section(p@),
{
    same(p, chars_of("[vdso]").as_slice()) || same(p, chars_of("[stack]").as_slice()) || same(
        p,
        chars_of("[heap]").as_slice(),
    ) || same(p, chars_of("[vsyscall]").as_slice()) || same(p, chars_of("[vvar]").as_slice())
        || contains_text(p, chars_of("(deleted)").as_slice()) || blank(p)
}

/// A process and its memory map.
#[derive(Debug)]
pub struct Process {
    /// The id of the process.
    pub pid: i32,
    /// Its mappings, in the order of its memory map.
    pub maps: Vec<Mapping>,
}

impl Process {
    /// The process `pid`, from the text of its memory map. The first line
    /// that is refused fails the whole map.
    pub fn new(pid: i32, maps: &str) -> (r: Result<Process, ProcessError>)
        ensures
            match r {
                Ok(p) => {
                    &&& p.pid == pid
                    &&& parse_mappings(lines(maps@)) == Ok::<Seq<MappingModel>, ParseError>(
                        mapping_views(p.maps@),
                    )
                    &&& forall|i: int| 0 <= i < p.maps@.len() ==> (#[trigger] p.maps@[i]).wf()
                },
                Err(e) => match parse_mappings(lines(maps@)) {
                    Err(cause) => e == ProcessError::ParseMappingError(cause),
                    Ok(_) => false,
                },
            },
    {
        let chars = chars_of(maps);
        let ls = split_lines(chars.as_slice());
        let mut found: Vec<Mapping> = Vec::new();
        let ghost all = lines(maps@);
        assert(all.take(0) =~= Seq::<Seq<char>>::empty());
        assert(mapping_views(found@) =~= Seq::<MappingModel>::empty());
        let mut i: usize = 0;
        while i < ls.len()
            invariant
                i <= ls.len(),
                slice_views(ls@) == all,
                all == lines(maps@),
                forall|j: int| 0 <= j < found@.len() ==> (#[trigger] found@[j]).wf(),
                parse_mappings(all.take(i as int)) == Ok::<Seq<MappingModel>, ParseError>(
                    mapping_views(found@),
                ),
            decreases ls.len() - i,
        {
            let ghost before = mapping_views(found@);
            assert(all.take(i + 1).drop_last() =~= all.take(i as int));
            assert(all.take(i + 1).last() == ls@[i as int]@);
            match Mapping::from_chars(ls[i]) {
                Ok(m) => {
                    found.push(m);
                    assert(mapping_views(found@) =~= before.push(m@));
                },
                Err(e) => {
                    proof {
                        lemma_first_refusal(all, i + 1);
                    }
                    return Err(ProcessError::ParseMappingError(e));
                },
            }
            i += 1;
        }
        assert(all.take(i as int) =~= all);
        Ok(Process { pid, maps: found })
    }

    /// Begins a walk over the processes among the entries of the process
    /// directory, given by their names.
    pub fn enumerate(entries: Vec<String>) -> (it: ProcessIterator)
        ensures
            it.entries == entries,
            it.seen == 0,
            it.wf(),
    {
        ProcessIterator::new(entries)
    }

    /// The name of a process, from the text of its `comm` file.
    pub fn get_command(comm: &str) -> (name: String)
        ensures
            name@ == command_of(comm@),
    {
        let chars = chars_of(comm);
        let t = trimmed(chars.as_slice());
        string_of(slice_subrange(t, 0, find(t, '\0')))
    }

    /// The ordinary files that the process has mapped, each once.
    pub fn get_mapped_files(&self) -> (files: PathSet)
        ensures
            files.wf(),
            files@ == mapped_files(mapping_views(self.maps@)),
    {
        let mut files = PathSet::new();
        let ghost maps = mapping_views(self.maps@);
        let mut i: usize = 0;
        assert(files@ =~= mapped_files(maps.take(0)));
        while i < self.maps.len()
            invariant
                i <= self.maps.len(),
                maps == mapping_views(self.maps@),
                files.wf(),
                files@ == mapped_files(maps.take(i as int)),
            decreases self.maps.len() - i,
        {
            let mapping = &self.maps[i];
            assert(maps[i as int] == mapping@);
            match &mapping.file {
                Some(file) => {
                    if !is_section_mapping(file.as_str()) {
                        files.insert(file.clone());
                    }
                },
                None => {},
            }
            proof {
                let then = files_of(maps.take(i as int));
                assert(files_of(maps.take(i + 1)) =~= then.push(mapping@.file));
                then.lemma_push_to_set_commute(mapping@.file);
                assert(files@ =~= mapped_files(maps.take(i + 1)));
            }
            i += 1;
        }
        assert(maps.take(i as int) =~= maps);
        files
    }
}

/// A line that begins with two addresses and a space reads as what it says:
/// the range is the two numbers, and each permission is granted exactly when
/// its letter stands in the second field.
///
/// `a` and `b` are the digits of the two addresses, `rest` is what follows the
/// space after them: the permissions, and after a further space the other
/// fields, if there are any.
pub proof fn lemma_line_reads_as_written(a: Seq<char>, b: Seq<char>, rest: Seq<char>)
    requires
        parsed(a, 16, usize::MAX as int) is Some,
        parsed(b, 16, usize::MAX as int) is Some,
        value(a, 16) < value(b, 16),
    ensures
        ({
            let perms = rest.take(first_index(rest, ' '));
            match parse_mapping(a + seq!['-'] + b + seq![' '] + rest) {
                Ok(m) => {
                    &&& m.start == value(a, 16)
                    &&& m.end == value(b, 16)
                    &&& m.read == perms.contains('r')
                    &&& m.write == perms.contains('w')
                    &&& m.execute == perms.contains('x')
                    &&& m.shared == perms.contains('s')
                    &&& m.private == perms.contains('p')
                },
                Err(_) => false,
            }
        }),
{
    let line = a + seq!['-'] + b + seq![' '] + rest;
    let n = a.len() + 1 + b.len();
    assert forall|i: int| 0 <= i < n implies line[i] != ' ' by {
        if i < a.len() {
            assert(line[i] == a[i] && digit(a[i]) < 16);
        } else if i > a.len() {
            assert(line[i] == b[i - a.len() - 1] && digit(b[i - a.len() - 1]) < 16);
        }
    }
    assert(line[n as int] == ' ');
    lemma_first_index_is(line, ' ', n as int);
    let address = line.take(n as int);
    assert(address =~= a + seq!['-'] + b);
    assert forall|i: int| 0 <= i < a.len() implies address[i] != '-' by {
        assert(address[i] == a[i] && digit(a[i]) < 16);
    }
    lemma_first_index_is(address, '-', a.len() as int);
    assert(address.take(a.len() as int) =~= a);
    assert(address.skip(a.len() as int + 1) =~= b);
    assert(line.skip(n as int + 1) =~= rest);
    lemma_value_prefix(a, 16, 0);
    lemma_value_prefix(b, 16, 0);
}

/// The line made of these fields, each followed by a space, and `rest`.
pub open spec fn line_of(
    range: Seq<char>,
    perms: Seq<char>,
    offset: Seq<char>,
    device: Seq<char>,
    inode: Seq<char>,
    rest: Seq<char>,
) -> Seq<char> {
    range + (seq![' '] + (perms + (seq![' '] + (offset + (seq![' '] + (device + (seq![' '] + (inode
        + (seq![' '] + rest)))))))))
}

/// The path of a line is what was written after its five fields: the spaces
/// that pad it are passed over, and the path is read to the end of the line,
/// spaces in it included.
///
/// None of the five fields holds a space; `padding` is the number of spaces
/// between the space that ends the fifth field and the path.
pub proof fn lemma_path_reads_as_written(
    range: Seq<char>,
    perms: Seq<char>,
    offset: Seq<char>,
    device: Seq<char>,
    inode: Seq<char>,
    padding: nat,
    path: Seq<char>,
)
    requires
        !range.contains(' '),
        !perms.contains(' '),
        !offset.contains(' '),
        !device.contains(' '),
        !inode.contains(' '),
        path.len() == 0 || path[0] != ' ',
    ensures
        path_text(
            line_of(range, perms, offset, device, inode, Seq::new(padding, |i: int| ' ') + path),
        ) == path,
{
    let sp = seq![' '];
    let tail = Seq::new(padding, |i: int| ' ') + path;
    let r4 = inode + (sp + tail);
    let r3 = device + (sp + r4);
    let r2 = offset + (sp + r3);
    let r1 = perms + (sp + r2);
    lemma_field_passed(range, r1);
    lemma_field_passed(perms, r2);
    lemma_field_passed(offset, r3);
    lemma_field_passed(device, r4);
    lemma_field_passed(inode, tail);
    lemma_without_leading(padding, ' ', path);
}

/// A line that ends with a field and has no space after it has no path,
/// whichever of the five fields it ends with.
pub proof fn lemma_line_without_path(s: Seq<char>, last: Seq<char>)
    requires
        !last.contains(' '),
        after_first(s, ' ') == last || after_first(after_first(s, ' '), ' ') == last
            || after_first(after_first(after_first(s, ' '), ' '), ' ') == last || after_first(
            after_first(after_first(after_first(s, ' '), ' '), ' '),
            ' ',
        ) == last,
    ensures
        path_text(s) == Seq::<char>::empty(),
{
    let nothing = Seq::<char>::empty();
    lemma_after_none(last, ' ');
    lemma_after_none(nothing, ' ');
    assert(without_leading(nothing, ' ') == nothing);
}

/// What follows the first space of a field, a space and a rest is the rest.
proof fn lemma_field_passed(field: Seq<char>, rest: Seq<char>)
    requires
        !field.contains(' '),
    ensures
        after_first(field + (seq![' '] + rest), ' ') == rest,
{
    assert(field + (seq![' '] + rest) =~= field + seq![' '] + rest);
    lemma_after_first(field, ' ', rest);
}

/// A list of lines is refused where one of its beginnings is.
pub proof fn lemma_first_refusal(ls: Seq<Seq<char>>, k: int)
    requires
        0 <= k <= ls.len(),
        parse_mappings(ls.take(k)) is Err,
    ensures
        parse_mappings(ls) == parse_mappings(ls.take(k)),
    decreases ls.len(),
{
    if k == ls.len() {
        assert(ls.take(k) =~= ls);
    } else {
        assert(ls.drop_last().take(k) =~= ls.take(k));
        lemma_first_refusal(ls.drop_last(), k);
    }
}

/// Looks at a process that was listed, given what reading its memory map
/// gave: the text, or why it could not be read.
///
/// A process whose map cannot be read is passed over: it is gone, or it is not
/// ours to look at, and neither is an error. A map that was read and holds a
/// line that is refused is an error, and is not passed over.
pub fn inspect(pid: i32, read: Result<&str, AccessError>) -> (r: Result<
    Option<Process>,
    ProcessError,
>)
    ensures
        match read {
            Err(_) => r == Ok::<Option<Process>, ProcessError>(None),
            Ok(text) => match parse_mappings(lines(text@)) {
                Ok(ms) => {
                    &&& r is Ok
                    &&& r->Ok_0 is Some
                    &&& r->Ok_0->Some_0.pid == pid
                    &&& mapping_views(r->Ok_0->Some_0.maps@) == ms
                    &&& forall|i: int|
                        0 <= i < r->Ok_0->Some_0.maps@.len() ==> (
                        #[trigger] r->Ok_0->Some_0.maps@[i]).wf()
                },
                Err(cause) => r == Err::<Option<Process>, ProcessError>(
                    ProcessError::ParseMappingError(cause),
                ),
            },
        },
{
    match read {
        Err(_) => Ok(None),
        Ok(text) => match Process::new(pid, text) {
            Ok(process) => Ok(Some(process)),
            Err(e) => Err(e),
        },
    }
}

/// The process that a directory entry names, if its name is a process id.
pub fn pid_from_name(name: &str) -> (r: Option<i32>)
    ensures
        match r {
            Some(pid) => pid_of(name@) == Some(pid as int),
            None => pid_of(name@) is None,
        },
{
    let chars = chars_of(name);
    match parse_number(chars.as_slice(), 10, i32::MAX as u64) {
        Some(n) => Some(n as i32),
        None => None,
    }
}

/// The entries of the process directory, walked for the processes among them.
#[derive(Debug)]
pub struct ProcessIterator {
    /// The names of the entries, in the order in which they were listed.
    pub entries: Vec<String>,
    /// Number of entries that were looked at.
    pub seen: usize,
}

impl ProcessIterator {
    /// `seen` counts entries of the list.
    pub open spec fn wf(&self) -> bool {
        self.seen <= self.entries@.len()
    }

    /// Begins a walk over the entries of the process directory.
    pub fn new(entries: Vec<String>) -> (it: ProcessIterator)
        ensures
            it.entries == entries,
            it.seen == 0,
            it.wf(),
    {
        ProcessIterator { entries, seen: 0 }
    }

    /// The next process: the id that the first entry not yet seen names whose
    /// name is a process id. The entries before it name none and are passed
    /// over; `None` when no entry is left that names one.
    pub fn next(&mut self) -> (r: Option<i32>)
        ensures
            final(self).entries == old(self).entries,
            old(self).wf() ==> final(self).wf(),
            match r {
                Some(pid) => {
                    &&& old(self).seen < final(self).seen <= old(self).entries@.len()
                    &&& pid_of(old(self).entries@[final(self).seen - 1]@) == Some(pid as int)
                    &&& forall|j: int|
                        old(self).seen <= j < final(self).seen - 1 ==> pid_of(
                            (#[trigger] old(self).entries@[j])@,
                        ) is None
                },
                None => {
                    &&& final(self).seen == if old(self).wf() {
                        old(self).entries@.len() as usize
                    } else {
                        old(self).seen
                    }
                    &&& forall|j: int|
                        old(self).seen <= j < old(self).entries@.len() ==> pid_of(
                            (#[trigger] old(self).entries@[j])@,
                        ) is None
                },
            },
    {
        while self.seen < self.entries.len()
            invariant
                self.seen <= self.entries@.len() || self.seen == old(self).seen,
                self.entries == old(self).entries,
                old(self).seen <= self.seen,
                forall|j: int|
                    old(self).seen <= j < self.seen ==> pid_of(
                        (#[trigger] old(self).entries@[j])@,
                    ) is None,
            decreases self.entries.len() - self.seen,
        {
            let found = pid_from_name(self.entries[self.seen].as_str());
            self.seen += 1;
            if found.is_some() {
                return found;
            }
        }
        None
    }
}

impl ProcessError {
    /// What the error says, in words.
    pub fn message(&self) -> (text: String)
        ensures
            text@ == match self {
                ProcessError::ReadError(AccessError::NotFound) =>
                    "Could not open process: no such process"@,
                ProcessError::ReadError(AccessError::PermissionDenied) =>
                    "Could not open process: permission denied"@,
                ProcessError::ReadError(AccessError::Other) => "Could not open process"@,
                ProcessError::ParseMappingError(_) => "Could not parse a mapping"@,
                ProcessError::EnumProcessesError => "Could not enumerate processes"@,
            },
    {
        match self {
            ProcessError::ReadError(AccessError::NotFound) =>
                "Could not open process: no such process".to_owned(),
            ProcessError::ReadError(AccessError::PermissionDenied) =>
                "Could not open process: permission denied".to_owned(),
            ProcessError::ReadError(AccessError::Other) => "Could not open process".to_owned(),
            ProcessError::ParseMappingError(_) => "Could not parse a mapping".to_owned(),
            ProcessError::EnumProcessesError => "Could not enumerate processes".to_owned(),
        }
    }
}

} // verus!
