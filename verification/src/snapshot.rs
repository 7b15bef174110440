//! Snapshots: the command of a process and the files it had mapped, and the
//! text in which a snapshot is kept.
//!
//! A stored snapshot is a text of lines. The first line is the format's tag and
//! version, the second says whether the snapshot is enabled, the third is the
//! command; each further line is a path.

use crate::number::{decimal, digit, digits, lemma_written_number_reads_back};
use crate::pathset::PathSet;
use crate::process::{
    command_of, is_section, is_section_text, mapped_files, mapping_views, Process,
};
use crate::text::{
    append, append_str, chars_of, extension_is, has_extension, joined, last_index,
    lemma_joined_push, lemma_last_index_is, lemma_lines_joined, lines, same, single_lines,
    slice_views, split_lines, string_of,
};
use crate::util::{fingerprint, hash_string};
use vstd::prelude::*;

verus! {

/// Why a stored snapshot was refused.
#[derive(Debug)]
pub enum SnapshotError {
    /// The text does not begin with the three lines of a snapshot in the
    /// version that this library writes. The error names the file.
    FormatError(String),
}

/// A command and the ordinary files that a process running it had mapped.
#[derive(Debug)]
pub struct Snapshot {
    /// Whether the snapshot is used when files are primed.
    pub enabled: bool,
    /// The command of the process.
    pub command: String,
    /// The files.
    pub mappings: PathSet,
}

/// A snapshot as a value.
pub struct SnapshotModel {
    pub enabled: bool,
    pub command: Seq<char>,
    pub mappings: Set<Seq<char>>,
}

/// A snapshot as it is stored: where, and with what content.
#[derive(Debug)]
pub struct SnapshotFile {
    /// The path of the file.
    pub path: String,
    /// The text of the file.
    pub content: String,
}

impl SnapshotError {
    /// What the error says, in words.
    pub fn message(&self) -> (text: String)
        ensures
            text@ == match self {
                SnapshotError::FormatError(file) =>
                    "Invalid snapshot file format or unsupported version: "@ + file@,
            },
    {
        match self {
            SnapshotError::FormatError(file) => {
                let mut out: Vec<char> = Vec::new();
                append_str(&mut out, "Invalid snapshot file format or unsupported version: ");
                append_str(&mut out, file.as_str());
                string_of(out.as_slice())
            },
        }
    }
}

impl View for Snapshot {
    type V = SnapshotModel;

    open spec fn view(&self) -> SnapshotModel {
        SnapshotModel {
            enabled: self.enabled,
            command: self.command@,
            mappings: self.mappings@,
        }
    }
}

/// The first line of a stored snapshot: tag and version.
pub open spec fn header() -> Seq<char> {
    "prefault snapshot: 1.0"@
}

/// The second line of a stored snapshot.
pub open spec fn enabled_line(enabled: bool) -> Seq<char> {
    if enabled {
        "enabled: true"@
    } else {
        "enabled: false"@
    }
}

/// The paths among `ls` that name an ordinary file.
pub open spec fn ordinary_paths(ls: Seq<Seq<char>>) -> Set<Seq<char>> {
    Set::new(|p: Seq<char>| !is_section(p) && ls.to_set().contains(p))
}

/// What a stored snapshot says, if it is one.
///
/// The first line must be the header, letter for letter, and the second one of
/// the two lines that say whether the snapshot is enabled; a third line must
/// be there. The command is the third line as it stands.
/// Of the lines that follow, those that name an ordinary file are the
/// mappings.
pub open spec fn read_snapshot(content: Seq<char>) -> Option<SnapshotModel> {
    let ls = lines(content);
    if ls.len() >= 3 && ls[0] == header() && (ls[1] == enabled_line(true) || ls[1] == enabled_line(
        false,
    )) {
        Some(
            SnapshotModel {
                enabled: ls[1] == enabled_line(true),
                command: ls[2],
                mappings: ordinary_paths(ls.skip(3)),
            },
        )
    } else {
        None
    }
}

/// The text of a stored snapshot: header, enabled line, command, then the
/// paths, each line followed by a line feed.
pub open spec fn written(enabled: bool, command: Seq<char>, paths: Seq<Seq<char>>) -> Seq<char> {
    joined(seq![header(), enabled_line(enabled), command] + paths)
}

/// The name of the file that holds the snapshot of `command`: the fingerprint
/// of the command in decimal digits, with the extension `.snapshot`.
pub open spec fn file_name(command: Seq<char>) -> Seq<char> {
    digits(fingerprint(command) as int, 10) + ".snapshot"@
}

/// The path of the file `name` in the directory `dir`.
pub open spec fn path_in(dir: Seq<char>, name: Seq<char>) -> Seq<char> {
    if dir.len() == 0 {
        name
    } else if dir.last() == '/' {
        dir + name
    } else {
        dir + seq!['/'] + name
    }
}

/// Tells whether `path` names a stored snapshot: a file with the extension
/// `snapshot`.
pub fn is_snapshot_file(path: &str) -> (b: bool)
    ensures
        b == extension_is(path@, "snapshot"@),
{
    has_extension(chars_of(path).as_slice(), chars_of("snapshot").as_slice())
}

impl Snapshot {
    /// The mappings are a set of ordinary files: no path twice, and none that
    /// names a special region, a deleted file or nothing.
    pub open spec fn wf(&self) -> bool {
        &&& self.mappings.wf()
        &&& forall|p: Seq<char>| self.mappings@.contains(p) ==> !is_section(p)
    }

    /// The snapshot of a process, from its memory map and the text of its
    /// `comm` file. It is enabled.
    pub fn new_from_process(process: &Process, comm: &str) -> (s: Snapshot)
        ensures
            s.wf(),
            s@ == (SnapshotModel {
                enabled: true,
                command: command_of(comm@),
                mappings: mapped_files(mapping_views(process.maps@)),
            }),
    {
        Snapshot {
            enabled: true,
            command: Process::get_command(comm),
            mappings: process.get_mapped_files(),
        }
    }

    /// Reads a stored snapshot from the text `content` of the file `path`.
    pub fn new_from_file(path: &str, content: &str) -> (r: Result<Snapshot, SnapshotError>)
        ensures
            match r {
                Ok(s) => s.wf() && read_snapshot(content@) == Some(s@),
                Err(SnapshotError::FormatError(file)) => read_snapshot(content@) is None && file@
                    == path@,
            },
    {
        let chars = chars_of(content);
        let ls = split_lines(chars.as_slice());
        let ghost all = lines(content@);
        if ls.len() < 3 {
            return Err(SnapshotError::FormatError(path.to_owned()));
        }
        assert(all[0] == ls@[0]@ && all[1] == ls@[1]@ && all[2] == ls@[2]@);
        if !same(ls[0], chars_of("prefault snapshot: 1.0").as_slice()) {
            return Err(SnapshotError::FormatError(path.to_owned()));
        }
        let enabled = same(ls[1], chars_of("enabled: true").as_slice());
        if !enabled && !same(ls[1], chars_of("enabled: false").as_slice()) {
            return Err(SnapshotError::FormatError(path.to_owned()));
        }
        let command = string_of(ls[2]);
        let mut mappings = PathSet::new();
        let mut i: usize = 3;
        assert(mappings@ =~= ordinary_paths(all.subrange(3, 3)));
        while i < ls.len()
            invariant
                3 <= i <= ls.len(),
                slice_views(ls@) == all,
                mappings.wf(),
                mappings@ == ordinary_paths(all.subrange(3, i as int)),
            decreases ls.len() - i,
        {
            assert(all[i as int] == ls@[i as int]@);
            if !is_section_text(ls[i]) {
                mappings.insert(string_of(ls[i]));
            }
            proof {
                let then = all.subrange(3, i as int);
                assert(all.subrange(3, i + 1) =~= then.push(all[i as int]));
                then.lemma_push_to_set_commute(all[i as int]);
                assert(mappings@ =~= ordinary_paths(then.push(all[i as int])));
            }
            i += 1;
        }
        assert(all.subrange(3, i as int) =~= all.skip(3));
        Ok(Snapshot { enabled, command, mappings })
    }

    /// The file in which the snapshot is kept in the directory `snapshot_dir`,
    /// and its text. The file is named by the fingerprint of the command, so a
    /// snapshot takes the place of an earlier one of the same command. The
    /// paths are written in the order of the list.
    pub fn save_to_file(&self, snapshot_dir: &str) -> (file: SnapshotFile)
        ensures
            file.path@ == path_in(snapshot_dir@, file_name(self.command@)),
            file.content@ == written(self.enabled, self.command@, self.mappings.texts()),
    {
        let mut name: Vec<char> = Vec::new();
        append_str(&mut name, decimal(self.get_hash()).as_str());
        append_str(&mut name, ".snapshot");
        let dir = chars_of(snapshot_dir);
        let mut path: Vec<char> = Vec::new();
        append(&mut path, dir.as_slice());
        if dir.len() > 0 && dir[dir.len() - 1] != '/' {
            path.push('/');
        }
        append(&mut path, name.as_slice());
        assert(path@ =~= path_in(snapshot_dir@, file_name(self.command@)));

        let mut text: Vec<char> = Vec::new();
        append_str(&mut text, "prefault snapshot: 1.0");
        text.push('\n');
        append_str(&mut text, if self.enabled {
            "enabled: true"
        } else {
            "enabled: false"
        });
        text.push('\n');
        append_str(&mut text, self.command.as_str());
        text.push('\n');
        let ghost head = seq![header(), enabled_line(self.enabled), self.command@];
        let ghost paths = self.mappings.texts();
        proof {
            lemma_joined_push(Seq::<Seq<char>>::empty(), header());
            lemma_joined_push(seq![header()], enabled_line(self.enabled));
            lemma_joined_push(seq![header(), enabled_line(self.enabled)], self.command@);
            assert(seq![header()] =~= Seq::<Seq<char>>::empty().push(header()));
            assert(seq![header(), enabled_line(self.enabled)] =~= seq![header()].push(
                enabled_line(self.enabled),
            ));
            assert(head =~= seq![header(), enabled_line(self.enabled)].push(self.command@));
            assert(text@ =~= joined(head));
            assert(head + paths.take(0) =~= head);
        }
        let mut i: usize = 0;
        while i < self.mappings.paths.len()
            invariant
                i <= self.mappings.paths.len(),
                paths == self.mappings.texts(),
                text@ == joined(head + paths.take(i as int)),
            decreases self.mappings.paths.len() - i,
        {
            let ghost before = text@;
            append_str(&mut text, self.mappings.paths[i].as_str());
            text.push('\n');
            proof {
                lemma_joined_push(head + paths.take(i as int), paths[i as int]);
                assert((head + paths.take(i as int)).push(paths[i as int]) =~= head + paths.take(
                    i + 1,
                ));
                assert(text@ =~= before + paths[i as int] + seq!['\n']);
            }
            i += 1;
        }
        assert(paths.take(i as int) =~= paths);
        SnapshotFile { path: string_of(path.as_slice()), content: string_of(text.as_slice()) }
    }

    /// Enables or disables the snapshot. Nothing else changes, and nothing is
    /// stored: the snapshot has to be saved again for the change to last.
    pub fn set_enabled(&mut self, enabled: bool)
        ensures
            final(self).enabled == enabled,
            final(self).command == old(self).command,
            final(self).mappings == old(self).mappings,
            old(self).wf() ==> final(self).wf(),
    {
        self.enabled = enabled;
    }

    /// The fingerprint of the command, by which the snapshot is stored and
    /// found again.
    pub fn get_hash(&self) -> (h: u64)
        ensures
            h == fingerprint(self.command@),
    {
        hash_string(self.command.as_str())
    }
}

/// The files of a directory by path, after the snapshot `s` was saved in it:
/// the file of the snapshot holds the snapshot's text, whatever it held before.
pub open spec fn saved(
    files: Map<Seq<char>, Seq<char>>,
    dir: Seq<char>,
    s: Snapshot,
) -> Map<Seq<char>, Seq<char>> {
    files.insert(
        path_in(dir, file_name(s.command@)),
        written(s.enabled, s.command@, s.mappings.texts()),
    )
}

/// The header and the two enabled lines hold no line feed, and the enabled
/// lines differ.
pub proof fn lemma_header_lines()
    ensures
        !header().contains('\n'),
        !enabled_line(true).contains('\n'),
        !enabled_line(false).contains('\n'),
        enabled_line(true) != enabled_line(false),
{
    reveal_strlit("prefault snapshot: 1.0");
    reveal_strlit("enabled: true");
    reveal_strlit("enabled: false");
    assert(enabled_line(true).len() != enabled_line(false).len());
}

/// A snapshot that is saved and read again is the same snapshot: the same
/// flag, the same command, the same set of files.
///
/// This holds of a snapshot whose command and paths hold no line feed.
pub proof fn lemma_save_then_read(s: Snapshot)
    requires
        s.wf(),
        !s.command@.contains('\n'),
        single_lines(s.mappings.texts()),
    ensures
        read_snapshot(written(s.enabled, s.command@, s.mappings.texts())) == Some(s@),
{
    let paths = s.mappings.texts();
    let all = seq![header(), enabled_line(s.enabled), s.command@] + paths;
    lemma_header_lines();
    assert forall|i: int| 0 <= i < all.len() implies !(#[trigger] all[i]).contains('\n') by {
        if i >= 3 {
            assert(all[i] == paths[i - 3]);
        }
    }
    lemma_lines_joined(all);
    assert(all.skip(3) =~= paths);
    assert forall|p: Seq<char>| ordinary_paths(paths).contains(p) <==> s.mappings@.contains(
        p,
    ) by {}
    assert(ordinary_paths(paths) =~= s.mappings@);
    let got = read_snapshot(written(s.enabled, s.command@, paths));
    assert(got is Some);
    assert(got->0.enabled == s.enabled);
    assert(got->0.mappings == s.mappings@);
}

/// A text whose first line is not the header, letter for letter, is refused,
/// whatever follows.
pub proof fn lemma_header_required(content: Seq<char>)
    requires
        lines(content).len() == 0 || lines(content)[0] != header(),
    ensures
        read_snapshot(content) is None,
{
}

/// The name of a snapshot's file holds no `/`.
pub proof fn lemma_file_name_is_a_name(command: Seq<char>)
    ensures
        !file_name(command).contains('/'),
{
    reveal_strlit(".snapshot");
    let number = digits(fingerprint(command) as int, 10);
    let name = file_name(command);
    lemma_written_number_reads_back(fingerprint(command) as int, 10, u64::MAX as int);
    assert forall|i: int| 0 <= i < name.len() implies name[i] != '/' by {
        if i < number.len() {
            assert(name[i] == number[i] && digit(number[i]) < 10);
        } else {
            assert(name[i] == ".snapshot"@[i - number.len()]);
        }
    }
}

/// The name of a snapshot's file has the extension `snapshot`: its last `.`
/// stands after the digits, and `snapshot` follows it.
pub proof fn lemma_file_name_extension(command: Seq<char>)
    ensures
        extension_is(file_name(command), "snapshot"@),
{
    reveal_strlit(".snapshot");
    reveal_strlit("snapshot");
    let number = digits(fingerprint(command) as int, 10);
    let name = file_name(command);
    lemma_file_name_is_a_name(command);
    lemma_last_index_is(name, '/', -1);
    assert(name.skip(0) =~= name);
    lemma_written_number_reads_back(fingerprint(command) as int, 10, u64::MAX as int);
    assert forall|i: int| number.len() < i < name.len() implies name[i] != '.' by {
        assert(name[i] == ".snapshot"@[i - number.len()]);
    }
    assert(name[number.len() as int] == '.');
    lemma_last_index_is(name, '.', number.len() as int);
    assert(name.skip(number.len() as int + 1) =~= "snapshot"@);
}

/// The file that a path in a directory names is the file that was put there:
/// what follows the last `/` of the path is the name.
pub proof fn lemma_name_in_directory(dir: Seq<char>, name: Seq<char>)
    requires
        !name.contains('/'),
    ensures
        path_in(dir, name).skip(last_index(path_in(dir, name), '/') + 1) == name,
{
    let path = path_in(dir, name);
    let cut = path.len() - name.len();
    assert forall|i: int| cut <= i < path.len() implies path[i] != '/' by {
        assert(path[i] == name[i - cut]);
    }
    if cut > 0 {
        assert(path[cut - 1] == '/');
    }
    lemma_last_index_is(path, '/', cut - 1);
    assert(path.skip(cut) =~= name);
}

/// The file in which a snapshot is saved has the extension `snapshot`,
/// whatever the directory and the command.
pub proof fn lemma_saved_file_is_snapshot_file(dir: Seq<char>, command: Seq<char>)
    ensures
        extension_is(path_in(dir, file_name(command)), "snapshot"@),
{
    let name = file_name(command);
    lemma_file_name_is_a_name(command);
    lemma_file_name_extension(command);
    lemma_name_in_directory(dir, name);
    lemma_last_index_is(name, '/', -1);
    assert(name.skip(0) =~= name);
}

/// Snapshots share a file only where their commands share a fingerprint.
pub proof fn lemma_shared_file_shared_fingerprint(a: Seq<char>, b: Seq<char>)
    requires
        file_name(a) == file_name(b),
    ensures
        fingerprint(a) == fingerprint(b),
{
    let da = digits(fingerprint(a) as int, 10);
    let db = digits(fingerprint(b) as int, 10);
    lemma_written_number_reads_back(fingerprint(a) as int, 10, u64::MAX as int);
    lemma_written_number_reads_back(fingerprint(b) as int, 10, u64::MAX as int);
    assert(da.len() == db.len()) by {
        assert(file_name(a).len() == da.len() + ".snapshot"@.len());
        assert(file_name(b).len() == db.len() + ".snapshot"@.len());
    }
    assert(da =~= db) by {
        assert forall|i: int| 0 <= i < da.len() implies da[i] == db[i] by {
            assert(file_name(a)[i] == da[i]);
            assert(file_name(b)[i] == db[i]);
        }
    }
}

/// Two snapshots of one command are kept in the same file: saving the second
/// after the first leaves the directory as if only the second had been saved.
pub proof fn lemma_last_saved_stays(
    files: Map<Seq<char>, Seq<char>>,
    dir: Seq<char>,
    first: Snapshot,
    second: Snapshot,
)
    requires
        first.command@ == second.command@,
    ensures
        saved(saved(files, dir, first), dir, second) == saved(files, dir, second),
        saved(files, dir, second)[path_in(dir, file_name(second.command@))] == written(
            second.enabled,
            second.command@,
            second.mappings.texts(),
        ),
{
    assert(saved(saved(files, dir, first), dir, second) =~= saved(files, dir, second));
}

} // verus!
