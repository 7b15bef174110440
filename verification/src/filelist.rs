//! Lists of files that are kept by hand: one path on each line.

use crate::pathset::PathSet;
use crate::text::{
    chars_of, extension_is, has_extension, lines, slice_views, split_lines, string_of,
};
use vstd::prelude::*;

verus! {

/// A set of files to prime, whatever process may use them.
#[derive(Debug)]
pub struct FileList {
    /// The files.
    pub files: PathSet,
}

/// Tells whether `path` names a file list: a file with the extension `list`.
pub fn is_list_file(path: &str) -> (b: bool)
    ensures
        b == extension_is(path@, "list"@),
{
    has_extension(chars_of(path).as_slice(), chars_of("list").as_slice())
}

impl FileList {
    /// Reads a file list from its text: each line is a path, and a path that
    /// stands on several lines counts once.
    pub fn new_from_file(content: &str) -> (list: FileList)
        ensures
            list.files.wf(),
            list.files@ == lines(content@).to_set(),
    {
        let chars = chars_of(content);
        let ls = split_lines(chars.as_slice());
        let ghost all = lines(content@);
        let mut files = PathSet::new();
        let mut i: usize = 0;
        assert(files@ =~= all.take(0).to_set());
        while i < ls.len()
            invariant
                i <= ls.len(),
                slice_views(ls@) == all,
                files.wf(),
                files@ == all.take(i as int).to_set(),
            decreases ls.len() - i,
        {
            assert(all[i as int] == ls@[i as int]@);
            files.insert(string_of(ls[i]));
            proof {
                assert(all.take(i + 1) =~= all.take(i as int).push(all[i as int]));
                all.take(i as int).lemma_push_to_set_commute(all[i as int]);
            }
            i += 1;
        }
        assert(all.take(i as int) =~= all);
        FileList { files }
    }
}

} // verus!
