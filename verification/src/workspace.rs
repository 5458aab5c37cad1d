//! What the project directory holds, as far as a board's rules look at it.
//!
//! Reading the disk is not the library's business: the caller globs each detection
//! pattern and reads each file that a rule names, and hands the texts over in a
//! [`Workspace`]. Every decision taken on those texts, parsing included, is made in
//! the library.
use vstd::prelude::*;

verus! {

/// The files that a glob pattern matched in the project, in the order the glob yielded
/// them; `None` for a matched file that could not be read.
#[derive(Debug)]
pub struct GlobMatch {
    pub pattern: String,
    pub files: Vec<Option<String>>,
}

/// A file that a rule names, read from the project; `None` where it could not be read.
#[derive(Debug)]
pub struct FileRead {
    pub file: String,
    pub content: Option<String>,
}

/// The workspace as the rules see it.
#[derive(Debug)]
pub struct Workspace {
    pub matches: Vec<GlobMatch>,
    pub reads: Vec<FileRead>,
}

/// The files that `pattern` matched: those of the first entry for it; none if there is
/// no entry for it.
pub open spec fn globbed(matches: Seq<GlobMatch>, pattern: Seq<char>) -> Seq<Option<String>>
    decreases matches.len(),
{
    if matches.len() == 0 {
        seq![]
    } else if matches[0].pattern@ == pattern {
        matches[0].files@
    } else {
        globbed(matches.drop_first(), pattern)
    }
}

/// The content of `file`: that of the first entry for it; none if there is no entry.
pub open spec fn read_file(reads: Seq<FileRead>, file: Seq<char>) -> Option<String>
    decreases reads.len(),
{
    if reads.len() == 0 {
        None
    } else if reads[0].file@ == file {
        reads[0].content
    } else {
        read_file(reads.drop_first(), file)
    }
}

impl Workspace {
    /// The files that `pattern` matched (see [`globbed`]).
    pub fn globbed(&self, pattern: &String) -> (files: Option<&Vec<Option<String>>>)
        ensures
            files matches Some(v) ==> v@ == globbed(self.matches@, pattern@),
            files is None ==> globbed(self.matches@, pattern@).len() == 0,
    {
        let mut i: usize = 0;
        assert(self.matches@.skip(0) =~= self.matches@);
        while i < self.matches.len()
            invariant
                0 <= i <= self.matches.len(),
                globbed(self.matches@, pattern@) == globbed(self.matches@.skip(i as int), pattern@),
            decreases self.matches.len() - i,
        {
            assert(self.matches@.skip(i as int).drop_first() =~= self.matches@.skip(i + 1));
            if self.matches[i].pattern == *pattern {
                return Some(&self.matches[i].files);
            }
            i = i + 1;
        }
        None
    }

    /// The content of `file` (see [`read_file`]).
    pub fn read(&self, file: &String) -> (content: Option<&String>)
        ensures
            content matches Some(c) ==> read_file(self.reads@, file@) == Some(*c),
            content is None ==> read_file(self.reads@, file@) is None,
    {
        let mut i: usize = 0;
        assert(self.reads@.skip(0) =~= self.reads@);
        while i < self.reads.len()
            invariant
                0 <= i <= self.reads.len(),
                read_file(self.reads@, file@) == read_file(self.reads@.skip(i as int), file@),
            decreases self.reads.len() - i,
        {
            assert(self.reads@.skip(i as int).drop_first() =~= self.reads@.skip(i + 1));
            if self.reads[i].file == *file {
                return match &self.reads[i].content {
                    Some(c) => Some(c),
                    None => None,
                };
            }
            i = i + 1;
        }
        None
    }
}

} // verus!
