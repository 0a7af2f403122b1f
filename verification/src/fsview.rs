//! What the library knows of the filesystem: the files it may look at and
//! the listings of tracked directories.
//!
//! A path that has no record does not exist. A directory that has no record
//! lists no files.
use vstd::prelude::*;
use crate::order::{compare_chars, Order};
use crate::path_set::PathSet;
use crate::text::chars_of;

verus! {

/// One file: its path, and its bytes, or `None` when it exists but could not
/// be read.
#[derive(Debug)]
pub struct FileView {
    pub path: String,
    pub content: Option<Vec<u8>>,
}

/// The files below a directory, as paths relative to it.
#[derive(Debug)]
pub struct DirView {
    pub base: String,
    pub files: PathSet,
}

/// A view of the filesystem.
#[derive(Debug)]
pub struct FsView {
    pub files: Vec<FileView>,
    pub dirs: Vec<DirView>,
}

/// What a path holds in a view.
pub enum Probe {
    Absent,
    Unreadable,
    Content(Seq<u8>),
}

/// The first record of `p` among `files` decides what `p` holds.
pub open spec fn probe_in(files: Seq<FileView>, p: Seq<char>) -> Probe
    decreases files.len(),
{
    if files.len() == 0 {
        Probe::Absent
    } else if files[0].path@ == p {
        match files[0].content {
            Some(c) => Probe::Content(c@),
            None => Probe::Unreadable,
        }
    } else {
        probe_in(files.drop_first(), p)
    }
}

/// The first record of `d` among `dirs` gives its listing.
pub open spec fn listing_in(dirs: Seq<DirView>, d: Seq<char>) -> Seq<Seq<char>>
    decreases dirs.len(),
{
    if dirs.len() == 0 {
        Seq::empty()
    } else if dirs[0].base@ == d {
        dirs[0].files@
    } else {
        listing_in(dirs.drop_first(), d)
    }
}

/// Whether two byte sequences are equal.
pub fn bytes_equal(a: &Vec<u8>, b: &Vec<u8>) -> (r: bool)
    ensures
        r == (a@ == b@),
{
    if a.len() != b.len() {
        return false;
    }
    let mut i: usize = 0;
    while i < a.len()
        invariant
            i <= a.len() == b.len(),
            a@.take(i as int) == b@.take(i as int),
        decreases a.len() - i,
    {
        if a[i] != b[i] {
            assert(a@[i as int] != b@[i as int]);
            return false;
        }
        assert(a@.take(i + 1) =~= a@.take(i as int).push(a@[i as int]));
        assert(b@.take(i + 1) =~= b@.take(i as int).push(b@[i as int]));
        i = i + 1;
    }
    assert(a@ =~= a@.take(a.len() as int));
    assert(b@ =~= b@.take(b.len() as int));
    true
}

/// Whether two strings are equal.
pub fn str_equal(a: &str, b: &str) -> (r: bool)
    ensures
        r == (a@ == b@),
{
    let ac = chars_of(a);
    let bc = chars_of(b);
    match compare_chars(&ac, &bc, false) {
        Order::Equal => true,
        _ => false,
    }
}

impl FsView {
    /// What the path `p` holds.
    pub open spec fn probe(&self, p: Seq<char>) -> Probe {
        probe_in(self.files@, p)
    }

    /// The files listed below the directory `d`.
    pub open spec fn listing(&self, d: Seq<char>) -> Seq<Seq<char>> {
        listing_in(self.dirs@, d)
    }

    /// A view in which nothing exists.
    pub fn new() -> (fs: Self)
        ensures
            fs.files@.len() == 0,
            fs.dirs@.len() == 0,
    {
        FsView { files: Vec::new(), dirs: Vec::new() }
    }

    /// Records a readable file.
    pub fn add_file(&mut self, path: String, content: Vec<u8>)
        ensures
            final(self).files@ == old(self).files@.push(FileView { path, content: Some(content) }),
            final(self).dirs@ == old(self).dirs@,
    {
        self.files.push(FileView { path, content: Some(content) });
    }

    /// Records a file that exists but cannot be read.
    pub fn add_unreadable(&mut self, path: String)
        ensures
            final(self).files@ == old(self).files@.push(FileView { path, content: None }),
            final(self).dirs@ == old(self).dirs@,
    {
        self.files.push(FileView { path, content: None });
    }

    /// Records the listing of a directory.
    pub fn add_dir(&mut self, base: String, files: Vec<String>)
        ensures
            final(self).files@ == old(self).files@,
            final(self).dirs@.len() == old(self).dirs@.len() + 1,
            final(self).dirs@.take(old(self).dirs@.len() as int) == old(self).dirs@,
            final(self).dirs@.last().base == base,
            final(self).dirs@.last().files@ == crate::path_set::in_path_order(
                crate::sorted::views(files@).to_set(),
            ),
    {
        let set = PathSet::from_vec(files);
        self.dirs.push(DirView { base, files: set });
        assert(self.dirs@.take(old(self).dirs@.len() as int) =~= old(self).dirs@);
    }

    /// The position of the record that decides what `p` holds, if any.
    pub fn find_file(&self, p: &str) -> (r: Option<usize>)
        ensures
            match r {
                Some(i) => i < self.files@.len() && self.probe(p@) == match self.files@[i as int].content {
                    Some(c) => Probe::Content(c@),
                    None => Probe::Unreadable,
                },
                None => self.probe(p@) is Absent,
            },
    {
        let mut i: usize = 0;
        assert(self.files@.skip(0) =~= self.files@);
        while i < self.files.len()
            invariant
                i <= self.files@.len(),
                probe_in(self.files@, p@) == probe_in(self.files@.skip(i as int), p@),
            decreases self.files@.len() - i,
        {
            assert(self.files@.skip(i as int)[0] == self.files@[i as int]);
            assert(self.files@.skip(i as int).drop_first() =~= self.files@.skip(i + 1));
            if str_equal(self.files[i].path.as_str(), p) {
                return Some(i);
            }
            i = i + 1;
        }
        assert(self.files@.skip(i as int).len() == 0);
        None
    }

    /// The position of the record that gives the listing of `d`, if any.
    pub fn find_dir(&self, d: &str) -> (r: Option<usize>)
        ensures
            match r {
                Some(i) => i < self.dirs@.len() && self.listing(d@) == self.dirs@[i as int].files@,
                None => self.listing(d@) == Seq::<Seq<char>>::empty(),
            },
    {
        let mut i: usize = 0;
        assert(self.dirs@.skip(0) =~= self.dirs@);
        while i < self.dirs.len()
            invariant
                i <= self.dirs@.len(),
                listing_in(self.dirs@, d@) == listing_in(self.dirs@.skip(i as int), d@),
            decreases self.dirs@.len() - i,
        {
            assert(self.dirs@.skip(i as int)[0] == self.dirs@[i as int]);
            assert(self.dirs@.skip(i as int).drop_first() =~= self.dirs@.skip(i + 1));
            if str_equal(self.dirs[i].base.as_str(), d) {
                return Some(i);
            }
            i = i + 1;
        }
        assert(self.dirs@.skip(i as int).len() == 0);
        None
    }
}

} // verus!
