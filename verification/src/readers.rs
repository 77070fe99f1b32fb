//! Readers resolve a location into a sequence of entries.  Implement the
//! `Reader` trait to create a custom reader or use the default one.

use vstd::prelude::*;
use crate::entries::{
    children_of, entry_of, find_child, lemma_find_child_at, lemma_find_child_none,
    lemma_lookup_at, lemma_lookup_none, lookup, Entry, FsKind, FsObject, FsSnapshot,
};

verus! {

broadcast use vstd::seq_lib::group_seq_properties;

/// The error type for a failed directory enumeration: the location (or
/// the parent of a single file) could not be listed.  Fatal for the
/// current `generate` call.
#[derive(Clone, Copy, Debug, PartialEq, Eq, Structural)]
pub struct IoError;

/// Reads from the given location.
pub trait Reader<T> {
    /// The locations this reader can read without a fatal enumeration
    /// failure.
    spec fn can_read(&self, location: Seq<char>) -> bool;

    /// The entries the reader appends for a location it can read.
    spec fn entries_of(&self, location: Seq<char>) -> Seq<T>;

    /// Read from `location` and append the resulting entries to
    /// `buffer`.  On failure the buffer is left untouched.
    fn read(&self, location: &str, buffer: &mut Vec<T>) -> (r: Result<(), IoError>)
        ensures
            r is Ok <==> self.can_read(location@),
            r is Ok ==> final(buffer)@ == old(buffer)@ + self.entries_of(location@),
            r is Err ==> final(buffer)@ == old(buffer)@,
    ;
}

/// The default reader: resolves a location against a filesystem
/// snapshot.
///
/// A directory contributes one entry per immediate child, in snapshot
/// order; a directory whose children could not be enumerated is a fatal
/// error.  A single file is found by re-listing its parent directory and
/// scanning for the matching path, contributing one entry, or none if it
/// is not among the parent's children or has no parent.  A location the
/// snapshot does not hold, or holds as neither file nor directory,
/// contributes nothing.
#[derive(Clone, Debug)]
pub struct FileSystemReader {
    /// The snapshot the reader consults.
    pub snapshot: FsSnapshot,
}

impl FileSystemReader {
    /// A reader over an empty snapshot; it reads nothing everywhere.
    pub fn new() -> (r: Self)
        ensures
            r.snapshot.objects@ == Seq::<FsObject>::empty(),
    {
        FileSystemReader { snapshot: FsSnapshot::empty() }
    }

    /// A reader over the given snapshot.
    pub fn with_snapshot(snapshot: FsSnapshot) -> (r: Self)
        ensures
            r.snapshot == snapshot,
    {
        FileSystemReader { snapshot }
    }

    /// Find the index of the first object whose path is `path`.
    #[verifier::loop_isolation(false)]
    fn position_of(&self, path: &String) -> (r: Option<usize>)
        ensures
            match r {
                Some(i) => 0 <= i < self.snapshot.objects@.len() && lookup(
                    self.snapshot.objects@,
                    path@,
                ) == Some(self.snapshot.objects@[i as int]) && self.snapshot.objects@[i as int].path@
                    == path@,
                None => lookup(self.snapshot.objects@, path@) is None,
            },
    {
        let objects = &self.snapshot.objects;
        let n = objects.len();
        let mut i: usize = 0;
        while i < n
            invariant
                n == objects@.len(),
                0 <= i <= n,
                forall|j: int| 0 <= j < i ==> objects@[j].path@ != path@,
            decreases n - i,
        {
            if objects[i].path == *path {
                proof {
                    lemma_lookup_at(objects@, path@, i as int);
                }
                return Some(i);
            }
            i += 1;
        }
        proof {
            lemma_lookup_none(objects@, path@);
        }
        None
    }

    /// Append one entry per object whose parent is `dir`, in snapshot
    /// order.
    #[verifier::loop_isolation(false)]
    fn append_children(&self, dir: &String, buffer: &mut Vec<Entry>)
        ensures
            final(buffer)@ == old(buffer)@ + children_of(self.snapshot.objects@, dir@),
    {
        let objects = &self.snapshot.objects;
        let n = objects.len();
        let mut i: usize = 0;
        while i < n
            invariant
                n == objects@.len(),
                0 <= i <= n,
                buffer@ == old(buffer)@ + children_of(objects@.take(i as int), dir@),
            decreases n - i,
        {
            proof {
                assert(objects@.take(i + 1).drop_last() =~= objects@.take(i as int));
                assert(objects@.take(i + 1).last() == objects@[i as int]);
            }
            let o = &objects[i];
            if o.parent == *dir {
                let entry = Entry {
                    name: o.name.clone(),
                    path: o.path.clone(),
                    kind: o.kind,
                    created: o.created,
                    modified: o.modified,
                };
                proof {
                    assert(entry == entry_of(objects@[i as int]));
                }
                buffer.push(entry);
            }
            i += 1;
        }
        proof {
            assert(objects@.take(n as int) =~= objects@);
        }
    }

    /// Scan the children of `dir` for the first object with path `path`
    /// and append its entry: how a single file is re-found among its
    /// parent's children.  Appends nothing if it is not found.
    #[verifier::loop_isolation(false)]
    fn append_found_child(&self, dir: &String, path: &String, buffer: &mut Vec<Entry>)
        ensures
            final(buffer)@ == old(buffer)@ + match find_child(self.snapshot.objects@, dir@, path@) {
                Some(o) => seq![entry_of(o)],
                None => Seq::<Entry>::empty(),
            },
    {
        let objects = &self.snapshot.objects;
        let n = objects.len();
        let mut i: usize = 0;
        while i < n
            invariant
                n == objects@.len(),
                0 <= i <= n,
                buffer@ == old(buffer)@,
                forall|j: int|
                    0 <= j < i ==> !(objects@[j].parent@ == dir@ && objects@[j].path@ == path@),
            decreases n - i,
        {
            let o = &objects[i];
            if o.parent == *dir && o.path == *path {
                proof {
                    lemma_find_child_at(objects@, dir@, path@, i as int);
                }
                let entry = Entry {
                    name: o.name.clone(),
                    path: o.path.clone(),
                    kind: o.kind,
                    created: o.created,
                    modified: o.modified,
                };
                proof {
                    assert(entry == entry_of(objects@[i as int]));
                    assert(old(buffer)@.push(entry) =~= old(buffer)@ + seq![entry]);
                }
                buffer.push(entry);
                return ;
            }
            i += 1;
        }
        proof {
            lemma_find_child_none(objects@, dir@, path@);
            assert(buffer@ =~= old(buffer)@ + Seq::<Entry>::empty());
        }
    }
}

/// What the default reader can read at `location` over the objects of
/// its snapshot: a directory must be enumerable, a file's parent must be
/// an enumerable directory of the snapshot (a file without a parent
/// contributes nothing and is fine), and anything else reads as nothing.
pub open spec fn fs_can_read(objs: Seq<FsObject>, location: Seq<char>) -> bool {
    match lookup(objs, location) {
        Some(o) => if o.kind == FsKind::Directory {
            o.readable
        } else if o.kind == FsKind::File {
            o.parent@.len() == 0 || match lookup(objs, o.parent@) {
                Some(p) => p.kind == FsKind::Directory && p.readable,
                None => false,
            }
        } else {
            true
        },
        None => true,
    }
}

/// What the default reader appends at `location`: the children of a
/// directory, the single matching entry of a file, nothing otherwise.
pub open spec fn fs_entries_of(objs: Seq<FsObject>, location: Seq<char>) -> Seq<Entry> {
    match lookup(objs, location) {
        Some(o) => if o.kind == FsKind::Directory {
            children_of(objs, location)
        } else if o.kind == FsKind::File {
            if o.parent@.len() == 0 {
                Seq::empty()
            } else {
                match find_child(objs, o.parent@, location) {
                    Some(c) => seq![entry_of(c)],
                    None => Seq::empty(),
                }
            }
        } else {
            Seq::empty()
        },
        None => Seq::empty(),
    }
}

impl Reader<Entry> for FileSystemReader {
    open spec fn can_read(&self, location: Seq<char>) -> bool {
        fs_can_read(self.snapshot.objects@, location)
    }

    open spec fn entries_of(&self, location: Seq<char>) -> Seq<Entry> {
        fs_entries_of(self.snapshot.objects@, location)
    }

    fn read(&self, location: &str, buffer: &mut Vec<Entry>) -> (r: Result<(), IoError>) {
        let loc: String = location.to_owned();
        let found = self.position_of(&loc);
        let i = match found {
            Some(i) => i,
            None => {
                proof {
                    assert(buffer@ =~= old(buffer)@ + Seq::<Entry>::empty());
                }
                return Ok(());
            },
        };
        let kind = self.snapshot.objects[i].kind;
        if kind == FsKind::Directory {
            if !self.snapshot.objects[i].readable {
                return Err(IoError);
            }
            self.append_children(&loc, buffer);
            Ok(())
        } else if kind == FsKind::File {
            let parent = self.snapshot.objects[i].parent.clone();
            if parent.as_str().is_empty() {
                proof {
                    assert(buffer@ =~= old(buffer)@ + Seq::<Entry>::empty());
                }
                return Ok(());
            }
            let p = match self.position_of(&parent) {
                Some(p) => p,
                None => {
                    return Err(IoError);
                },
            };
            let pkind = self.snapshot.objects[p].kind;
            if !(pkind == FsKind::Directory && self.snapshot.objects[p].readable) {
                return Err(IoError);
            }
            self.append_found_child(&parent, &loc, buffer);
            Ok(())
        } else {
            proof {
                assert(buffer@ =~= old(buffer)@ + Seq::<Entry>::empty());
            }
            Ok(())
        }
    }
}

} // verus!
