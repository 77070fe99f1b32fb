//! The entry abstraction: the unit of data flowing through the pipeline,
//! and the filesystem snapshot the default stages consult.

use vstd::prelude::*;

verus! {

broadcast use vstd::seq_lib::group_seq_properties;

/// What kind of filesystem object a path denotes.
#[derive(Clone, Copy, Debug, PartialEq, Eq, Structural)]
pub enum FsKind {
    File,
    Directory,
    Other,
}

/// One filesystem object produced by a reader: a display name, a full
/// path, and the metadata the later stages may query.  Entries are
/// immutable once produced; the buffer holding them may be reordered or
/// thinned, but an entry itself is never changed in place.
#[derive(Clone, Debug)]
pub struct Entry {
    /// The display name (the last path component).
    pub name: String,
    /// The full path of the object.
    pub path: String,
    /// Whether the object is a file, a directory, or something else.
    pub kind: FsKind,
    /// Creation time in seconds, if the filesystem reported one.
    pub created: Option<u64>,
    /// Modification time in seconds, if the filesystem reported one.
    pub modified: Option<u64>,
}

/// One filesystem object as captured in a snapshot: what a filesystem
/// walk saw at one path.
#[derive(Clone, Debug)]
pub struct FsObject {
    /// The full path of the object.
    pub path: String,
    /// The full path of the containing directory; empty if the object has
    /// no parent.
    pub parent: String,
    /// The display name (the last path component).
    pub name: String,
    /// Whether the object is a file, a directory, or something else.
    pub kind: FsKind,
    /// Creation time in seconds, if the filesystem reported one.
    pub created: Option<u64>,
    /// Modification time in seconds, if the filesystem reported one.
    pub modified: Option<u64>,
    /// For a directory: whether its children could be enumerated.
    pub readable: bool,
}

/// A snapshot of the part of the filesystem the pipeline may consult.
/// The order of the objects is the order the filesystem reported them in,
/// which no stage before the sorter gives any meaning to.
#[derive(Clone, Debug)]
pub struct FsSnapshot {
    /// The objects the walk saw, in reported order.
    pub objects: Vec<FsObject>,
}

impl FsSnapshot {
    /// A snapshot holding the given objects.
    pub fn new(objects: Vec<FsObject>) -> (r: Self)
        ensures
            r.objects@ == objects@,
    {
        FsSnapshot { objects }
    }

    /// A snapshot holding no objects at all.
    pub fn empty() -> (r: Self)
        ensures
            r.objects@ == Seq::<FsObject>::empty(),
    {
        FsSnapshot { objects: Vec::new() }
    }
}

/// The entry a reader derives from a snapshot object.
pub open spec fn entry_of(o: FsObject) -> Entry {
    Entry {
        name: o.name,
        path: o.path,
        kind: o.kind,
        created: o.created,
        modified: o.modified,
    }
}

/// The first object in `objs` whose path is `path`, if any.
pub open spec fn lookup(objs: Seq<FsObject>, path: Seq<char>) -> Option<FsObject>
    decreases objs.len(),
{
    if objs.len() == 0 {
        None
    } else if objs.first().path@ == path {
        Some(objs.first())
    } else {
        lookup(objs.drop_first(), path)
    }
}

/// The entries of all objects whose parent is `dir`, in snapshot order.
pub open spec fn children_of(objs: Seq<FsObject>, dir: Seq<char>) -> Seq<Entry>
    decreases objs.len(),
{
    if objs.len() == 0 {
        Seq::empty()
    } else {
        let rest = children_of(objs.drop_last(), dir);
        if objs.last().parent@ == dir {
            rest.push(entry_of(objs.last()))
        } else {
            rest
        }
    }
}

/// The first object in `objs` that lies in directory `dir` and has path
/// `path`, if any: how the default reader re-finds a single file among its
/// parent's children.
pub open spec fn find_child(objs: Seq<FsObject>, dir: Seq<char>, path: Seq<char>) -> Option<
    FsObject,
>
    decreases objs.len(),
{
    if objs.len() == 0 {
        None
    } else if objs.first().parent@ == dir && objs.first().path@ == path {
        Some(objs.first())
    } else {
        find_child(objs.drop_first(), dir, path)
    }
}

/// `lookup` returns the first match: if nothing before index `i` matches
/// and `objs[i]` does, the lookup yields `objs[i]`.
pub proof fn lemma_lookup_at(objs: Seq<FsObject>, path: Seq<char>, i: int)
    requires
        0 <= i < objs.len(),
        objs[i].path@ == path,
        forall|j: int| 0 <= j < i ==> objs[j].path@ != path,
    ensures
        lookup(objs, path) == Some(objs[i]),
    decreases objs.len(),
{
    if i > 0 {
        lemma_lookup_at(objs.drop_first(), path, i - 1);
    }
}

/// If no object has path `path`, `lookup` yields nothing.
pub proof fn lemma_lookup_none(objs: Seq<FsObject>, path: Seq<char>)
    requires
        forall|j: int| 0 <= j < objs.len() ==> objs[j].path@ != path,
    ensures
        lookup(objs, path) is None,
    decreases objs.len(),
{
    if objs.len() > 0 {
        lemma_lookup_none(objs.drop_first(), path);
    }
}

/// `find_child` returns the first match, in the same way.
pub proof fn lemma_find_child_at(objs: Seq<FsObject>, dir: Seq<char>, path: Seq<char>, i: int)
    requires
        0 <= i < objs.len(),
        objs[i].parent@ == dir,
        objs[i].path@ == path,
        forall|j: int| 0 <= j < i ==> !(objs[j].parent@ == dir && objs[j].path@ == path),
    ensures
        find_child(objs, dir, path) == Some(objs[i]),
    decreases objs.len(),
{
    if i > 0 {
        lemma_find_child_at(objs.drop_first(), dir, path, i - 1);
    }
}

/// Every entry of `children_of` is derived from an object of the
/// snapshot whose parent is `dir`.
pub proof fn lemma_children_of_members(objs: Seq<FsObject>, dir: Seq<char>)
    ensures
        forall|i: int|
            0 <= i < children_of(objs, dir).len() ==> exists|k: int|
                0 <= k < objs.len() && #[trigger] children_of(objs, dir)[i] == entry_of(objs[k])
                    && objs[k].parent@ == dir,
    decreases objs.len(),
{
    if objs.len() > 0 {
        lemma_children_of_members(objs.drop_last(), dir);
        let rest = children_of(objs.drop_last(), dir);
        assert forall|i: int| 0 <= i < children_of(objs, dir).len() implies exists|k: int|
            0 <= k < objs.len() && #[trigger] children_of(objs, dir)[i] == entry_of(objs[k])
                && objs[k].parent@ == dir by {
            if i < rest.len() {
                let k = choose|k: int|
                    0 <= k < objs.drop_last().len() && rest[i] == entry_of(objs.drop_last()[k])
                        && objs.drop_last()[k].parent@ == dir;
                assert(objs[k] == objs.drop_last()[k]);
                assert(children_of(objs, dir)[i] == entry_of(objs[k]) && objs[k].parent@ == dir);
            } else {
                assert(children_of(objs, dir)[i] == entry_of(objs[objs.len() - 1]));
            }
        }
    }
}

/// A found child is an object of the snapshot, lies in `dir`, and has
/// path `path`.
pub proof fn lemma_find_child_found(objs: Seq<FsObject>, dir: Seq<char>, path: Seq<char>)
    requires
        find_child(objs, dir, path) is Some,
    ensures
        exists|k: int|
            0 <= k < objs.len() && objs[k] == find_child(objs, dir, path)->0,
        find_child(objs, dir, path)->0.parent@ == dir,
        find_child(objs, dir, path)->0.path@ == path,
    decreases objs.len(),
{
    if objs.len() > 0 {
        if objs.first().parent@ == dir && objs.first().path@ == path {
            assert(objs[0] == find_child(objs, dir, path)->0);
        } else {
            lemma_find_child_found(objs.drop_first(), dir, path);
            let k = choose|k: int|
                0 <= k < objs.drop_first().len() && objs.drop_first()[k] == find_child(
                    objs.drop_first(),
                    dir,
                    path,
                )->0;
            assert(objs[k + 1] == find_child(objs, dir, path)->0);
        }
    }
}

/// If no object matches, `find_child` yields nothing.
pub proof fn lemma_find_child_none(objs: Seq<FsObject>, dir: Seq<char>, path: Seq<char>)
    requires
        forall|j: int| 0 <= j < objs.len() ==> !(objs[j].parent@ == dir && objs[j].path@ == path),
    ensures
        find_child(objs, dir, path) is None,
    decreases objs.len(),
{
    if objs.len() > 0 {
        lemma_find_child_none(objs.drop_first(), dir, path);
    }
}

} // verus!
