//! Validators check that a location denotes a usable filesystem object
//! before any read is attempted.  Implement the `Validator` trait to
//! create a custom validator or use the default one.

use vstd::prelude::*;
use crate::entries::{lemma_lookup_at, lemma_lookup_none, lookup, FsKind, FsObject, FsSnapshot};

verus! {

broadcast use vstd::seq_lib::group_seq_properties;

/// The error type for errors during validation: the location does not
/// exist or is neither a file nor a directory.  It carries no extra data.
#[derive(Clone, Copy, Debug, PartialEq, Eq, Structural)]
pub struct ValidationError;

impl ValidationError {
    /// A short description of the error.
    pub fn message(&self) -> (m: &'static str)
        ensures
            m@ == "No such file or directory"@,
    {
        "No such file or directory"
    }
}

/// Validates the location the pipeline is going to use.
pub trait Validator {
    /// The locations this validator accepts.
    spec fn accepts(&self, location: Seq<char>) -> bool;

    /// Validate that the given `location` can be read from.  Succeeds
    /// exactly on the locations the validator accepts.
    fn validate(&self, location: &str) -> (r: Result<(), ValidationError>)
        ensures
            r is Ok <==> self.accepts(location@),
    ;
}

/// The default validator: accepts a location exactly when the snapshot
/// holds an object at that path and the object is a regular file or a
/// directory.  Mere existence (an object of another kind) is not enough.
#[derive(Clone, Debug)]
pub struct FileSystemValidator {
    /// The snapshot the validator consults.
    pub snapshot: FsSnapshot,
}

impl FileSystemValidator {
    /// A validator over an empty snapshot; it accepts nothing.
    pub fn new() -> (r: Self)
        ensures
            r.snapshot.objects@ == Seq::<FsObject>::empty(),
            forall|loc: Seq<char>| !r.accepts(loc),
    {
        FileSystemValidator { snapshot: FsSnapshot::empty() }
    }

    /// A validator over the given snapshot.
    pub fn with_snapshot(snapshot: FsSnapshot) -> (r: Self)
        ensures
            r.snapshot == snapshot,
    {
        FileSystemValidator { snapshot }
    }
}

impl Validator for FileSystemValidator {
    open spec fn accepts(&self, location: Seq<char>) -> bool {
        match lookup(self.snapshot.objects@, location) {
            Some(o) => o.kind == FsKind::File || o.kind == FsKind::Directory,
            None => false,
        }
    }

    #[verifier::loop_isolation(false)]
    fn validate(&self, location: &str) -> (r: Result<(), ValidationError>) {
        let loc: String = location.to_owned();
        let objects = &self.snapshot.objects;
        let n = objects.len();
        let mut i: usize = 0;
        while i < n
            invariant
                loc@ == location@,
                n == objects@.len(),
                0 <= i <= n,
                forall|j: int| 0 <= j < i ==> objects@[j].path@ != location@,
            decreases n - i,
        {
            if objects[i].path == loc {
                proof {
                    lemma_lookup_at(objects@, location@, i as int);
                }
                let kind = objects[i].kind;
                if kind == FsKind::File || kind == FsKind::Directory {
                    return Ok(());
                } else {
                    return Err(ValidationError);
                }
            }
            i += 1;
        }
        proof {
            lemma_lookup_none(objects@, location@);
        }
        Err(ValidationError)
    }
}

} // verus!
