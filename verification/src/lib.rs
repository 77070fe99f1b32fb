//! An extensible directory-listing pipeline.
//!
//! Given a location, the pipeline validates it, reads its entries from a
//! filesystem snapshot, filters and sorts them, and formats the result into
//! a string.  Each stage (validator, reader, filter, sorter, formatter) is
//! a trait with a full functional contract, so the behaviour of `generate`
//! is pinned down exactly for any configuration of stages.

pub mod entries;
pub mod errors;
pub mod filters;
pub mod formatters;
pub mod readers;
pub mod sorters;
pub mod validators;

pub use filters::Filter;
pub use formatters::Formatter;
pub use readers::Reader;
pub use sorters::Sorter;
pub use validators::Validator;

use vstd::prelude::*;
use crate::entries::{
    children_of, entry_of, lemma_children_of_members, lemma_find_child_found, lookup, Entry,
    FsKind, FsObject,
};
use crate::errors::{LstError, StageError};
use crate::filters::{dot_removed, DotFilesFilter};
use crate::formatters::{lemma_split_name_lines, name_lines, split_lines, NameOnlyFormatter};
use crate::readers::{FileSystemReader, IoError};
use crate::sorters::{time_key, TimeSorter};
use crate::validators::{FileSystemValidator, ValidationError};

verus! {

/// The location the pipeline reads from.  It wraps an owned string rather
/// than a path type, so custom stage implementations are free to interpret
/// it.  Invariant: the string is never empty.
#[derive(Clone, Debug)]
pub struct Location(String);

impl View for Location {
    type V = Seq<char>;

    closed spec fn view(&self) -> Seq<char> {
        self.0@
    }
}

impl Location {
    /// Creates a new `Location` from a non-empty string.
    pub fn new(location: String) -> (r: Self)
        requires
            location@.len() > 0,
        ensures
            r@ == location@,
    {
        Location(location)
    }

    /// The location as a string slice.
    pub fn as_str(&self) -> (r: &str)
        ensures
            r@ == self@,
    {
        self.0.as_str()
    }
}

/// The pipeline orchestrator: it owns the location, the working buffer,
/// and one instance of each stage, and exposes `generate`, which runs
/// the stages strictly in order: validate, read (into a freshly cleared
/// buffer), filter, sort, format.  The first stage to fail aborts the
/// rest and its failure is surfaced; no partial string is ever returned.
///
/// The filter and sorter slots each hold exactly one stage; the setters
/// replace rather than append, since only one of each is supported for
/// now.
#[non_exhaustive]
#[derive(Debug)]
pub struct Lst<T, U, V, F = DotFilesFilter, S = TimeSorter, W = Entry> where
    T: Formatter<W>,
    U: Reader<W>,
    V: Validator,
    F: Filter<W>,
    S: Sorter<W>,
 {
    /// The location entries are read from.
    pub location: Location,
    /// The working buffer, owned exclusively by the pipeline.
    pub contents: Vec<W>,
    /// The filter slot; always exactly one filter.
    pub filters: Vec<F>,
    /// The formatter stage.
    pub formatter: T,
    /// The reader stage.
    pub reader: U,
    /// The sorter slot; always exactly one sorter.
    pub sorters: Vec<S>,
    /// The validator stage.
    pub validator: V,
}

impl Lst<NameOnlyFormatter, FileSystemReader, FileSystemValidator> {
    /// Creates a new `Lst` with the default stages: a dot-files filter,
    /// a time sorter, a name-only formatter, and a validator and reader
    /// over empty snapshots.
    pub fn new(location: Location) -> (r: Self)
        ensures
            r.wf(),
            r.location == location,
            r.contents@ == Seq::<Entry>::empty(),
            r.filters@ == seq![(DotFilesFilter {})],
            r.formatter == (NameOnlyFormatter {}),
            r.reader.snapshot.objects@ == Seq::<crate::entries::FsObject>::empty(),
            r.sorters@ == seq![(TimeSorter {})],
            r.validator.snapshot.objects@ == Seq::<crate::entries::FsObject>::empty(),
    {
        let mut filters: Vec<DotFilesFilter> = Vec::new();
        filters.push(DotFilesFilter::new());
        let mut sorters: Vec<TimeSorter> = Vec::new();
        sorters.push(TimeSorter::new());
        proof {
            assert(filters@ =~= seq![(DotFilesFilter {})]);
            assert(sorters@ =~= seq![(TimeSorter {})]);
        }
        Lst {
            location,
            contents: Vec::new(),
            filters,
            formatter: NameOnlyFormatter::new(),
            reader: FileSystemReader::new(),
            sorters,
            validator: FileSystemValidator::new(),
        }
    }
}

impl<T, U, V, F, S, W> Lst<T, U, V, F, S, W> where
    T: Formatter<W>,
    U: Reader<W>,
    V: Validator,
    F: Filter<W>,
    S: Sorter<W>,
 {
    /// Well-formedness: the filter and sorter slots hold exactly one
    /// stage each.
    pub open spec fn wf(&self) -> bool {
        self.filters@.len() == 1 && self.sorters@.len() == 1
    }

    /// The entries the reader yields for the current location.
    pub open spec fn read_entries(&self) -> Seq<W> {
        self.reader.entries_of(self.location@)
    }

    /// The buffer after the filter has thinned the read entries.
    pub open spec fn filtered_entries(&self) -> Seq<W> {
        self.filters@[0].filtered_of(self.read_entries())
    }

    /// Whether every filtered entry carries what the sorter needs.
    pub open spec fn all_sortable(&self) -> bool {
        forall|i: int|
            0 <= i < self.filtered_entries().len() ==> self.sorters@[0].sortable(
                #[trigger] self.filtered_entries()[i],
            )
    }

    /// The buffer after the sorter has reordered the filtered entries.
    pub open spec fn sorted_entries(&self) -> Seq<W> {
        self.sorters@[0].sorted_of(self.filtered_entries())
    }

    /// What `generate` returns, as a function of the location and the
    /// configured stages alone: the formatted sorted filtered entries,
    /// or the failure of the first stage that fails.
    pub open spec fn spec_result(&self) -> Result<Seq<char>, LstError> {
        if !self.validator.accepts(self.location@) {
            Result::Err(LstError::Validation(ValidationError))
        } else if !self.reader.can_read(self.location@) {
            Result::Err(LstError::Io(IoError))
        } else if !self.filters@[0].filter_ok(self.read_entries()) {
            Result::Err(LstError::Stage(StageError))
        } else if !self.all_sortable() {
            Result::Err(LstError::Stage(StageError))
        } else if !self.formatter.format_ok(self.sorted_entries()) {
            Result::Err(LstError::Stage(StageError))
        } else {
            Result::Ok(self.formatter.formatted(self.sorted_entries()))
        }
    }

    /// The working buffer `generate` leaves behind: how far the stages
    /// carried it before the first failure.
    pub open spec fn spec_contents(&self) -> Seq<W> {
        if !self.validator.accepts(self.location@) {
            self.contents@
        } else if !self.reader.can_read(self.location@) {
            Seq::empty()
        } else if !self.filters@[0].filter_ok(self.read_entries()) {
            self.read_entries()
        } else if !self.all_sortable() {
            self.filtered_entries()
        } else {
            self.sorted_entries()
        }
    }

    /// Set the `Location` for `Lst` to use.  The buffer from a prior
    /// location is cleared, so stale entries never leak into a new
    /// `generate`.
    pub fn location(&mut self, location: Location)
        ensures
            final(self).location == location,
            final(self).contents@ == Seq::<W>::empty(),
            final(self).filters == old(self).filters,
            final(self).formatter == old(self).formatter,
            final(self).reader == old(self).reader,
            final(self).sorters == old(self).sorters,
            final(self).validator == old(self).validator,
    {
        self.location = location;
        // If we change location, we should start with an empty buffer.
        if !self.contents.is_empty() {
            self.contents.clear();
        }
        proof {
            assert(self.contents@ =~= Seq::<W>::empty());
        }
    }

    /// Set the `Filter` for `Lst` to use; the slot is replaced, since
    /// only one filter is supported for now.
    pub fn filter(&mut self, filter: F)
        ensures
            final(self).filters@ == seq![filter],
            final(self).location == old(self).location,
            final(self).contents == old(self).contents,
            final(self).formatter == old(self).formatter,
            final(self).reader == old(self).reader,
            final(self).sorters == old(self).sorters,
            final(self).validator == old(self).validator,
    {
        self.filters.clear();
        self.filters.push(filter);
        proof {
            assert(self.filters@ =~= seq![filter]);
        }
    }

    /// Set the `Formatter` for `Lst` to use.
    pub fn formatter(&mut self, formatter: T)
        ensures
            final(self).formatter == formatter,
            final(self).location == old(self).location,
            final(self).contents == old(self).contents,
            final(self).filters == old(self).filters,
            final(self).reader == old(self).reader,
            final(self).sorters == old(self).sorters,
            final(self).validator == old(self).validator,
    {
        self.formatter = formatter;
    }

    /// Set the `Reader` for `Lst` to use.
    pub fn reader(&mut self, reader: U)
        ensures
            final(self).reader == reader,
            final(self).location == old(self).location,
            final(self).contents == old(self).contents,
            final(self).filters == old(self).filters,
            final(self).formatter == old(self).formatter,
            final(self).sorters == old(self).sorters,
            final(self).validator == old(self).validator,
    {
        self.reader = reader;
    }

    /// Set the `Sorter` for `Lst` to use; the slot is replaced, since
    /// only one sorter is supported for now.
    pub fn sorter(&mut self, sorter: S)
        ensures
            final(self).sorters@ == seq![sorter],
            final(self).location == old(self).location,
            final(self).contents == old(self).contents,
            final(self).filters == old(self).filters,
            final(self).formatter == old(self).formatter,
            final(self).reader == old(self).reader,
            final(self).validator == old(self).validator,
    {
        self.sorters.clear();
        self.sorters.push(sorter);
        proof {
            assert(self.sorters@ =~= seq![sorter]);
        }
    }

    /// Set the `Validator` for `Lst` to use.
    pub fn validator(&mut self, validator: V)
        ensures
            final(self).validator == validator,
            final(self).location == old(self).location,
            final(self).contents == old(self).contents,
            final(self).filters == old(self).filters,
            final(self).formatter == old(self).formatter,
            final(self).reader == old(self).reader,
            final(self).sorters == old(self).sorters,
    {
        self.validator = validator;
    }

    /// Run the pipeline: validate the location, clear the buffer and
    /// read into it, filter, sort, and format.  Returns exactly
    /// `spec_result`, which depends only on the location and the
    /// configured stages; the stages themselves are left unchanged.
    pub fn generate(&mut self) -> (r: Result<String, LstError>)
        requires
            old(self).wf(),
        ensures
            final(self).wf(),
            final(self).location == old(self).location,
            final(self).filters == old(self).filters,
            final(self).formatter == old(self).formatter,
            final(self).reader == old(self).reader,
            final(self).sorters == old(self).sorters,
            final(self).validator == old(self).validator,
            final(self).contents@ == old(self).spec_contents(),
            r is Ok <==> old(self).spec_result() is Ok,
            r is Ok ==> r->Ok_0@ == old(self).spec_result()->Ok_0,
            r is Err ==> r->Err_0 == old(self).spec_result()->Err_0,
    {
        match self.validator.validate(self.location.as_str()) {
            Ok(_) => {},
            Err(e) => {
                return Err(LstError::Validation(e));
            },
        }
        self.contents.clear();
        match self.reader.read(self.location.as_str(), &mut self.contents) {
            Ok(_) => {},
            Err(e) => {
                return Err(LstError::Io(e));
            },
        }
        proof {
            assert(self.contents@ =~= self.reader.entries_of(self.location@));
        }
        let f = &self.filters[0];
        match f.filter(&mut self.contents) {
            Ok(_) => {},
            Err(e) => {
                return Err(LstError::Stage(e));
            },
        }
        let s = &self.sorters[0];
        match s.sort(&mut self.contents) {
            Ok(_) => {},
            Err(e) => {
                return Err(LstError::Stage(e));
            },
        }
        match self.formatter.format(&self.contents) {
            Ok(text) => Ok(text),
            Err(e) => Err(LstError::Stage(e)),
        }
    }
}

/// What `generate` returns depends only on the location and the
/// configured stages, never on the working buffer.  Since `generate`
/// leaves the location and the stages unchanged, calling it twice in
/// succession on an unchanged pipeline yields the same string.
pub proof fn lemma_result_depends_on_stages<T, U, V, F, S, W>(
    a: Lst<T, U, V, F, S, W>,
    b: Lst<T, U, V, F, S, W>,
) where T: Formatter<W>, U: Reader<W>, V: Validator, F: Filter<W>, S: Sorter<W>
    requires
        a.location == b.location,
        a.filters == b.filters,
        a.formatter == b.formatter,
        a.reader == b.reader,
        a.sorters == b.sorters,
        a.validator == b.validator,
    ensures
        a.spec_result() == b.spec_result(),
{
    assert(a.read_entries() == b.read_entries());
    assert(a.filtered_entries() == b.filtered_entries());
    assert(a.all_sortable() == b.all_sortable()) by {
        if a.all_sortable() {
            assert(b.all_sortable());
        }
        if b.all_sortable() {
            assert(a.all_sortable());
        }
    }
    assert(a.sorted_entries() == b.sorted_entries());
}

/// Entries the configured filter does not remove survive filtering with
/// their multiplicity: a filter that removes nothing leaves every entry,
/// dot-entries included, in place.
pub proof fn lemma_filter_keeps_unremoved<T, U, V, F, S, W>(l: Lst<T, U, V, F, S, W>, t: W) where
    T: Formatter<W>,
    U: Reader<W>,
    V: Validator,
    F: Filter<W>,
    S: Sorter<W>,

    requires
        l.wf(),
        !l.filters@[0].removes(t),
    ensures
        l.filtered_entries().to_multiset().count(t) == l.read_entries().to_multiset().count(t),
{
    l.filters@[0].lemma_filtered(l.read_entries());
}

/// With the dot-files filter configured, no entry that survives
/// filtering has a name beginning with a dot, whatever reader produced
/// the entries.
pub proof fn lemma_dot_entries_filtered<T, U, V, S>(
    l: Lst<T, U, V, DotFilesFilter, S, Entry>,
) where T: Formatter<Entry>, U: Reader<Entry>, V: Validator, S: Sorter<Entry>
    requires
        l.wf(),
    ensures
        forall|i: int|
            0 <= i < l.filtered_entries().len() ==> !dot_removed(
                #[trigger] l.filtered_entries()[i],
            ),
{
    l.filters@[0].lemma_filtered(l.read_entries());
}

/// With the time sorter configured, the sorted buffer is ordered newest
/// first: each entry's creation time is at least that of every entry
/// after it.  The name-only formatter writes the buffer in order, so
/// the output lines are ordered the same way.
pub proof fn lemma_sorted_newest_first<T, U, V, F>(l: Lst<T, U, V, F, TimeSorter, Entry>) where
    T: Formatter<Entry>,
    U: Reader<Entry>,
    V: Validator,
    F: Filter<Entry>,

    requires
        l.wf(),
        l.all_sortable(),
    ensures
        forall|i: int, j: int|
            0 <= i < j < l.sorted_entries().len() ==> time_key(l.sorted_entries()[i]) >= time_key(
                l.sorted_entries()[j],
            ),
{
    l.sorters@[0].lemma_sorted(l.filtered_entries());
    assert forall|i: int, j: int| 0 <= i < j < l.sorted_entries().len() implies time_key(
        l.sorted_entries()[i],
    ) >= time_key(l.sorted_entries()[j]) by {
        assert(l.sorters@[0].precedes(l.sorted_entries()[i], l.sorted_entries()[j]));
    }
}

/// Every entry of the sorted buffer was read for the current location:
/// sorting permutes and filtering only removes, so nothing enters the
/// buffer behind the reader's back.
pub proof fn lemma_output_entries_from_read<T, U, V, F, S, W>(l: Lst<T, U, V, F, S, W>) where
    T: Formatter<W>,
    U: Reader<W>,
    V: Validator,
    F: Filter<W>,
    S: Sorter<W>,

    requires
        l.wf(),
        l.all_sortable(),
    ensures
        forall|i: int|
            0 <= i < l.sorted_entries().len() ==> l.read_entries().contains(
                #[trigger] l.sorted_entries()[i],
            ),
{
    broadcast use vstd::seq_lib::group_to_multiset_ensures;

    l.filters@[0].lemma_filtered(l.read_entries());
    l.sorters@[0].lemma_sorted(l.filtered_entries());
    assert forall|i: int| 0 <= i < l.sorted_entries().len() implies l.read_entries().contains(
        #[trigger] l.sorted_entries()[i],
    ) by {
        let e = l.sorted_entries()[i];
        assert(l.sorted_entries().contains(e));
        assert(l.sorted_entries().to_multiset().count(e) > 0);
        assert(l.filtered_entries().to_multiset().count(e) > 0);
        assert(l.filtered_entries().contains(e));
        let j = choose|j: int| 0 <= j < l.filtered_entries().len() && l.filtered_entries()[j] == e;
        assert(!l.filters@[0].removes(e));
        assert(l.read_entries().to_multiset().count(e) > 0);
    }
}

/// Every entry the default reader yields belongs to the current
/// location: it is derived from a snapshot object that lies in the
/// location, or is the location itself.  After the location is switched,
/// a new `generate` therefore never includes an entry of the old one.
pub proof fn lemma_read_entries_from_location<T, V, F, S>(
    l: Lst<T, FileSystemReader, V, F, S, Entry>,
) where T: Formatter<Entry>, V: Validator, F: Filter<Entry>, S: Sorter<Entry>
    ensures
        forall|i: int|
            0 <= i < l.read_entries().len() ==> exists|k: int|
                0 <= k < l.reader.snapshot.objects@.len() && #[trigger] l.read_entries()[i]
                    == entry_of(l.reader.snapshot.objects@[k]) && (l.reader.snapshot.objects@[k].parent@
                    == l.location@ || l.reader.snapshot.objects@[k].path@ == l.location@),
{
    let objs = l.reader.snapshot.objects@;
    let loc = l.location@;
    match lookup(objs, loc) {
        Some(o) => {
            if o.kind == FsKind::Directory {
                lemma_children_of_members(objs, loc);
            } else if o.kind == FsKind::File {
                if o.parent@.len() != 0 && crate::entries::find_child(
                    objs,
                    o.parent@,
                    loc,
                ) is Some {
                    lemma_find_child_found(objs, o.parent@, loc);
                    let c = crate::entries::find_child(objs, o.parent@, loc)->0;
                    let k = choose|k: int| 0 <= k < objs.len() && objs[k] == c;
                    assert(l.read_entries()[0] == entry_of(objs[k]) && objs[k].path@ == loc);
                }
            }
        },
        None => {},
    }
}

/// Listing a readable directory with the default pipeline succeeds, and
/// the resulting buffer holds exactly the directory's children minus the
/// dot-entries, each with its multiplicity, none of them dotted, and the
/// output is their names in buffer order, one per line.
pub proof fn lemma_generate_lists_children(
    l: Lst<NameOnlyFormatter, FileSystemReader, FileSystemValidator, DotFilesFilter, TimeSorter, Entry>,
)
    requires
        l.wf(),
        l.validator.snapshot == l.reader.snapshot,
        lookup(l.reader.snapshot.objects@, l.location@) is Some,
        lookup(l.reader.snapshot.objects@, l.location@)->0.kind == FsKind::Directory,
        lookup(l.reader.snapshot.objects@, l.location@)->0.readable,
        forall|k: int|
            0 <= k < l.reader.snapshot.objects@.len() && #[trigger] l.reader.snapshot.objects@[k].parent@
                == l.location@ ==> l.reader.snapshot.objects@[k].created is Some,
    ensures
        l.spec_result() is Ok,
        l.spec_result()->Ok_0 == name_lines(l.sorted_entries()),
        forall|i: int|
            0 <= i < l.sorted_entries().len() ==> !dot_removed(#[trigger] l.sorted_entries()[i]),
        forall|e: Entry|
            !dot_removed(e) ==> l.sorted_entries().to_multiset().count(e) == children_of(
                l.reader.snapshot.objects@,
                l.location@,
            ).to_multiset().count(e),
{
    broadcast use vstd::seq_lib::group_to_multiset_ensures;

    let objs = l.reader.snapshot.objects@;
    let loc = l.location@;
    assert(l.validator.accepts(loc));
    assert(l.reader.can_read(loc));
    assert(l.read_entries() == children_of(objs, loc));
    l.filters@[0].lemma_filtered(l.read_entries());
    lemma_children_of_members(objs, loc);
    assert forall|i: int| 0 <= i < l.filtered_entries().len() implies l.sorters@[0].sortable(
        #[trigger] l.filtered_entries()[i],
    ) by {
        let e = l.filtered_entries()[i];
        assert(!dot_removed(e));
        assert(l.filtered_entries().contains(e));
        assert(l.filtered_entries().to_multiset().count(e) > 0);
        assert(l.read_entries().to_multiset().count(e) > 0);
        assert(l.read_entries().contains(e));
        let j = choose|j: int| 0 <= j < l.read_entries().len() && l.read_entries()[j] == e;
        let k = choose|k: int|
            0 <= k < objs.len() && children_of(objs, loc)[j] == entry_of(objs[k]) && objs[k].parent@
                == loc;
        assert(e.created == objs[k].created);
    }
    assert(l.all_sortable());
    l.sorters@[0].lemma_sorted(l.filtered_entries());
    assert forall|i: int| 0 <= i < l.sorted_entries().len() implies !dot_removed(
        #[trigger] l.sorted_entries()[i],
    ) by {
        let e = l.sorted_entries()[i];
        assert(l.sorted_entries().contains(e));
        assert(l.sorted_entries().to_multiset().count(e) > 0);
        assert(l.filtered_entries().to_multiset().count(e) > 0);
        assert(l.filtered_entries().contains(e));
        let j = choose|j: int| 0 <= j < l.filtered_entries().len() && l.filtered_entries()[j] == e;
    }
    assert forall|e: Entry| !dot_removed(e) implies l.sorted_entries().to_multiset().count(e)
        == children_of(objs, loc).to_multiset().count(e) by {
        assert(l.sorted_entries().to_multiset() == l.filtered_entries().to_multiset());
        assert(l.filtered_entries().to_multiset().count(e) == l.read_entries().to_multiset().count(
            e,
        ));
    }
}

/// With newline-free child names, the default output splits back into
/// exactly the names of the sorted buffer: the non-empty lines of the
/// listing are the directory's non-dot children, no more and no fewer.
pub proof fn lemma_generate_output_lines(
    l: Lst<NameOnlyFormatter, FileSystemReader, FileSystemValidator, DotFilesFilter, TimeSorter, Entry>,
)
    requires
        l.wf(),
        l.validator.snapshot == l.reader.snapshot,
        lookup(l.reader.snapshot.objects@, l.location@) is Some,
        lookup(l.reader.snapshot.objects@, l.location@)->0.kind == FsKind::Directory,
        lookup(l.reader.snapshot.objects@, l.location@)->0.readable,
        forall|k: int|
            0 <= k < l.reader.snapshot.objects@.len() && #[trigger] l.reader.snapshot.objects@[k].parent@
                == l.location@ ==> l.reader.snapshot.objects@[k].created is Some,
        forall|k: int, j: int|
            0 <= k < l.reader.snapshot.objects@.len() && l.reader.snapshot.objects@[k].parent@
                == l.location@ && 0 <= j < l.reader.snapshot.objects@[k].name@.len()
                ==> #[trigger] l.reader.snapshot.objects@[k].name@[j] != '\n',
    ensures
        l.spec_result() is Ok,
        split_lines(l.spec_result()->Ok_0) == l.sorted_entries().map_values(|e: Entry| e.name@),
{
    broadcast use vstd::seq_lib::group_to_multiset_ensures;

    let objs = l.reader.snapshot.objects@;
    let loc = l.location@;
    lemma_generate_lists_children(l);
    lemma_output_entries_from_read(l);
    lemma_children_of_members(objs, loc);
    assert forall|i: int, j: int|
        0 <= i < l.sorted_entries().len() && 0 <= j < l.sorted_entries()[i].name@.len() implies #[trigger] l.sorted_entries()[i].name@[j]
        != '\n' by {
        let e = l.sorted_entries()[i];
        assert(l.read_entries().contains(e));
        let m = choose|m: int| 0 <= m < l.read_entries().len() && l.read_entries()[m] == e;
        let k = choose|k: int|
            0 <= k < objs.len() && children_of(objs, loc)[m] == entry_of(objs[k]) && objs[k].parent@
                == loc;
        assert(e.name@ == objs[k].name@);
    }
    lemma_split_name_lines(l.sorted_entries());
}

} // verus!
