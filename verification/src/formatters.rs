//! Formatters render the final buffer into an output string.  Implement
//! the `Formatter` trait to create a custom formatter or use the default
//! one.

use vstd::prelude::*;
use crate::entries::Entry;
use crate::errors::StageError;
use vstd::string::StringExecFns;

verus! {

/// Formats the output.  The buffer is read-only here: a formatter never
/// changes it.
pub trait Formatter<T> {
    /// The buffers the formatter succeeds on.
    spec fn format_ok(&self, s: Seq<T>) -> bool;

    /// The exact string the formatter produces on success.
    spec fn formatted(&self, s: Seq<T>) -> Seq<char>;

    /// Render the buffer into a string.
    fn format(&self, buffer: &Vec<T>) -> (r: Result<String, StageError>)
        ensures
            r is Ok <==> self.format_ok(buffer@),
            r is Ok ==> r->Ok_0@ == self.formatted(buffer@),
    ;
}

/// One line per entry: the entry's display name followed by a newline,
/// in buffer order.
pub open spec fn name_lines(s: Seq<Entry>) -> Seq<char>
    decreases s.len(),
{
    if s.len() == 0 {
        Seq::empty()
    } else {
        name_lines(s.drop_last()) + s.last().name@ + seq!['\n']
    }
}

/// The index of the first newline in `s`; the length of `s` if there is
/// none.
pub open spec fn first_newline(s: Seq<char>) -> int
    decreases s.len(),
{
    if s.len() == 0 {
        0
    } else if s.first() == '\n' {
        0
    } else {
        1 + first_newline(s.drop_first())
    }
}

/// The lines of a string: the segments between newlines, with a final
/// segment only if the string does not end in a newline.  The empty
/// string has no lines.
pub open spec fn split_lines(s: Seq<char>) -> Seq<Seq<char>>
    decreases s.len(),
{
    if s.len() == 0 {
        Seq::empty()
    } else {
        let k = first_newline(s);
        if !(0 <= k < s.len()) {
            seq![s]
        } else {
            seq![s.take(k)] + split_lines(s.skip(k + 1))
        }
    }
}

/// `first_newline` finds the end of a newline-free prefix.
proof fn lemma_first_newline_prefix(a: Seq<char>, rest: Seq<char>)
    requires
        forall|i: int| 0 <= i < a.len() ==> a[i] != '\n',
    ensures
        first_newline(a + seq!['\n'] + rest) == a.len(),
    decreases a.len(),
{
    let s = a + seq!['\n'] + rest;
    if a.len() == 0 {
        assert(s.first() == '\n');
    } else {
        assert(s.first() == a[0]);
        assert(s.drop_first() =~= a.drop_first() + seq!['\n'] + rest);
        lemma_first_newline_prefix(a.drop_first(), rest);
    }
}

/// The name-only output splits back into exactly the entry names, in
/// buffer order, provided no name contains a newline.
pub proof fn lemma_split_name_lines(s: Seq<Entry>)
    requires
        forall|i: int, j: int|
            0 <= i < s.len() && 0 <= j < s[i].name@.len() ==> #[trigger] s[i].name@[j] != '\n',
    ensures
        split_lines(name_lines(s)) == s.map_values(|e: Entry| e.name@),
    decreases s.len(),
{
    if s.len() == 0 {
        assert(split_lines(name_lines(s)) =~~= s.map_values(|e: Entry| e.name@));
    } else {
        lemma_name_lines_first(s);
        let name = s.first().name@;
        let tail = name_lines(s.drop_first());
        let t = name + seq!['\n'] + tail;
        assert(name_lines(s) == t);
        lemma_first_newline_prefix(name, tail);
        assert(t.len() > 0);
        assert(first_newline(t) == name.len() < t.len());
        assert(t.take(name.len() as int) =~= name);
        assert(t.skip(name.len() as int + 1) =~= tail);
        assert(forall|i: int, j: int|
            0 <= i < s.drop_first().len() && 0 <= j < s.drop_first()[i].name@.len()
                ==> #[trigger] s.drop_first()[i].name@[j] != '\n');
        lemma_split_name_lines(s.drop_first());
        assert(split_lines(t) == seq![name] + split_lines(tail));
        assert(split_lines(name_lines(s)) =~~= s.map_values(|e: Entry| e.name@));
    }
}

/// `name_lines` unfolded at the front: the first name, a newline, then
/// the lines of the rest.
proof fn lemma_name_lines_first(s: Seq<Entry>)
    requires
        s.len() > 0,
    ensures
        name_lines(s) == s.first().name@ + seq!['\n'] + name_lines(s.drop_first()),
    decreases s.len(),
{
    if s.len() == 1 {
        assert(s.drop_last() =~= Seq::<Entry>::empty());
        assert(s.drop_first() =~= Seq::<Entry>::empty());
        assert(name_lines(s) =~= s.first().name@ + seq!['\n'] + name_lines(s.drop_first()));
    } else {
        lemma_name_lines_first(s.drop_last());
        assert(s.drop_last().first() == s.first());
        assert(s.drop_last().drop_first() =~= s.drop_first().drop_last());
        assert(s.drop_first().len() > 0);
        assert(name_lines(s) == name_lines(s.drop_last()) + s.last().name@ + seq!['\n']);
        assert(name_lines(s.drop_first()) == name_lines(s.drop_first().drop_last())
            + s.drop_first().last().name@ + seq!['\n']);
        assert(s.drop_first().last() == s.last());
        assert(name_lines(s) =~= s.first().name@ + seq!['\n'] + name_lines(s.drop_first()));
    }
}

/// The `NameOnlyFormatter` writes each entry's display name on a line of
/// its own; an empty buffer yields the empty string.
#[non_exhaustive]
#[derive(Clone, Copy, Debug)]
pub struct NameOnlyFormatter;

impl NameOnlyFormatter {
    /// Create a new `NameOnlyFormatter`.
    pub fn new() -> (r: Self)
        ensures
            r == (NameOnlyFormatter {}),
    {
        NameOnlyFormatter {}
    }
}

impl Formatter<Entry> for NameOnlyFormatter {
    open spec fn format_ok(&self, s: Seq<Entry>) -> bool {
        true
    }

    open spec fn formatted(&self, s: Seq<Entry>) -> Seq<char> {
        name_lines(s)
    }

    #[verifier::loop_isolation(false)]
    fn format(&self, buffer: &Vec<Entry>) -> (r: Result<String, StageError>) {
        let mut out = String::new();
        let n = buffer.len();
        let mut i: usize = 0;
        proof {
            reveal_strlit("\n");
        }
        while i < n
            invariant
                n == buffer@.len(),
                0 <= i <= n,
                out@ == name_lines(buffer@.take(i as int)),
                "\n"@ == seq!['\n'],
            decreases n - i,
        {
            out.append(buffer[i].name.as_str());
            out.append("\n");
            proof {
                assert(buffer@.take(i + 1).drop_last() =~= buffer@.take(i as int));
                assert(buffer@.take(i + 1).last() == buffer@[i as int]);
            }
            i += 1;
        }
        proof {
            assert(buffer@.take(n as int) =~= buffer@);
        }
        Ok(out)
    }
}

} // verus!
