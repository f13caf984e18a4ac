//! The shared result model of the classifiers: positional slices, the
//! decomposition record they populate, and the scan functions whose shape
//! both platforms share (last-occurrence search and directory-part
//! counting).

use vstd::prelude::*;
use vstd::string::StrSliceExecFns;

verus! {

/// A half-open character range `[offset, offset + length)` into a source
/// string.  It owns no characters: it is a back-reference, meaningful only
/// relative to the exact string it was derived from, and two slices are
/// equal iff both offset and length are equal — not iff their substrings
/// are.  The empty sentinel is always `(0, 0)`.
#[derive(Clone, Copy, Debug, PartialEq, Eq, Structural)]
pub struct PositionalSlice {
    pub offset: usize,
    pub length: usize,
}

impl PositionalSlice {
    /// The slice `(0, 0)`, used as the "nothing here" sentinel.
    pub open spec fn spec_empty() -> PositionalSlice {
        PositionalSlice { offset: 0, length: 0 }
    }

    /// The characters of `s` that this slice denotes.
    pub open spec fn spec_resolve(self, s: Seq<char>) -> Seq<char>
        recommends
            self.offset + self.length <= s.len(),
    {
        s.subrange(self.offset as int, self.offset + self.length)
    }

    pub fn new(offset: usize, length: usize) -> (r: PositionalSlice)
        ensures
            r.offset == offset,
            r.length == length,
    {
        PositionalSlice { offset, length }
    }

    pub fn empty() -> (r: PositionalSlice)
        ensures
            r == PositionalSlice::spec_empty(),
    {
        PositionalSlice { offset: 0, length: 0 }
    }

    pub fn len(&self) -> (r: usize)
        ensures
            r == self.length,
    {
        self.length
    }

    pub fn is_empty(&self) -> (r: bool)
        ensures
            r == (self.length == 0),
    {
        self.length == 0
    }

    /// Renders the slice against the string it was derived from.
    pub fn substring_of<'a>(&self, s: &'a str) -> (r: &'a str)
        requires
            self.offset + self.length <= s@.len(),
        ensures
            r@ == self.spec_resolve(s@),
    {
        let _n: usize = s.unicode_len();
        s.substring_char(self.offset, self.offset + self.length)
    }
}

/// The decomposition of one classified path: a fixed-shape record of named
/// slices over the input string, plus the two directory-part counts.  Every
/// call of a classifier returns a fully populated instance; only for an
/// empty input (and for the untouched regions of an invalid one) do fields
/// keep the `(0, 0)` sentinel.
#[allow(non_snake_case)]
#[derive(Clone, Copy, Debug, PartialEq, Eq, Structural)]
pub struct ClassificationResult {
    /// The whole input string, `(0, len)`.
    pub Input: PositionalSlice,
    /// Reserved; always empty.
    pub FullPath: PositionalSlice,
    /// Reserved; always empty.
    pub Prefix: PositionalSlice,
    /// Everything before the entry name: `(0, EntryName.offset)`.
    pub Location: PositionalSlice,
    /// The recognised root token, e.g. `"/"`, `"C:"`, `"C:\"`, `"~"`.
    pub Root: PositionalSlice,
    /// The separator-delimited portion between root and entry name, up to
    /// and including the final separator.
    pub Directory: PositionalSlice,
    /// Number of directory segments; runs of separators collapse to one
    /// boundary.
    pub NumDirectoryParts: usize,
    /// Number of directory segments that are exactly `.` or `..`.
    pub NumDotsDirectoryParts: usize,
    /// The remainder after the last separator.
    pub EntryName: PositionalSlice,
    /// The entry name up to its last interior dot.
    pub Stem: PositionalSlice,
    /// The entry name from its last interior dot, inclusive.
    pub Extension: PositionalSlice,
    /// Where an invalid character stopped classification: `(index, 1)`;
    /// empty otherwise.
    pub FirstInvalid: PositionalSlice,
}

impl ClassificationResult {
    /// The all-empty record.
    pub open spec fn spec_empty() -> ClassificationResult {
        ClassificationResult {
            Input: PositionalSlice::spec_empty(),
            FullPath: PositionalSlice::spec_empty(),
            Prefix: PositionalSlice::spec_empty(),
            Location: PositionalSlice::spec_empty(),
            Root: PositionalSlice::spec_empty(),
            Directory: PositionalSlice::spec_empty(),
            NumDirectoryParts: 0,
            NumDotsDirectoryParts: 0,
            EntryName: PositionalSlice::spec_empty(),
            Stem: PositionalSlice::spec_empty(),
            Extension: PositionalSlice::spec_empty(),
            FirstInvalid: PositionalSlice::spec_empty(),
        }
    }

    pub fn empty() -> (r: ClassificationResult)
        ensures
            r == ClassificationResult::spec_empty(),
    {
        ClassificationResult {
            Input: PositionalSlice::empty(),
            FullPath: PositionalSlice::empty(),
            Prefix: PositionalSlice::empty(),
            Location: PositionalSlice::empty(),
            Root: PositionalSlice::empty(),
            Directory: PositionalSlice::empty(),
            NumDirectoryParts: 0,
            NumDotsDirectoryParts: 0,
            EntryName: PositionalSlice::empty(),
            Stem: PositionalSlice::empty(),
            Extension: PositionalSlice::empty(),
            FirstInvalid: PositionalSlice::empty(),
        }
    }
}

/// The greatest index of `s` whose character satisfies `pred`, if any.
pub open spec fn last_index_where(s: Seq<char>, pred: spec_fn(char) -> bool) -> Option<int>
    decreases s.len(),
{
    if s.len() == 0 {
        None
    } else if pred(s.last()) {
        Some(s.len() - 1)
    } else {
        last_index_where(s.drop_last(), pred)
    }
}

pub open spec fn spec_is_dot(c: char) -> bool {
    c == '.'
}

/// The index of the last `.` in `s`, if any.
pub open spec fn spec_last_dot(s: Seq<char>) -> Option<int> {
    last_index_where(s, |c: char| spec_is_dot(c))
}

/// Reverse search for the last `.` of `s`.
pub(crate) fn find_last_dot_(s: &str) -> (r: Option<usize>)
    ensures
        ({
            match r {
                Some(i) => i < s@.len() && spec_last_dot(s@) == Some(i as int),
                None => spec_last_dot(s@) is None,
            }
        }),
{
    let n = s.unicode_len();
    let mut i: usize = n;
    assert(s@.subrange(0, n as int) =~= s@);
    while i > 0
        invariant
            i <= n,
            n == s@.len(),
            spec_last_dot(s@) == spec_last_dot(s@.subrange(0, i as int)),
        decreases i,
    {
        let c = s.get_char(i - 1);
        if c == '.' {
            return Some(i - 1);
        }
        proof {
            assert(s@.subrange(0, i as int).drop_last() =~= s@.subrange(0, i - 1));
        }
        i = i - 1;
    }
    assert(s@.subrange(0, 0) =~= Seq::<char>::empty());
    None
}

/// The scan state after reading `s` left to right: the number of directory
/// parts counted so far, the number of those that were dots parts, the
/// length of the current run of dots (saturating at 3, which can never
/// again become a dots segment), and whether the previous character was a
/// separator.  A part is counted at each transition onto a separator; the
/// segment just ended is a dots part iff it was exactly `.` or `..`.
pub open spec fn count_parts_state(s: Seq<char>, sep: spec_fn(char) -> bool) -> (nat, nat, nat, bool)
    decreases s.len(),
{
    if s.len() == 0 {
        (0 as nat, 0 as nat, 0 as nat, false)
    } else {
        let st = count_parts_state(s.drop_last(), sep);
        let c = s.last();
        if sep(c) {
            (
                if st.3 {
                    st.0
                } else {
                    st.0 + 1
                },
                if st.2 == 1 || st.2 == 2 {
                    st.1 + 1
                } else {
                    st.1
                },
                0 as nat,
                true,
            )
        } else if c == '.' {
            (
                st.0,
                st.1,
                if st.2 < 3 {
                    st.2 + 1
                } else {
                    st.2
                },
                false,
            )
        } else {
            (st.0, st.1, 3 as nat, false)
        }
    }
}

/// Dots parts never outnumber parts, parts never outnumber characters, and
/// a pending run of one or two dots implies the previous character was not
/// a separator.
pub proof fn lemma_count_parts_state_bounds(s: Seq<char>, sep: spec_fn(char) -> bool)
    ensures
        ({
            let st = count_parts_state(s, sep);
            &&& st.1 <= st.0 <= s.len()
            &&& ((st.2 == 1 || st.2 == 2) ==> !st.3)
        }),
    decreases s.len(),
{
    if s.len() > 0 {
        lemma_count_parts_state_bounds(s.drop_last(), sep);
    }
}

} // verus!
