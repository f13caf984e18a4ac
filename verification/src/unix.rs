//! Classification of POSIX-style paths: `/` is the only separator, and a
//! leading `~` may optionally be recognised as a home-rooted anchor.

pub mod classification_flags;

use vstd::prelude::*;
use vstd::string::StrSliceExecFns;

use crate::common::ClassificationResult;
use crate::common::PositionalSlice;
use crate::common::count_parts_state;
use crate::common::find_last_dot_;
use crate::common::last_index_where;
use crate::common::lemma_count_parts_state_bounds;
use crate::common::spec_last_dot;

verus! {

/// The classification of one path string.  The first three variants are
/// error-like; of these only `InvalidChars` is currently produced, the
/// others are reserved, as are `Unknown` and the `_Reserved` slots.
#[derive(Clone, Copy, Debug, PartialEq, Eq, Structural)]
pub enum Classification {
    InvalidSlashRuns,
    InvalidChars,
    Invalid,
    Unknown,
    Empty,
    Relative,
    SlashRooted,
    _Reserved1,
    _Reserved2,
    _Reserved3,
    _Reserved4,
    HomeRooted,
}

/// Whether `parse_flags` asks for `~` to be recognised as a home anchor.
pub open spec fn spec_recognise_tilde_home(parse_flags: i32) -> bool {
    parse_flags & classification_flags::RECOGNISE_TILDE_HOME
        == classification_flags::RECOGNISE_TILDE_HOME
}

/// The characters a POSIX path may not contain: a small punctuation set,
/// plus the Latin-1 supplement range.
pub open spec fn spec_char_is_invalid_in_path(c: char) -> bool {
    ||| (c as u32) >= 0x80 && (c as u32) <= 0xff
    ||| c == '*'
    ||| c == '<'
    ||| c == '>'
    ||| c == '?'
    ||| c == '|'
}

/// Evaluates whether a character is invalid in a path.
pub fn char_is_invalid_in_path_(c: char) -> (r: bool)
    ensures
        r == spec_char_is_invalid_in_path(c),
{
    let v = c as u32;
    (v >= 0x80 && v <= 0xff) || c == '*' || c == '<' || c == '>' || c == '?' || c == '|'
}

pub open spec fn spec_char_is_path_name_separator(c: char) -> bool {
    c == '/'
}

/// Evaluates whether a character separates path names.
pub fn char_is_path_name_separator_(c: char) -> (r: bool)
    ensures
        r == spec_char_is_path_name_separator(c),
{
    c == '/'
}

/// The index of the last separator of `s`, if any.
pub open spec fn spec_last_slash(s: Seq<char>) -> Option<int> {
    last_index_where(s, |c: char| spec_char_is_path_name_separator(c))
}

/// Reverse search for the last separator of `s`.
pub fn find_last_slash_(s: &str) -> (r: Option<usize>)
    ensures
        ({
            match r {
                Some(i) => i < s@.len() && spec_last_slash(s@) == Some(i as int),
                None => spec_last_slash(s@) is None,
            }
        }),
{
    let n = s.unicode_len();
    let mut i: usize = n;
    assert(s@.subrange(0, n as int) =~= s@);
    while i > 0
        invariant
            i <= n,
            n == s@.len(),
            spec_last_slash(s@) == spec_last_slash(s@.subrange(0, i as int)),
        decreases i,
    {
        let c = s.get_char(i - 1);
        if char_is_path_name_separator_(c) {
            return Some(i - 1);
        }
        proof {
            assert(s@.subrange(0, i as int).drop_last() =~= s@.subrange(0, i - 1));
        }
        i = i - 1;
    }
    assert(s@.subrange(0, 0) =~= Seq::<char>::empty());
    None
}

/// The directory-part counts of `s`: the number of separator-terminated
/// segments, and the number of those that are exactly `.` or `..`.
pub open spec fn spec_count_parts(s: Seq<char>) -> (nat, nat) {
    let st = count_parts_state(s, |c: char| spec_char_is_path_name_separator(c));
    (st.0, st.1)
}

/// Counts the directory parts of `s`, and how many of them are dots
/// directories.  A part is counted only at a separator boundary, with
/// runs of separators collapsed to one boundary.
#[allow(unused_variables)]
pub fn count_parts_(s: &str, parse_flags: i32) -> (r: (usize, usize))
    ensures
        r.0 == spec_count_parts(s@).0,
        r.1 == spec_count_parts(s@).1,
{
    let n = s.unicode_len();
    let mut number_of_parts: usize = 0;
    let mut number_of_dots_parts: usize = 0;
    let mut num_dots: usize = 0;
    let mut prev_sep: bool = false;
    let mut i: usize = 0;
    assert(s@.subrange(0, 0) =~= Seq::<char>::empty());
    while i < n
        invariant
            i <= n,
            n == s@.len(),
            ({
                let st = count_parts_state(
                    s@.subrange(0, i as int),
                    |c: char| spec_char_is_path_name_separator(c),
                );
                &&& number_of_parts == st.0
                &&& number_of_dots_parts == st.1
                &&& num_dots == st.2
                &&& prev_sep == st.3
            }),
        decreases n - i,
    {
        let c = s.get_char(i);
        proof {
            assert(s@.subrange(0, i + 1).drop_last() =~= s@.subrange(0, i as int));
            lemma_count_parts_state_bounds(
                s@.subrange(0, i as int),
                |c: char| spec_char_is_path_name_separator(c),
            );
        }
        if char_is_path_name_separator_(c) {
            if num_dots == 1 || num_dots == 2 {
                number_of_dots_parts = number_of_dots_parts + 1;
            }
            if !prev_sep {
                number_of_parts = number_of_parts + 1;
            }
            num_dots = 0;
            prev_sep = true;
        } else {
            if c == '.' {
                if num_dots < 3 {
                    num_dots = num_dots + 1;
                }
            } else {
                num_dots = 3;
            }
            prev_sep = false;
        }
        i = i + 1;
    }
    assert(s@.subrange(0, n as int) =~= s@);
    (number_of_parts, number_of_dots_parts)
}

/// What the root scan decides for a non-empty path: the classification,
/// and the index of the offending character where that classification is
/// `InvalidChars`.  Only the first one or two characters are examined: the
/// second only when a recognised `~` stands at the first.
pub open spec fn spec_root_decision(s: Seq<char>, parse_flags: i32) -> (Classification, Option<
    int,
>)
    recommends
        s.len() > 0,
{
    if spec_char_is_invalid_in_path(s[0]) {
        (Classification::InvalidChars, Some(0 as int))
    } else if s[0] == '~' && spec_recognise_tilde_home(parse_flags) {
        if s.len() == 1 {
            (Classification::HomeRooted, None)
        } else if spec_char_is_invalid_in_path(s[1]) {
            (Classification::InvalidChars, Some(1 as int))
        } else if spec_char_is_path_name_separator(s[1]) {
            (Classification::HomeRooted, None)
        } else {
            (Classification::Relative, None)
        }
    } else if spec_char_is_path_name_separator(s[0]) {
        (Classification::SlashRooted, None)
    } else {
        (Classification::Relative, None)
    }
}

/// How many characters of the input the root token spans.  A home or
/// slash root spans one character; the separator after a `~` is left in
/// the root-stripped remainder.
pub open spec fn spec_root_len(cl: Classification) -> nat {
    match cl {
        Classification::SlashRooted => 1,
        Classification::HomeRooted => 1,
        _ => 0,
    }
}

/// Examines the path to the degree necessary to be able to classify it,
/// returning the classification, the root slice, the root-stripped
/// remainder, and the index of the first invalid character if one stopped
/// the scan.
pub fn classify_root_(path: &str, parse_flags: i32) -> (r: (
    Classification,
    PositionalSlice,
    PositionalSlice,
    Option<usize>,
))
    requires
        path@.len() > 0,
    ensures
        ({
            let decision = spec_root_decision(path@, parse_flags);
            &&& r.0 == decision.0
            &&& match r.3 {
                Some(bad) => {
                    &&& decision.1 == Some(bad as int)
                    &&& r.1 == PositionalSlice::spec_empty()
                    &&& r.2 == PositionalSlice::spec_empty()
                },
                None => {
                    &&& decision.1 is None
                    &&& r.1.offset == 0
                    &&& r.1.length == spec_root_len(decision.0)
                    &&& r.2.offset == r.1.length
                    &&& r.2.length == path@.len() - r.1.length
                },
            }
        }),
{
    let n = path.unicode_len();
    let c0 = path.get_char(0);
    if char_is_invalid_in_path_(c0) {
        return (
            Classification::InvalidChars,
            PositionalSlice::empty(),
            PositionalSlice::empty(),
            Some(0),
        );
    }
    let tilde_home = parse_flags & classification_flags::RECOGNISE_TILDE_HOME
        == classification_flags::RECOGNISE_TILDE_HOME;
    if c0 == '~' && tilde_home {
        if n == 1 {
            return (
                Classification::HomeRooted,
                PositionalSlice::new(0, 1),
                PositionalSlice::new(1, 0),
                None,
            );
        }
        let c1 = path.get_char(1);
        if char_is_invalid_in_path_(c1) {
            return (
                Classification::InvalidChars,
                PositionalSlice::empty(),
                PositionalSlice::empty(),
                Some(1),
            );
        }
        if char_is_path_name_separator_(c1) {
            return (
                Classification::HomeRooted,
                PositionalSlice::new(0, 1),
                PositionalSlice::new(1, n - 1),
                None,
            );
        }
        return (
            Classification::Relative,
            PositionalSlice::new(0, 0),
            PositionalSlice::new(0, n),
            None,
        );
    }
    if char_is_path_name_separator_(c0) {
        return (
            Classification::SlashRooted,
            PositionalSlice::new(0, 1),
            PositionalSlice::new(1, n - 1),
            None,
        );
    }
    (Classification::Relative, PositionalSlice::new(0, 0), PositionalSlice::new(0, n), None)
}

/// The full functional specification of `path_classify`: what
/// classification comes back for `s` under `parse_flags`, and the value of
/// every field of the result record.
pub open spec fn spec_decomposition(
    s: Seq<char>,
    parse_flags: i32,
    cl: Classification,
    cr: ClassificationResult,
) -> bool {
    if s.len() == 0 {
        cl == Classification::Empty && cr == ClassificationResult::spec_empty()
    } else {
        let decision = spec_root_decision(s, parse_flags);
        &&& cl == decision.0
        &&& cr.Input.offset == 0
        &&& cr.Input.length == s.len()
        &&& cr.FullPath == PositionalSlice::spec_empty()
        &&& cr.Prefix == PositionalSlice::spec_empty()
        &&& match decision.1 {
            Some(bad) => {
                &&& cr.FirstInvalid.offset == bad
                &&& cr.FirstInvalid.length == 1
                &&& cr.Root == PositionalSlice::spec_empty()
                &&& cr.Directory == PositionalSlice::spec_empty()
                &&& cr.NumDirectoryParts == 0
                &&& cr.NumDotsDirectoryParts == 0
                &&& cr.EntryName == PositionalSlice::spec_empty()
                &&& cr.Stem == PositionalSlice::spec_empty()
                &&& cr.Extension == PositionalSlice::spec_empty()
                &&& cr.Location == PositionalSlice::spec_empty()
            },
            None => {
                let rl = spec_root_len(decision.0) as int;
                let stripped = s.subrange(rl, s.len() as int);
                let dl = match spec_last_slash(stripped) {
                    Some(i) => i + 1,
                    None => 0,
                };
                let eo = rl + dl;
                let el = s.len() - eo;
                let counts = spec_count_parts(s.subrange(rl, eo));
                let entry = s.subrange(eo, s.len() as int);
                &&& cr.FirstInvalid == PositionalSlice::spec_empty()
                &&& cr.Root.offset == 0
                &&& cr.Root.length == rl
                &&& cr.Directory.offset == rl
                &&& cr.Directory.length == dl
                &&& cr.NumDirectoryParts == counts.0
                &&& cr.NumDotsDirectoryParts == counts.1
                &&& cr.EntryName.offset == eo
                &&& cr.EntryName.length == el
                &&& if el == 0 {
                    cr.Stem == cr.EntryName && cr.Extension == cr.EntryName
                } else {
                    match spec_last_dot(entry) {
                        Some(di) => if di + 1 < el {
                            &&& cr.Stem.offset == eo
                            &&& cr.Stem.length == di
                            &&& cr.Extension.offset == eo + di
                            &&& cr.Extension.length == el - di
                        } else {
                            &&& cr.Stem == cr.EntryName
                            &&& cr.Extension.offset == eo + el
                            &&& cr.Extension.length == 0
                        },
                        None => {
                            &&& cr.Stem == cr.EntryName
                            &&& cr.Extension.offset == eo + el
                            &&& cr.Extension.length == 0
                        },
                    }
                }
                &&& cr.Location.offset == 0
                &&& cr.Location.length == eo
            },
        }
    }
}

/// Classifies `path` and decomposes it into the named regions of a
/// `ClassificationResult`.  The contract pins the classification and every
/// field of the record, for every input and every flag combination.
pub fn path_classify(path: &str, parse_flags: i32) -> (r: (Classification, ClassificationResult))
    ensures
        spec_decomposition(path@, parse_flags, r.0, r.1),
{
    let n = path.unicode_len();
    if n == 0 {
        return (Classification::Empty, ClassificationResult::empty());
    }
    let mut cr = ClassificationResult::empty();

    cr.Input = PositionalSlice::new(0, n);

    let (cl, root, path_root_stripped, first_bad_char_index) = classify_root_(path, parse_flags);

    if let Some(bad) = first_bad_char_index {
        cr.FirstInvalid = PositionalSlice::new(bad, 1);
        return (cl, cr);
    }
    cr.Root = PositionalSlice::new(0, root.length);

    // now search within the root-stripped path
    let stripped_str = path_root_stripped.substring_of(path);
    let last_slash = find_last_slash_(stripped_str);

    match last_slash {
        Some(index) => {
            // a separator splits the remainder into directory and entry
            let dir_len = index + 1;

            cr.Directory = PositionalSlice::new(root.length, dir_len);

            let dir_str = cr.Directory.substring_of(path);
            let counts = count_parts_(dir_str, parse_flags);

            cr.NumDirectoryParts = counts.0;
            cr.NumDotsDirectoryParts = counts.1;

            cr.EntryName = PositionalSlice::new(
                root.length + dir_len,
                path_root_stripped.length - dir_len,
            );
        },
        None => {
            cr.Directory = PositionalSlice::new(root.length, 0);

            // with no separator, the whole remainder is the entry
            cr.EntryName = PositionalSlice::new(root.length, path_root_stripped.length);
        },
    }
    if cr.EntryName.length == 0 {
        cr.Stem = cr.EntryName;
        cr.Extension = cr.EntryName;
    } else {
        let entry_str = cr.EntryName.substring_of(path);
        let last_entry_dot = find_last_dot_(entry_str);

        let mut did_split = false;
        if let Some(index) = last_entry_dot {
            if index + 1 < cr.EntryName.length {
                cr.Stem = PositionalSlice::new(cr.EntryName.offset, index);
                cr.Extension = PositionalSlice::new(
                    cr.EntryName.offset + index,
                    cr.EntryName.length - index,
                );
                did_split = true;
            }
        }
        if !did_split {
            cr.Stem = cr.EntryName;
            cr.Extension = PositionalSlice::new(cr.EntryName.offset + cr.EntryName.length, 0);
        }
    }
    cr.Location = PositionalSlice::new(0, cr.EntryName.offset);

    (cl, cr)
}

/// Root, directory and entry name are contiguous and exactly partition
/// every non-empty input that was not rejected for an invalid character.
pub proof fn lemma_slices_partition_input(
    s: Seq<char>,
    parse_flags: i32,
    cl: Classification,
    cr: ClassificationResult,
)
    requires
        spec_decomposition(s, parse_flags, cl, cr),
        s.len() > 0,
        cl != Classification::InvalidChars,
    ensures
        cr.Root.length + cr.Directory.length + cr.EntryName.length == cr.Input.length,
        cr.Root.offset == 0,
        cr.Directory.offset == cr.Root.offset + cr.Root.length,
        cr.EntryName.offset == cr.Directory.offset + cr.Directory.length,
{
}

/// Stem and extension exactly partition the entry name whenever the entry
/// name is non-empty, and the stem always starts where the entry name
/// starts.
pub proof fn lemma_stem_extension_partition_entry(
    s: Seq<char>,
    parse_flags: i32,
    cl: Classification,
    cr: ClassificationResult,
)
    requires
        spec_decomposition(s, parse_flags, cl, cr),
        cr.EntryName.length > 0,
    ensures
        cr.Stem.length + cr.Extension.length == cr.EntryName.length,
        cr.Stem.offset == cr.EntryName.offset,
{
}

/// An empty input yields the `Empty` classification and the all-empty
/// record, whatever the flags.
pub proof fn lemma_empty_input(
    s: Seq<char>,
    parse_flags: i32,
    cl: Classification,
    cr: ClassificationResult,
)
    requires
        spec_decomposition(s, parse_flags, cl, cr),
        s.len() == 0,
    ensures
        cl == Classification::Empty,
        cr == ClassificationResult::spec_empty(),
{
}

/// Dots directory parts never outnumber directory parts.
pub proof fn lemma_dots_parts_bounded(
    s: Seq<char>,
    parse_flags: i32,
    cl: Classification,
    cr: ClassificationResult,
)
    requires
        spec_decomposition(s, parse_flags, cl, cr),
    ensures
        cr.NumDotsDirectoryParts <= cr.NumDirectoryParts,
{
    if s.len() > 0 && spec_root_decision(s, parse_flags).1 is None {
        let rl = spec_root_len(spec_root_decision(s, parse_flags).0) as int;
        let stripped = s.subrange(rl, s.len() as int);
        let dl = match spec_last_slash(stripped) {
            Some(i) => i + 1,
            None => 0,
        };
        lemma_count_parts_state_bounds(
            s.subrange(rl, rl + dl),
            |c: char| spec_char_is_path_name_separator(c),
        );
    }
}

/// Resolving the `Input` slice against the original string yields the
/// original string unchanged.
pub proof fn lemma_input_resolves_to_input(
    s: Seq<char>,
    parse_flags: i32,
    cl: Classification,
    cr: ClassificationResult,
)
    requires
        spec_decomposition(s, parse_flags, cl, cr),
    ensures
        cr.Input.spec_resolve(s) == s,
{
    assert(cr.Input.spec_resolve(s) =~= s);
}

} // verus!
