//! Concrete checks of the properties the library states in general form:
//! slice accounting, stem/extension accounting, the empty-input rule, the
//! dots-part bound, resolution of the `Input` slice, and the
//! invalid-character outcome, plus edge cases around roots, separator
//! runs and drive specs.

use libpath::common::ClassificationResult;
use libpath::common::PositionalSlice;

#[test]
fn slice_accounting_is_exhaustive() {
    let unix_paths = ["a", "dir/name.ext", "/dir/sub-dir/file.ext", "~/x", "~", "dir1/../"];
    for path in unix_paths {
        for flags in 0..=7 {
            let (cl, cr) = libpath::unix::path_classify(path, flags);
            assert_ne!(libpath::unix::Classification::InvalidChars, cl);
            assert_eq!(
                cr.Input.length,
                cr.Root.length + cr.Directory.length + cr.EntryName.length,
                "slice accounting failed for '{path}' with flags {flags}"
            );
            assert_eq!(cr.Directory.offset, cr.Root.offset + cr.Root.length);
            assert_eq!(cr.EntryName.offset, cr.Directory.offset + cr.Directory.length);
        }
    }
    let windows_paths = ["a", r"C:\dir\f.ext", "C:x", r"\\server\share", "~/x", r"dir1\dir2\\"];
    for path in windows_paths {
        for flags in 0..=7 {
            let (cl, cr) = libpath::windows::path_classify(path, flags);
            assert_ne!(libpath::windows::Classification::InvalidChars, cl);
            assert_eq!(
                cr.Input.length,
                cr.Root.length + cr.Directory.length + cr.EntryName.length,
                "slice accounting failed for '{path}' with flags {flags}"
            );
            assert_eq!(cr.Directory.offset, cr.Root.offset + cr.Root.length);
            assert_eq!(cr.EntryName.offset, cr.Directory.offset + cr.Directory.length);
        }
    }
}

#[test]
fn stem_and_extension_account_for_entry_name() {
    let unix_paths = ["name.ext", "name", ".ext", "ab.", "a/b.c.d", "..."];
    for path in unix_paths {
        let (_cl, cr) = libpath::unix::path_classify(path, 0);
        assert!(cr.EntryName.length > 0);
        assert_eq!(cr.EntryName.length, cr.Stem.length + cr.Extension.length);
        assert_eq!(cr.EntryName.offset, cr.Stem.offset);
    }
    let windows_paths = ["name.ext", r"C:\a\b.c.d", "C:x.y", "...."];
    for path in windows_paths {
        let (_cl, cr) = libpath::windows::path_classify(path, 0);
        assert!(cr.EntryName.length > 0);
        assert_eq!(cr.EntryName.length, cr.Stem.length + cr.Extension.length);
        assert_eq!(cr.EntryName.offset, cr.Stem.offset);
    }
}

#[test]
fn empty_input_yields_empty_result_whatever_the_flags() {
    for flags in 0..=15 {
        let (cl, cr) = libpath::unix::path_classify("", flags);
        assert_eq!(libpath::unix::Classification::Empty, cl);
        assert_eq!(ClassificationResult::empty(), cr);

        let (cl, cr) = libpath::windows::path_classify("", flags);
        assert_eq!(libpath::windows::Classification::Empty, cl);
        assert_eq!(ClassificationResult::empty(), cr);
    }
}

#[test]
fn dots_parts_never_outnumber_parts() {
    let unix_paths = ["", ".././", "dir1/../", "/../", "a//b//", "dir-1/../././abc/"];
    for path in unix_paths {
        let (_cl, cr) = libpath::unix::path_classify(path, 0);
        assert!(cr.NumDotsDirectoryParts <= cr.NumDirectoryParts, "bound failed for '{path}'");
    }
    let windows_paths = ["", r"..\.\", r"C:\..\x", r"\\..\", r"a\\b\\"];
    for path in windows_paths {
        let (_cl, cr) = libpath::windows::path_classify(path, 0);
        assert!(cr.NumDotsDirectoryParts <= cr.NumDirectoryParts, "bound failed for '{path}'");
    }
}

#[test]
fn input_slice_resolves_to_original_string() {
    let unix_paths = ["", "a", "dir/name.ext", "/dir/", "~", "|bad"];
    for path in unix_paths {
        let (_cl, cr) = libpath::unix::path_classify(path, 0);
        if path.is_empty() {
            assert_eq!("", cr.Input.substring_of(path));
        } else {
            assert_eq!(path, cr.Input.substring_of(path));
        }
    }
    let windows_paths = ["", r"C:\dir\f.ext", r"\\server\share", "~"];
    for path in windows_paths {
        let (_cl, cr) = libpath::windows::path_classify(path, 0);
        if path.is_empty() {
            assert_eq!("", cr.Input.substring_of(path));
        } else {
            assert_eq!(path, cr.Input.substring_of(path));
        }
    }
}

#[test]
fn invalid_character_reports_its_index() {
    {
        let path = "|bad";
        let (cl, cr) = libpath::unix::path_classify(path, 0);
        assert_eq!(libpath::unix::Classification::InvalidChars, cl);
        assert_eq!(PositionalSlice::new(0, 1), cr.FirstInvalid);
        assert_eq!(PositionalSlice::new(0, 4), cr.Input);
        assert_eq!(PositionalSlice::empty(), cr.Root);
        assert_eq!(PositionalSlice::empty(), cr.Directory);
        assert_eq!(PositionalSlice::empty(), cr.EntryName);
    }
    {
        // the Latin-1 supplement range is invalid on the POSIX side
        let path = "a\u{00e9}b";
        let (cl, cr) = libpath::unix::path_classify(path, 0);
        assert_ne!(libpath::unix::Classification::InvalidChars, cl);
        assert!(cr.FirstInvalid.is_empty());

        let path = "\u{00e9}b";
        let (cl, cr) = libpath::unix::path_classify(path, 0);
        assert_eq!(libpath::unix::Classification::InvalidChars, cl);
        assert_eq!(PositionalSlice::new(0, 1), cr.FirstInvalid);
    }
    {
        let path = "|bad";
        let (cl, cr) = libpath::windows::path_classify(path, 0);
        assert_eq!(libpath::windows::Classification::InvalidChars, cl);
        assert_eq!(PositionalSlice::new(0, 1), cr.FirstInvalid);
    }
    {
        // a relative path is scanned to its end on the Windows side
        let path = "ab\u{0001}c";
        let (cl, cr) = libpath::windows::path_classify(path, 0);
        assert_eq!(libpath::windows::Classification::InvalidChars, cl);
        assert_eq!(PositionalSlice::new(2, 1), cr.FirstInvalid);
    }
    {
        let path = "ab\"c";
        let (cl, cr) = libpath::windows::path_classify(path, 0);
        assert_eq!(libpath::windows::Classification::InvalidChars, cl);
        assert_eq!(PositionalSlice::new(2, 1), cr.FirstInvalid);
    }
    {
        // a slash root is decided before any later character is examined
        let path = "/a|b";
        let (cl, cr) = libpath::windows::path_classify(path, 0);
        assert_eq!(libpath::windows::Classification::SlashRooted, cl);
        assert!(cr.FirstInvalid.is_empty());
    }
    {
        let path = "C:a|b";
        let (cl, cr) = libpath::windows::path_classify(path, 0);
        assert_eq!(libpath::windows::Classification::DriveLetterRelative, cl);
        assert!(cr.FirstInvalid.is_empty());
    }
}

#[test]
fn drive_spec_at_end_of_string_is_drive_relative() {
    let (cl, cr) = libpath::windows::path_classify("C:", 0);
    assert_eq!(libpath::windows::Classification::DriveLetterRelative, cl);
    assert_eq!(PositionalSlice::new(0, 2), cr.Root);
    assert_eq!(PositionalSlice::new(2, 0), cr.EntryName);
    assert_eq!("C:", cr.Root.substring_of("C:"));
}

#[test]
fn find_last_slash_prefers_the_rightmost_separator() {
    assert_eq!(None, libpath::unix::find_last_slash_(""));
    assert_eq!(None, libpath::unix::find_last_slash_("abc"));
    assert_eq!(Some(1), libpath::unix::find_last_slash_("a/b"));
    assert_eq!(Some(3), libpath::unix::find_last_slash_("a/b/c"));
    // a backslash is not a separator on the POSIX side
    assert_eq!(Some(1), libpath::unix::find_last_slash_("a/b\\c"));

    assert_eq!(None, libpath::windows::find_last_slash_(""));
    assert_eq!(None, libpath::windows::find_last_slash_("abc"));
    assert_eq!(Some(3), libpath::windows::find_last_slash_("a/b\\c"));
    assert_eq!(Some(3), libpath::windows::find_last_slash_("a\\b/c"));
    assert_eq!(Some(4), libpath::windows::find_last_slash_("a\\b/\\c"));
}

#[test]
fn drive_spec_helpers_examine_the_first_two_characters() {
    assert!(libpath::windows::str_begins_with_drive_spec_("C:"));
    assert!(libpath::windows::str_begins_with_drive_spec_("c:dir"));
    assert!(!libpath::windows::str_begins_with_drive_spec_(""));
    assert!(!libpath::windows::str_begins_with_drive_spec_("C"));
    assert!(!libpath::windows::str_begins_with_drive_spec_("1:dir"));
    assert!(!libpath::windows::str_begins_with_drive_spec_("Cdir"));

    assert!(libpath::windows::str_is_drive_spec_("C:"));
    assert!(libpath::windows::str_is_drive_spec_("z:"));
    assert!(!libpath::windows::str_is_drive_spec_("C:d"));
    assert!(!libpath::windows::str_is_drive_spec_("C"));
    assert!(!libpath::windows::str_is_drive_spec_(":"));
}

#[test]
fn unc_split_drive_splits_the_final_token_too() {
    // the split applies wherever a non-separator token longer than two
    // characters begins with a drive spec, the token that ends the string
    // included
    assert_eq!(vec!["C:", "abc"], libpath::windows::unc_split_("C:abc", 0));
    assert_eq!(vec!["C:"], libpath::windows::unc_split_("C:", 0));
    assert_eq!(
        vec![r"\", "dir", r"\", "C:", "abc"],
        libpath::windows::unc_split_(r"\dir\C:abc", 0)
    );
    assert_eq!(
        vec!["C:", "dir", r"\", "C:", "abc"],
        libpath::windows::unc_split_(r"C:dir\C:abc", 0)
    );
}

#[test]
fn separator_runs_collapse_to_one_boundary() {
    let (number_of_parts, number_of_dots_parts) = libpath::unix::count_parts_("a//b//", 0);
    assert_eq!(2, number_of_parts);
    assert_eq!(0, number_of_dots_parts);

    let (number_of_parts, number_of_dots_parts) = libpath::unix::count_parts_("..//..//", 0);
    assert_eq!(2, number_of_parts);
    assert_eq!(2, number_of_dots_parts);

    // three or more dots do not make a dots directory
    let (number_of_parts, number_of_dots_parts) = libpath::unix::count_parts_(".../", 0);
    assert_eq!(1, number_of_parts);
    assert_eq!(0, number_of_dots_parts);

    let (number_of_parts, number_of_dots_parts) = libpath::windows::count_parts_("a\\/b/\\", 0);
    assert_eq!(2, number_of_parts);
    assert_eq!(0, number_of_dots_parts);
}

#[test]
fn tilde_not_before_a_separator_stays_literal() {
    let flags = libpath::unix::classification_flags::RECOGNISE_TILDE_HOME;
    let (cl, cr) = libpath::unix::path_classify("~ab", flags);
    assert_eq!(libpath::unix::Classification::Relative, cl);
    assert_eq!(PositionalSlice::empty(), cr.Root);
    assert_eq!("~ab", cr.EntryName.substring_of("~ab"));

    let flags = libpath::windows::classification_flags::RECOGNISE_TILDE_HOME;
    let (cl, cr) = libpath::windows::path_classify("~ab", flags);
    assert_eq!(libpath::windows::Classification::Relative, cl);
    assert_eq!(PositionalSlice::empty(), cr.Root);
    assert_eq!("~ab", cr.EntryName.substring_of("~ab"));

    let (cl, cr) = libpath::windows::path_classify(r"~\x", flags);
    assert_eq!(libpath::windows::Classification::HomeRooted, cl);
    assert_eq!(PositionalSlice::new(0, 1), cr.Root);
}
