//! Versions told by file names.

use module_list::so_version::SoVersion;

#[test]
fn test_elf_file_so_version() {
    let test_cases = [
        ("/usr/lib/x86_64-linux-gnu/libstdc++.so.6.0.32", (6, 0, 32, 0)),
        ("/usr/lib/x86_64-linux-gnu/libcairo-gobject.so.2.11800.0", (2, 11800, 0, 0)),
        ("/usr/lib/x86_64-linux-gnu/libm.so.6", (6, 0, 0, 0)),
        ("/usr/lib/x86_64-linux-gnu/libpthread.so.0", (0, 0, 0, 0)),
        ("/usr/lib/x86_64-linux-gnu/libgmodule-2.0.so.0.7800.0", (0, 7800, 0, 0)),
        ("/usr/lib/x86_64-linux-gnu/libabsl_time_zone.so.20220623.0.0", (20220623, 0, 0, 0)),
        ("/usr/lib/x86_64-linux-gnu/libdbus-1.so.3.34.2rc5", (3, 34, 2, 5)),
        ("/usr/lib/x86_64-linux-gnu/libdbus-1.so.3.34.2rc", (3, 34, 2, 0)),
        ("/usr/lib/x86_64-linux-gnu/libdbus-1.so.3.34.rc5", (3, 34, 0, 5)),
        ("/usr/lib/x86_64-linux-gnu/libtoto.so.AAA", (0, 0, 0, 0)),
        ("/usr/lib/x86_64-linux-gnu/libsemver-1.so.1.2.alpha.1", (1, 2, 0, 1)),
        ("/usr/lib/x86_64-linux-gnu/libboop.so.1.2.3.4.5", (1, 2, 3, 4)),
        ("/usr/lib/x86_64-linux-gnu/libboop.so.1.2.3pre4.5", (1, 2, 3, 4)),
    ];

    assert!(SoVersion::parse(b"/home/alex/bin/firefox/libmozsandbox.so").is_none());

    for (path, expected) in test_cases {
        let actual = SoVersion::parse(path.as_bytes()).unwrap();
        assert_eq!((actual.major, actual.minor, actual.patch, actual.prerelease), expected);
    }
}

fn version(name: &str) -> Option<(u32, u32, u32, u32)> {
    SoVersion::from_file_name(name)
        .map(|found| (found.major, found.minor, found.patch, found.prerelease))
}

#[test]
fn names_without_the_marker_tell_no_version() {
    assert_eq!(version(""), None);
    assert_eq!(version(".so"), None);
    assert_eq!(version("libm.so"), None);
    assert_eq!(version("libm.so-6"), None);
    assert_eq!(version("libm.dll.6"), None);
    assert_eq!(version(".so."), Some((0, 0, 0, 0)));
}

#[test]
fn the_first_marker_counts() {
    assert_eq!(version("lib.so.1.so.2"), Some((1, 0, 2, 0)));
    assert_eq!(version("a..so.7"), Some((7, 0, 0, 0)));
    assert_eq!(version("a.s.so.so.7"), Some((0, 7, 0, 0)));
}

#[test]
fn numbers_that_are_none_count_as_zero() {
    assert_eq!(version("x.so.x.y"), Some((0, 0, 0, 0)));
    assert_eq!(version("x.so..3"), Some((0, 3, 0, 0)));
    assert_eq!(version("x.so.4294967295.4294967296"), Some((u32::MAX, 0, 0, 0)));
    assert_eq!(version("x.so.1.2.4294967296.5"), Some((1, 2, 0, 5)));
    assert_eq!(version("x.so.1.2.3.4294967296"), Some((1, 2, 3, 0)));
    assert_eq!(version("x.so.-1.2"), Some((0, 2, 0, 0)));
    assert_eq!(version("x.so.00012"), Some((12, 0, 0, 0)));
}

#[test]
fn a_plus_sign_may_lead_the_first_two_numbers() {
    assert_eq!(version("x.so.+1.+2"), Some((1, 2, 0, 0)));
    assert_eq!(version("x.so.+.++2"), Some((0, 0, 0, 0)));
    assert_eq!(version("x.so.1.2.+3"), Some((1, 2, 0, 3)));
}

#[test]
fn the_prerelease_is_what_the_patch_ends_in() {
    assert_eq!(version("x.so.1.2.3rc4.5"), Some((1, 2, 3, 4)));
    assert_eq!(version("x.so.1.2.3rc.5"), Some((1, 2, 3, 5)));
    assert_eq!(version("x.so.1.2.3rc.5b6"), Some((1, 2, 3, 5)));
    assert_eq!(version("x.so.1.2.3rc.b6"), Some((1, 2, 3, 0)));
    assert_eq!(version("x.so.1.2.3rc4294967296.7"), Some((1, 2, 3, 7)));
    assert_eq!(version("x.so.1.2..7"), Some((1, 2, 0, 7)));
    assert_eq!(version("x.so.1.2.3a4b5"), Some((1, 2, 3, 5)));
    assert_eq!(version("x.so.1.2.3\u{e9}5"), Some((1, 2, 3, 5)));
}

#[test]
fn components_behind_the_fourth_do_not_count() {
    assert_eq!(version("x.so.1.2.3.4"), version("x.so.1.2.3.4.5.6"));
}

#[test]
fn only_the_file_name_of_a_path_counts() {
    assert_eq!(SoVersion::parse(b"/lib.so.1/libx"), None);
    assert_eq!(SoVersion::parse(b"/"), None);
    assert_eq!(SoVersion::parse(b""), None);
    assert_eq!(SoVersion::parse(b"/lib.so.1/.."), None);
    let found = SoVersion::parse(b"/dir/libx.so.3.1/./").unwrap();
    assert_eq!((found.major, found.minor), (3, 1));
}

#[test]
fn bytes_that_are_no_text_do_not_hide_the_version() {
    let found = SoVersion::parse(b"/dir/lib\xff\xfe.so.3.1.2\xff7").unwrap();
    assert_eq!((found.major, found.minor, found.patch, found.prerelease), (3, 1, 2, 7));
}

#[test]
fn plain_numbers_stand_for_themselves_however_many_there_are() {
    assert_eq!(version("x.so.7"), Some((7, 0, 0, 0)));
    assert_eq!(version("x.so.7.8"), Some((7, 8, 0, 0)));
    assert_eq!(version("x.so.7.8.9"), Some((7, 8, 9, 0)));
    assert_eq!(version("x.so.7.8.9.10"), Some((7, 8, 9, 10)));
    assert_eq!(version("x.so.7.8.9.10.rc11.x"), Some((7, 8, 9, 10)));
}
