//! What modules are called in the minidump.

use module_list::error::{ModuleListError, ModuleReaderError};
use module_list::mapping::MappingInfo;
use module_list::module::{from_mappings, ModuleInfo, ModuleSource};
use module_list::resolve::resolve;

fn module(name: Option<&[u8]>, file_offset: usize, executable: bool) -> ModuleInfo {
    ModuleInfo {
        base_address: 0x1000,
        size: 0x1000,
        name: name.map(<[u8]>::to_vec),
        file_offset,
        executable,
        source: ModuleSource::Process,
    }
}

fn unreadable() -> ModuleReaderError {
    ModuleReaderError::Unreadable { reason: "no such file".to_string() }
}

#[test]
fn test_get_module_effective_name() {
    let path = "/home/martin/Documents/mozilla/devel/mozilla-central/obj/widget/gtk/mozgtk/gtk3/libmozgtk.so";
    let mappings = [MappingInfo {
        start_address: 0x7f0b97b6f000,
        size: 0x7f0b97b74000 - 0x7f0b97b6f000,
        offset: 0,
        name: Some(path.as_bytes().to_vec()),
        executable: true,
        path_named: true,
        interesting: true,
        load_base: None,
    }];
    assert_eq!(mappings.len(), 1);
    let modules = resolve(from_mappings(&mappings), None, &mut Vec::new());

    // The path doesn't exist, so the SONAME read fails and we fall back to
    // the filesystem name -- which is the behaviour under test.
    let mut soft_errors = Vec::new();
    assert!(modules[0].reads_so_name(&None));
    let (file_path, file_name, _version) =
        modules[0].effective_path_name_and_version(None, Some(Err(unreadable())), &mut soft_errors);
    assert!(!soft_errors.is_empty());
    assert_eq!(file_name, "libmozgtk.so");
    assert_eq!(file_path, path.as_bytes());
}

#[test]
fn a_so_name_replaces_the_file_name() {
    let found = module(Some(b"/usr/lib/libm-2.31.so.6.1"), 0, true);
    let mut errors = Vec::new();
    let (path, name, version) = found.effective_path_name_and_version(
        None,
        Some(Ok("libm.so.6".to_string())),
        &mut errors,
    );
    assert_eq!(path, b"/usr/lib/libm.so.6");
    assert_eq!(name, "libm.so.6");
    let version = version.unwrap();
    assert_eq!((version.major, version.minor), (6, 1));
    assert!(errors.is_empty());
}

#[test]
fn a_so_name_goes_behind_an_archive() {
    let found = module(Some(b"/data/app/ARCHIVE.APK"), 0x4000, true);
    let (path, name, version) = found.effective_path_name_and_version(
        None,
        Some(Ok("libname.so".to_string())),
        &mut Vec::new(),
    );
    assert_eq!(path, b"/data/app/ARCHIVE.APK/libname.so");
    assert_eq!(name, "libname.so");
    assert_eq!(version, None);

    let data = module(Some(b"/data/app/ARCHIVE.APK"), 0x4000, false);
    let (path, _, _) = data.effective_path_name_and_version(
        None,
        Some(Ok("libname.so".to_string())),
        &mut Vec::new(),
    );
    assert_eq!(path, b"/data/app/libname.so");
}

#[test]
fn a_supplied_so_name_goes_before_the_file() {
    let found = module(Some(b"/usr/lib/libold.so"), 0, true);
    assert!(!found.reads_so_name(&Some("libnew.so".to_string())));
    let mut errors = Vec::new();
    let (path, name, _) =
        found.effective_path_name_and_version(Some("libnew.so".to_string()), None, &mut errors);
    assert_eq!(path, b"/usr/lib/libnew.so");
    assert_eq!(name, "libnew.so");
    let (path, _, _) = found.effective_path_name_and_version(
        Some("libnew.so".to_string()),
        Some(Err(unreadable())),
        &mut errors,
    );
    assert_eq!(path, b"/usr/lib/libnew.so");
    assert!(errors.is_empty());
}

#[test]
fn a_user_module_goes_by_its_file_name() {
    let mut found = module(Some(b"/usr/lib/libuser.so.2"), 0, true);
    found.source = ModuleSource::User { identifier: vec![1, 2] };
    assert!(!found.reads_so_name(&None));
    let mut errors = Vec::new();
    let (path, name, version) = found.effective_path_name_and_version(None, None, &mut errors);
    assert_eq!(path, b"/usr/lib/libuser.so.2");
    assert_eq!(name, "libuser.so.2");
    assert_eq!(version.unwrap().major, 2);
    assert!(errors.is_empty());
}

#[test]
fn a_module_without_a_so_name_is_no_error() {
    let found = module(Some(b"/usr/bin/cat"), 0, true);
    let mut errors = Vec::new();
    let (path, name, version) = found.effective_path_name_and_version(
        None,
        Some(Err(ModuleReaderError::NoSoName)),
        &mut errors,
    );
    assert_eq!((path.as_slice(), name.as_str(), version), (&b"/usr/bin/cat"[..], "cat", None));
    assert!(errors.is_empty());
}

#[test]
fn an_unreadable_module_is_reported() {
    let found = module(Some(b"/usr/bin/cat"), 0, true);
    let mut errors = vec![ModuleListError::ReadSoNameFromFileFailed(ModuleReaderError::NoSoName)];
    let (_, name, _) =
        found.effective_path_name_and_version(None, Some(Err(unreadable())), &mut errors);
    assert_eq!(name, "cat");
    assert_eq!(errors.len(), 2);
    assert_eq!(errors[1], ModuleListError::ReadSoNameFromFileFailed(unreadable()));
    assert_eq!(
        ModuleInfo::so_name(Err(unreadable())),
        Err(ModuleListError::ReadSoNameFromFileFailed(unreadable()))
    );
    assert_eq!(ModuleInfo::so_name(Err(ModuleReaderError::NoSoName)), Ok(None));
    assert_eq!(ModuleInfo::so_name(Ok("a".to_string())), Ok(Some("a".to_string())));
}

#[test]
fn a_module_without_a_name_stays_nameless() {
    let found = module(None, 0, true);
    let none = Some(Err(ModuleReaderError::NoSoName));
    let (path, name, version) = found.effective_path_name_and_version(None, none, &mut Vec::new());
    assert_eq!((path.as_slice(), name.as_str(), version), (&b""[..], "", None));
    let (path, name, _) = found.effective_path_name_and_version(
        None,
        Some(Ok("linux-gate.so".to_string())),
        &mut Vec::new(),
    );
    assert_eq!((path.as_slice(), name.as_str()), (&b"linux-gate.so"[..], "linux-gate.so"));
}

#[test]
fn names_that_are_no_text_are_decoded_with_replacements() {
    let found = module(Some(b"/lib/lib\xff.so"), 0, true);
    let none = Some(Err(ModuleReaderError::NoSoName));
    let (path, name, _) = found.effective_path_name_and_version(None, none, &mut Vec::new());
    assert_eq!(path, b"/lib/lib\xff.so");
    assert_eq!(name, "lib\u{fffd}.so");

    let accented = module(Some("/lib/libé.so".as_bytes()), 0, true);
    let none = Some(Err(ModuleReaderError::NoSoName));
    let (_, name, _) = accented.effective_path_name_and_version(None, none, &mut Vec::new());
    assert_eq!(name, "libé.so");
}

#[test]
fn the_version_is_that_of_the_file_name_whatever_the_so_name() {
    let found = module(Some(b"/lib/libx.so.1.2.3rc4"), 0, true);
    let version = found.so_version().unwrap();
    assert_eq!((version.major, version.minor, version.patch, version.prerelease), (1, 2, 3, 4));
    let (_, _, written) = found.effective_path_name_and_version(
        Some("liby.so.9".to_string()),
        None,
        &mut Vec::new(),
    );
    assert_eq!(written, Some(version));
}
