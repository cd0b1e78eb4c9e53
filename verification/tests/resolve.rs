//! Turning candidates into the entries of the module list.

use module_list::error::ModuleResolveError;
use module_list::mapping::{loaded_at, MappingEntry, MappingInfo};
use module_list::module::{
    from_mappings, from_user_mappings, ModuleCandidate, ModuleInfo, ModuleSource,
};
use module_list::resolve::{can_resolve, clamp_overlapping_modules, resolve};

fn detected(name: &str, base_address: usize, end_address: usize) -> ModuleCandidate {
    ModuleCandidate {
        base_address,
        end_address,
        code_end: base_address,
        name: Some(name.as_bytes().to_vec()),
        file_offset: 0,
        source: ModuleSource::Process,
    }
}

fn with_code(mut candidate: ModuleCandidate, code_end: usize) -> ModuleCandidate {
    candidate.code_end = code_end;
    candidate
}

fn supplied(name: &str, base_address: usize, end_address: usize) -> ModuleCandidate {
    let mut candidate = detected(name, base_address, end_address);
    candidate.code_end = end_address;
    candidate.source = ModuleSource::User { identifier: name.as_bytes().to_vec() };
    candidate
}

fn names(modules: &[ModuleInfo]) -> Vec<String> {
    modules
        .iter()
        .map(|module| String::from_utf8(module.name.clone().unwrap_or_default()).unwrap())
        .collect()
}

fn extents(modules: &[ModuleInfo]) -> Vec<(usize, usize)> {
    modules.iter().map(|module| (module.base_address, module.size)).collect()
}

fn mapping(start_address: usize, size: usize) -> MappingInfo {
    MappingInfo {
        start_address,
        size,
        offset: 0x10,
        name: Some(b"/lib/a.so".to_vec()),
        executable: true,
        path_named: true,
        interesting: true,
        load_base: None,
    }
}

#[test]
fn each_resolved_entry_contains_only_its_own_start() {
    let candidates = vec![
        detected("program", 0x1000, 0x4000),
        detected("linker", 0x5000, 0x9000),
        detected("vdso", 0x6000, 0x7000),
        detected("library", 0x6800, 0xa000),
        supplied("user", 0x9800, 0xb000),
    ];
    let modules = resolve(candidates, None, &mut Vec::new());
    assert_eq!(names(&modules), ["program", "linker", "vdso", "library", "user"]);

    for module in &modules {
        let found: Vec<usize> = modules
            .iter()
            .filter(|other| {
                (other.base_address..other.base_address + other.size).contains(&module.base_address)
            })
            .map(|other| other.base_address)
            .collect();
        assert_eq!(found, [module.base_address]);
    }
    assert_eq!(
        extents(&modules),
        [
            (0x1000, 0x3000),
            (0x5000, 0x1000),
            (0x6000, 0x800),
            (0x6800, 0x3000),
            (0x9800, 0x1800),
        ]
    );
}

#[test]
fn the_module_with_the_entry_point_comes_first() {
    let list = || {
        vec![detected("a", 0x1000, 0x2000), detected("b", 0x3000, 0x4000), detected("c", 0x5000, 0x6000)]
    };
    let order = |entry_point| names(&resolve(list(), entry_point, &mut Vec::new()));
    assert_eq!(order(None), ["a", "b", "c"]);
    assert_eq!(order(Some(0x1000)), ["a", "b", "c"]);
    assert_eq!(order(Some(0x3fff)), ["b", "a", "c"]);
    assert_eq!(order(Some(0x4000)), ["a", "b", "c"]);
    assert_eq!(order(Some(0x5800)), ["c", "b", "a"]);
}

#[test]
fn the_entry_point_is_looked_for_before_clamping() {
    let candidates = vec![
        detected("a", 0x8000, 0x9000),
        detected("wide", 0x1000, 0x4000),
        detected("inner", 0x2000, 0x4000),
    ];
    let modules = resolve(candidates, Some(0x3000), &mut Vec::new());
    assert_eq!(names(&modules), ["wide", "a", "inner"]);
    assert_eq!(modules[0].size, 0x1000);
}

#[test]
fn user_modules_override_what_starts_within_them() {
    let candidates = vec![
        detected("before", 0x1000, 0x3000),
        supplied("user", 0x2000, 0x4000),
        detected("within", 0x3000, 0x5000),
        detected("at", 0x2000, 0x2800),
        detected("behind", 0x4000, 0x5000),
    ];
    let mut errors = Vec::new();
    let modules = resolve(candidates, None, &mut errors);
    assert_eq!(names(&modules), ["before", "behind", "user"]);
    assert_eq!(extents(&modules), [(0x1000, 0x1000), (0x4000, 0x1000), (0x2000, 0x2000)]);
    assert!(matches!(&modules[2].source, ModuleSource::User { identifier } if identifier == b"user"));
    assert!(modules[2].executable);
    assert!(errors.is_empty());
}

#[test]
fn user_modules_keep_their_order_and_do_not_come_first() {
    let candidates = vec![
        supplied("second", 0x8000, 0x9000),
        supplied("first", 0x6000, 0x7000),
        detected("program", 0x1000, 0x2000),
    ];
    let modules = resolve(candidates, Some(0x8800), &mut Vec::new());
    assert_eq!(names(&modules), ["program", "second", "first"]);
}

#[test]
fn duplicate_user_modules_are_reported_and_kept() {
    let mut nameless = supplied("", 0x1000, 0x2000);
    nameless.name = None;
    let candidates = vec![
        supplied("a", 0x1000, 0x2000),
        supplied("b", 0x1000, 0x3000),
        nameless,
        supplied("c", 0x5000, 0x6000),
    ];
    let mut errors = Vec::new();
    let modules = resolve(candidates, None, &mut errors);
    assert_eq!(modules.len(), 4);
    assert_eq!(
        errors,
        [
            ModuleResolveError::DuplicateUserModule { name: b"b".to_vec(), base_address: 0x1000 },
            ModuleResolveError::DuplicateUserModule { name: Vec::new(), base_address: 0x1000 },
        ]
    );
}

#[test]
fn lost_code_is_reported() {
    let candidates = vec![
        with_code(detected("cut", 0x1000, 0x5000), 0x4000),
        with_code(detected("safe", 0x2000, 0x5000), 0x3000),
        detected("last", 0x3000, 0x4000),
    ];
    let mut errors = Vec::new();
    let modules = resolve(candidates, None, &mut errors);
    assert_eq!(extents(&modules), [(0x1000, 0x1000), (0x2000, 0x1000), (0x3000, 0x1000)]);
    assert_eq!(
        errors,
        [ModuleResolveError::ModuleImageClamped {
            name: b"cut".to_vec(),
            base_address: 0x1000,
            code_end: 0x4000,
            clamped_to: 0x2000,
        }]
    );
    assert!(modules[0].executable && modules[1].executable && !modules[2].executable);
}

#[test]
fn reports_come_behind_earlier_ones_and_duplicates_first() {
    let candidates = vec![
        with_code(detected("cut", 0x1000, 0x5000), 0x5000),
        supplied("a", 0x2000, 0x3000),
        supplied("b", 0x2000, 0x3000),
    ];
    let earlier =
        ModuleResolveError::DuplicateUserModule { name: b"x".to_vec(), base_address: 1 };
    let mut errors = vec![earlier];
    resolve(candidates, None, &mut errors);
    assert_eq!(errors.len(), 3);
    assert!(matches!(&errors[0], ModuleResolveError::DuplicateUserModule { base_address: 1, .. }));
    assert!(matches!(&errors[1], ModuleResolveError::DuplicateUserModule { name, .. } if name == b"b"));
    assert!(matches!(&errors[2], ModuleResolveError::ModuleImageClamped { clamped_to: 0x2000, .. }));
}

#[test]
fn clamping_twice_changes_nothing_more() {
    let mut candidates = vec![
        with_code(detected("a", 0x1000, 0x9000), 0x9000),
        with_code(detected("b", 0x4000, 0x9000), 0x5000),
        with_code(detected("c", 0x4000, 0x6000), 0x6000),
        with_code(detected("d", 0x2000, 0x4000), 0x4000),
    ];
    let mut errors = Vec::new();
    clamp_overlapping_modules(&mut candidates, &mut errors);
    let ends = |list: &[ModuleCandidate]| list.iter().map(|c| c.end_address).collect::<Vec<_>>();
    assert_eq!(ends(&candidates), [0x2000, 0x9000, 0x6000, 0x4000]);
    assert_eq!(errors.len(), 1);
    clamp_overlapping_modules(&mut candidates, &mut errors);
    assert_eq!(ends(&candidates), [0x2000, 0x9000, 0x6000, 0x4000]);
    assert_eq!(errors.len(), 1);
}

#[test]
fn an_empty_list_resolves_to_itself() {
    let mut errors = Vec::new();
    assert!(resolve(Vec::new(), Some(1), &mut errors).is_empty());
    assert!(errors.is_empty());
}

#[test]
fn modules_that_end_before_they_start_cannot_be_resolved() {
    assert!(can_resolve(&vec![]));
    assert!(can_resolve(&vec![detected("a", 1, 1), supplied("b", 2, 2)]));
    assert!(!can_resolve(&vec![detected("a", 2, 1)]));
    assert!(!can_resolve(&vec![supplied("a", 2, 1)]));
    let overridden = vec![detected("a", 2, 1), supplied("b", 1, 3)];
    assert!(can_resolve(&overridden));
    assert_eq!(names(&resolve(overridden, None, &mut Vec::new())), ["b"]);
}

#[test]
fn module_list_from_proc_maps() {
    let file = |name: &str, start_address: usize, size: usize| {
        let mut found = mapping(start_address, size);
        found.name = Some(name.as_bytes().to_vec());
        found
    };
    let mut stack = file("[stack]", 0x7000_0000, 0x1000);
    stack.interesting = false;
    let mut data = file("/lib/libc-data.so", 0x50_0000, 0x1000);
    data.executable = false;
    let mappings = [
        file("/lib/libc.so.6", 0x40_0000, 0x10_0000),
        file("/target/debug/test", 0x1_0000, 0x2000),
        stack,
        data,
    ];
    let modules = resolve(from_mappings(&mappings), Some(0x1_0500), &mut Vec::new());
    let found = names(&modules);
    assert!(!found.is_empty(), "empty module list");
    assert!(found[0].contains("test"));
    assert!(found.iter().any(|name| name.contains("libc")));
    assert_eq!(found, ["/target/debug/test", "/lib/libc.so.6", "/lib/libc-data.so"]);
    assert_eq!(
        modules.iter().map(|module| module.executable).collect::<Vec<_>>(),
        [true, true, false]
    );
    assert!(modules.iter().all(|module| module.file_offset == 0x10));
}

#[test]
fn objects_are_loaded_where_their_headers_say() {
    let mut found = mapping(0x5000, 0x1000);
    assert_eq!(loaded_at(&found), 0x5000);
    found.load_base = Some(0x3000);
    assert_eq!(loaded_at(&found), 0x3000);
    let candidates = from_mappings(&[found]);
    assert_eq!(
        (candidates[0].base_address, candidates[0].end_address, candidates[0].code_end),
        (0x3000, 0x6000, 0x6000)
    );

    let mut data = mapping(0x5000, 0x1000);
    data.load_base = Some(0x3000);
    data.executable = false;
    assert_eq!(loaded_at(&data), 0x5000);
    let candidates = from_mappings(&[data]);
    assert_eq!(candidates[0].code_end, candidates[0].base_address);

    let mut label = mapping(0x5000, 0x1000);
    label.load_base = Some(0x3000);
    label.path_named = false;
    assert!(!label.is_library_candidate());
    assert_eq!(loaded_at(&label), 0x5000);
}

#[test]
fn user_mappings_are_taken_at_face_value() {
    let entries = [
        MappingEntry { mapping: mapping(0x5000, 0x1000), identifier: vec![1, 2, 3] },
        MappingEntry { mapping: mapping(0x1000, 0), identifier: Vec::new() },
    ];
    let candidates = from_user_mappings(&entries);
    assert_eq!(candidates.len(), 2);
    let first = &candidates[0];
    assert_eq!((first.base_address, first.end_address, first.code_end), (0x5000, 0x6000, 0x6000));
    assert_eq!(first.name.as_deref(), Some(&b"/lib/a.so"[..]));
    assert_eq!(first.file_offset, 0x10);
    assert!(matches!(&first.source, ModuleSource::User { identifier } if identifier == &[1, 2, 3]));
    assert!(first.source.is_user());
    let modules = resolve(candidates, None, &mut Vec::new());
    assert!(modules[0].executable && !modules[1].executable);
    assert!(!ModuleSource::Process.is_user());
}

#[test]
fn only_user_modules_shorten_user_modules() {
    let users = || vec![supplied("a", 0x2000, 0x6000), supplied("b", 0x5000, 0x7000)];
    let alone = resolve(users(), None, &mut Vec::new());
    assert_eq!(extents(&alone), [(0x2000, 0x3000), (0x5000, 0x2000)]);

    let mut candidates = vec![
        detected("before", 0x1000, 0x9000),
        detected("within", 0x3000, 0x4000),
        detected("behind", 0x7000, 0x8000),
    ];
    candidates.extend(users());
    let modules = resolve(candidates, Some(0x7000), &mut Vec::new());
    assert_eq!(names(&modules), ["before", "behind", "a", "b"]);
    assert_eq!(extents(&modules[2..]), extents(&alone));
}
