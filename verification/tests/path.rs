//! Paths as bytes, against the paths of the standard library.

use module_list::path::{file_name, push, set_file_name};
use std::path::{Path, PathBuf};

/// Every text of up to six of the three characters that matter.
fn texts() -> Vec<String> {
    let mut all = vec![String::new()];
    let mut last = all.clone();
    for _ in 0..6 {
        let mut longer = Vec::new();
        for text in &last {
            for c in ['/', '.', 'a'] {
                longer.push(format!("{text}{c}"));
            }
        }
        all.extend(longer.iter().cloned());
        last = longer;
    }
    all
}

#[test]
fn file_names_are_those_of_the_standard_library() {
    for text in texts() {
        let expected = Path::new(&text).file_name().map(|name| name.to_str().unwrap().as_bytes());
        let found = file_name(text.as_bytes());
        assert_eq!(found.as_deref(), expected, "{text:?}");
    }
}

#[test]
fn pushed_components_are_those_of_the_standard_library() {
    for text in texts() {
        for component in ["b", "", ".", "..", "/b", "b/c", "b/"] {
            let mut expected = PathBuf::from(&text);
            expected.push(component);
            let mut found = text.clone().into_bytes();
            push(&mut found, component.as_bytes());
            assert_eq!(found, expected.to_str().unwrap().as_bytes(), "{text:?} {component:?}");
        }
    }
}

#[test]
fn changed_file_names_are_those_of_the_standard_library() {
    for text in texts() {
        for name in ["b", "", ".", "..", "/b", "b/c", "b/"] {
            let mut expected = PathBuf::from(&text);
            expected.set_file_name(name);
            let mut found = text.clone().into_bytes();
            set_file_name(&mut found, name.as_bytes());
            assert_eq!(found, expected.to_str().unwrap().as_bytes(), "{text:?} {name:?}");
        }
    }
}

#[test]
fn a_changed_file_name_leaves_the_directory() {
    let mut path = b"/usr/lib/libm-2.31.so".to_vec();
    set_file_name(&mut path, b"libm.so.6");
    assert_eq!(path, b"/usr/lib/libm.so.6");
    assert_eq!(file_name(&path), Some(b"libm.so.6".to_vec()));
}
