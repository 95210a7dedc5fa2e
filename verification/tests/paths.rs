use filecloud::map_store::sanitized_folder_name;
use filecloud::paths::{file_name, file_stem, has_extension, join, same_text};
use std::path::Path;

const PATHS: [&str; 28] = [
    "", ".", "..", "/", "//", "a", "a/", "a//", "a/b", "/a", "/a/b.txt", "a/.", "a/..", "a/./b",
    "./temp/x.config", ".hidden", ".hidden.txt", "a.tar.gz", "x.", "..x", "...", "a/../b",
    "./", "a/b/./.", "śćieżka/plik.txt", "a b/c d.e", "config", ".config",
];

#[test]
fn names_agree_with_std() {
    for p in PATHS {
        let expected = Path::new(p).file_name().map(|n| n.to_str().unwrap().to_string());
        assert_eq!(file_name(p), expected, "{p:?}");
    }
}

#[test]
fn stems_agree_with_std() {
    for p in PATHS {
        let expected = Path::new(p).file_stem().map(|n| n.to_str().unwrap().to_string());
        assert_eq!(file_stem(p), expected, "{p:?}");
    }
}

#[test]
fn extensions_agree_with_std() {
    for p in PATHS {
        for ext in ["config", "txt", "gz", "", "tar.gz"] {
            let expected = Path::new(p).extension().map_or(false, |e| e == ext);
            assert_eq!(has_extension(p, ext), expected, "{p:?} {ext:?}");
        }
    }
}

#[test]
fn joins_agree_with_std() {
    for p in PATHS {
        for q in PATHS {
            let expected = Path::new(p).join(q);
            assert_eq!(join(p, q), expected.to_str().unwrap(), "{p:?} {q:?}");
        }
    }
}

#[test]
fn names_lie_directly_inside() {
    for p in PATHS {
        if let Some(name) = file_name(p) {
            for base in ["", "/", "a", "a/", "./storage/two"] {
                let path = join(base, &name);
                assert_eq!(file_name(&path), Some(name.clone()));
                assert!(path.starts_with(base) && path.ends_with(&name));
                assert!(path.len() <= base.len() + 1 + name.len());
            }
        }
    }
}

#[test]
fn text_is_compared_as_it_is() {
    assert!(same_text("", ""));
    assert!(same_text("zażółć", "zażółć"));
    assert!(!same_text("a", "A"));
    assert!(!same_text("a", "ab"));
}

#[test]
fn folder_names_are_one_step() {
    assert_eq!(sanitized_folder_name("a/b/c"), Ok("c".to_string()));
    assert_eq!(sanitized_folder_name("../../etc"), Ok("etc".to_string()));
    assert_eq!(sanitized_folder_name(".."), Err("invalid folder name".to_string()));
    assert_eq!(sanitized_folder_name(""), Err("invalid folder name".to_string()));
    assert_eq!(sanitized_folder_name("/"), Err("invalid folder name".to_string()));
}
