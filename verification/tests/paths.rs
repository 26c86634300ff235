use blobservices::paths::{push_relative, sanitize_address, sanitize_path};
use std::path::{Component, Path, PathBuf};

/// The same rules read off `std::path::Path::components`.
fn reference_sanitize_address(address: &str) -> Option<String> {
    let mut out = PathBuf::new();
    for component in Path::new(address).components() {
        match component {
            Component::CurDir => return None,
            Component::Normal(c) => out.push(c),
            Component::Prefix(_) | Component::RootDir | Component::ParentDir => return None,
        }
    }
    out.to_str().map(|x| x.to_string())
}

fn reference_sanitize_path(base: &str, path: &str) -> String {
    let mut out = PathBuf::from(base);
    for component in Path::new(path).components() {
        if let Component::Normal(c) = component {
            out.push(c);
        }
    }
    out.to_str().unwrap().to_string()
}

fn generated_paths() -> Vec<String> {
    let pieces = ["", "a", "bc", ".", "..", "/", "//", ".x", "x.", "..."];
    let mut out = Vec::new();
    for a in pieces.iter() {
        for b in pieces.iter() {
            for c in pieces.iter() {
                for d in pieces.iter() {
                    out.push(format!("{}{}{}{}", a, b, c, d));
                }
            }
        }
    }
    out
}

#[test]
fn keeps_plain_relative_addresses() {
    assert_eq!(sanitize_address("ab/cd/abcdef.bin"), Some("ab/cd/abcdef.bin".to_string()));
    assert_eq!(sanitize_address("a//b/"), Some("a/b".to_string()));
    assert_eq!(sanitize_address("a/./b"), Some("a/b".to_string()));
    assert_eq!(sanitize_address(""), Some("".to_string()));
}

#[test]
fn refuses_escaping_addresses() {
    assert_eq!(sanitize_address("/etc/passwd"), None);
    assert_eq!(sanitize_address("../secret"), None);
    assert_eq!(sanitize_address("a/../../b"), None);
    assert_eq!(sanitize_address("./a"), None);
}

#[test]
fn address_agrees_with_std_components() {
    for p in generated_paths() {
        assert_eq!(sanitize_address(&p), reference_sanitize_address(&p), "address {:?}", p);
    }
}

#[test]
fn sanitized_addresses_are_fixed_points() {
    for p in generated_paths() {
        if let Some(a) = sanitize_address(&p) {
            assert_eq!(sanitize_address(&a), Some(a.clone()));
            assert!(!a.starts_with('/'));
            assert!(!a.split('/').any(|s| s == ".." || s == "." || s.is_empty()) || a.is_empty());
        }
    }
}

#[test]
fn places_paths_under_the_base() {
    assert_eq!(sanitize_path("/data/done", "ab/cd.bin"), "/data/done/ab/cd.bin");
    assert_eq!(sanitize_path("/data/done/", "/../../etc/passwd"), "/data/done/etc/passwd");
    assert_eq!(sanitize_path("", "./a/./b"), "a/b");
    assert_eq!(sanitize_path("base", ""), "base");
}

#[test]
fn path_agrees_with_std_components() {
    for base in ["", "/", "root", "root/", "/srv/x"] {
        for p in generated_paths() {
            assert_eq!(sanitize_path(base, &p), reference_sanitize_path(base, &p), "{:?} {:?}", base, p);
        }
    }
}

#[test]
fn pushes_relative_names() {
    assert_eq!(push_relative("root", "wip"), "root/wip");
    assert_eq!(push_relative("root/", "wip"), "root/wip");
    assert_eq!(push_relative("", "wip"), "wip");
}

#[test]
fn placed_paths_stay_under_the_base() {
    for base in ["/srv/done", "/srv/done/", "rel", ""] {
        for p in generated_paths() {
            let r = sanitize_path(base, &p);
            assert!(r.starts_with(base), "{:?} {:?}", base, p);
            if r.len() > base.len() && !base.is_empty() && !base.ends_with('/') {
                assert_eq!(&r[base.len()..base.len() + 1], "/");
            }
        }
    }
}

#[test]
fn placing_a_path_joins_its_sanitized_address() {
    for base in ["/srv/done", "/srv/done/", "rel", ""] {
        for p in generated_paths() {
            if let Some(a) = sanitize_address(&p) {
                if !a.is_empty() {
                    assert_eq!(sanitize_path(base, &p), push_relative(base, &a), "{:?} {:?}", base, p);
                }
            }
        }
    }
}
