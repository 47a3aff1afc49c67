use mirror_copy::fs_path::FsPath;
use mirror_copy::fs_path::mirror_path;

fn p(parts: &[&str]) -> FsPath {
    FsPath { parts: parts.iter().map(|s| s.to_string()).collect() }
}

#[test]
fn starts_with_accepts_prefix() {
    let full = p(&["src", "sub", "b.txt"]);
    let root = p(&["src"]);
    assert!(full.starts_with(&root));
    assert!(full.starts_with(&p(&["src", "sub"])));
    assert!(full.starts_with(&p(&[])));
    assert!(full.starts_with(&full.clone()));
}

#[test]
fn starts_with_rejects_non_prefix() {
    let full = p(&["src", "sub", "b.txt"]);
    assert!(!full.starts_with(&p(&["dst"])));
    assert!(!full.starts_with(&p(&["src", "other"])));
    assert!(!p(&["src"]).starts_with(&full));
}

#[test]
fn strip_prefix_removes_root() {
    let full = p(&["src", "sub", "b.txt"]);
    let rest = full.strip_prefix(&p(&["src"])).unwrap();
    assert_eq!(rest.parts, vec!["sub".to_string(), "b.txt".to_string()]);
    assert!(full.strip_prefix(&p(&["dst"])).is_none());
}

#[test]
fn join_appends_components() {
    let joined = p(&["dst"]).join(&p(&["sub", "b.txt"]));
    assert_eq!(
        joined.parts,
        vec!["dst".to_string(), "sub".to_string(), "b.txt".to_string()],
    );
}

#[test]
fn mirror_path_substitutes_root_prefix() {
    let file = p(&["src", "sub", "b.txt"]);
    let mirrored = mirror_path(&file, &p(&["src"]), &p(&["dst"])).unwrap();
    assert_eq!(
        mirrored.parts,
        vec!["dst".to_string(), "sub".to_string(), "b.txt".to_string()],
    );
}

#[test]
fn mirror_path_rejects_file_outside_root() {
    let file = p(&["elsewhere", "a.txt"]);
    assert!(mirror_path(&file, &p(&["src"]), &p(&["dst"])).is_none());
}

#[test]
fn clone_keeps_components() {
    let original = p(&["src", "a.txt"]);
    let copy = original.clone();
    assert_eq!(copy.parts, original.parts);
}
