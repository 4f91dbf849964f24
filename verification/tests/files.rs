use std::path::{Path, PathBuf};

use git_host::files::{
    check_readable, check_writable, existing_workspace_root, file_content, list_entries,
    listing_entry, resolve_path, workspace_root, ApiError, PathSyntax, MAX_EDITABLE_FILE_SIZE,
};

fn resolve(root: &Path, relative: &str) -> Result<PathBuf, ApiError> {
    resolve_path(root.to_str().unwrap(), relative, PathSyntax::Unix).map(PathBuf::from)
}

#[test]
fn resolve_path_allows_nested_relative_paths() {
    let root = Path::new("/tmp/ws");
    assert_eq!(resolve(root, "src/main.rs").unwrap(), PathBuf::from("/tmp/ws/src/main.rs"));
    assert_eq!(resolve(root, "").unwrap(), PathBuf::from("/tmp/ws"));
}

#[test]
fn resolve_path_rejects_traversal_and_absolute() {
    let root = Path::new("/tmp/ws");
    assert!(resolve(root, "../etc/passwd").is_err());
    assert!(resolve(root, "src/../../etc").is_err());
    assert!(resolve(root, "/etc/passwd").is_err());
}

#[test]
fn resolve_path_normalizes_dots_and_slashes() {
    assert_eq!(resolve_path("/tmp/ws", "./a//b/./c/", PathSyntax::Unix).unwrap(), "/tmp/ws/a/b/c");
    assert_eq!(resolve_path("/tmp/ws/", "a", PathSyntax::Unix).unwrap(), "/tmp/ws/a");
    assert_eq!(resolve_path("/tmp/ws", "a..b/..c", PathSyntax::Unix).unwrap(), "/tmp/ws/a..b/..c");
    match resolve_path("/tmp/ws", "a/..", PathSyntax::Unix) {
        Err(ApiError::BadRequest(m)) => assert_eq!(m, "Invalid path: a/.."),
        Ok(p) => panic!("unexpected {p}"),
    }
}

#[test]
fn workspace_root_checks() {
    assert_eq!(workspace_root(&Some("/w".to_string())).unwrap(), "/w");
    match workspace_root(&None) {
        Err(ApiError::BadRequest(m)) => assert_eq!(m, "Workspace has no directory yet"),
        Ok(_) => panic!(),
    }
    assert!(existing_workspace_root("/w".to_string(), true).is_ok());
    match existing_workspace_root("/w".to_string(), false) {
        Err(ApiError::BadRequest(m)) => assert_eq!(m, "Workspace directory does not exist"),
        Ok(_) => panic!(),
    }
}

#[test]
fn listing_hides_git_at_root_only() {
    assert!(listing_entry("", ".git".to_string(), true, PathSyntax::Unix).is_none());
    let e = listing_entry("sub//", ".git".to_string(), true, PathSyntax::Unix).unwrap();
    assert_eq!(e.path, "sub/.git");
    let e = listing_entry("", "a.txt".to_string(), false, PathSyntax::Unix).unwrap();
    assert_eq!(e.path, "a.txt");
}

#[test]
fn listing_sorts_directories_first_then_by_lowercase_name() {
    let items = vec![
        ("b.txt".to_string(), false),
        ("Zeta".to_string(), true),
        ("A.txt".to_string(), false),
        (".git".to_string(), true),
        ("alpha".to_string(), true),
        ("a.TXT".to_string(), false),
    ];
    let names: Vec<String> = list_entries("", items, PathSyntax::Unix).into_iter().map(|e| e.name).collect();
    assert_eq!(names, vec!["alpha", "Zeta", "A.txt", "a.TXT", "b.txt"]);
}

#[test]
fn read_and_write_checks() {
    assert!(check_readable(false, MAX_EDITABLE_FILE_SIZE).is_ok());
    match check_readable(false, MAX_EDITABLE_FILE_SIZE + 1) {
        Err(ApiError::BadRequest(m)) => assert_eq!(m, "File is too large to edit in the browser"),
        Ok(_) => panic!(),
    }
    match check_readable(true, 0) {
        Err(ApiError::BadRequest(m)) => assert_eq!(m, "Path is a directory"),
        Ok(_) => panic!(),
    }
    assert!(check_writable(false).is_ok());
    assert!(check_writable(true).is_err());
    let c = file_content("p".to_string(), "héllo".as_bytes().to_vec()).unwrap();
    assert_eq!(c.content, "héllo");
    match file_content("p".to_string(), vec![0xff, 0xfe]) {
        Err(ApiError::BadRequest(m)) => assert_eq!(m, "File is not valid UTF-8 text"),
        Ok(_) => panic!(),
    }
}

#[test]
fn resolve_path_windows_rules() {
    let w = PathSyntax::Windows;
    assert!(resolve_path("C:\\ws", "..\\x", w).is_err());
    assert!(resolve_path("C:\\ws", "a\\..", w).is_err());
    assert!(resolve_path("C:\\ws", "C:\\x", w).is_err());
    assert!(resolve_path("C:\\ws", "d:x", w).is_err());
    assert!(resolve_path("C:\\ws", "\\x", w).is_err());
    assert!(resolve_path("C:\\ws", "\\\\server\\share", w).is_err());
    assert!(resolve_path("C:\\ws", "a/C:x", w).is_err());
    assert_eq!(resolve_path("C:\\ws", "a\\b/c", w).unwrap(), "C:\\ws\\a\\b\\c");
    assert_eq!(resolve_path("C:\\ws\\", ".\\a", w).unwrap(), "C:\\ws\\a");
    assert_eq!(resolve_path("C:", "a", w).unwrap(), "C:a");
    assert_eq!(resolve_path("C:\\ws", "1:x", w).unwrap(), "C:\\ws\\1:x");
}

#[test]
fn resolve_path_unix_keeps_backslashes_and_colons() {
    let u = PathSyntax::Unix;
    assert_eq!(resolve_path("/tmp/ws", "..\\x", u).unwrap(), "/tmp/ws/..\\x");
    assert_eq!(resolve_path("/tmp/ws", "C:x", u).unwrap(), "/tmp/ws/C:x");
}

#[test]
fn listing_hides_git_wherever_the_query_names_the_root() {
    assert!(listing_entry(".", ".git".to_string(), true, PathSyntax::Unix).is_none());
    assert!(listing_entry("./", ".git".to_string(), true, PathSyntax::Unix).is_none());
    assert!(listing_entry(".//.", ".git".to_string(), true, PathSyntax::Unix).is_none());
    assert!(listing_entry(".\\", ".git".to_string(), true, PathSyntax::Windows).is_none());
    let e = listing_entry(".\\", ".git".to_string(), true, PathSyntax::Unix).unwrap();
    assert_eq!(e.path, ".\\/.git");
    let e = listing_entry(".", "src".to_string(), true, PathSyntax::Unix).unwrap();
    assert_eq!(e.path, "./src");
    let e = listing_entry("a/.", ".git".to_string(), true, PathSyntax::Unix).unwrap();
    assert_eq!(e.path, "a/./.git");
}
