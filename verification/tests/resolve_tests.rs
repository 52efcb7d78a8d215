use std::io::Write;

use textcon::TextconError;
use textcon::resolve_reference_path;

fn canon(p: &std::path::Path) -> String {
    p.canonicalize().unwrap().to_str().unwrap().to_string()
}

fn write_file(dir: &std::path::Path, name: &str, contents: &str) -> std::path::PathBuf {
    let f = tempfile::Builder::new().prefix(name).rand_bytes(0).tempfile_in(dir).unwrap();
    let (mut file, path) = f.keep().unwrap();
    file.write_all(contents.as_bytes()).unwrap();
    file.flush().unwrap();
    path
}

fn make_subdir(dir: &std::path::Path, name: &str) -> std::path::PathBuf {
    tempfile::Builder::new().prefix(name).rand_bytes(0).tempdir_in(dir).unwrap().keep()
}

#[test]
fn test_resolve_reference_path_basic() {
    let temp_dir = tempfile::TempDir::new().unwrap();
    let base = temp_dir.path();

    let file_path = write_file(base, "test.txt", "content");

    let result = resolve_reference_path("@test.txt", base.to_str().unwrap());
    assert!(result.is_ok());
    assert_eq!(result.unwrap(), canon(&file_path));

    let result = resolve_reference_path("@/test.txt", base.to_str().unwrap());
    assert!(result.is_ok());
    assert_eq!(result.unwrap(), canon(&file_path));
}

#[test]
fn test_resolve_reference_path_force_syntax() {
    let temp_dir = tempfile::TempDir::new().unwrap();
    let base = temp_dir.path();

    let file_path = write_file(base, "test.txt", "content");

    let result = resolve_reference_path("@!test.txt", base.to_str().unwrap());
    assert!(result.is_ok());
    assert_eq!(result.unwrap(), canon(&file_path));

    let result = resolve_reference_path("@!/test.txt", base.to_str().unwrap());
    assert!(result.is_ok());
    assert_eq!(result.unwrap(), canon(&file_path));
}

#[test]
fn test_resolve_reference_path_current_dir() {
    let temp_dir = tempfile::TempDir::new().unwrap();
    let base = temp_dir.path();

    let result = resolve_reference_path("@.", base.to_str().unwrap());
    assert!(result.is_ok());
    assert_eq!(result.unwrap(), canon(base));

    let result = resolve_reference_path("@/", base.to_str().unwrap());
    assert!(result.is_ok());
    assert_eq!(result.unwrap(), canon(base));

    let result = resolve_reference_path("@", base.to_str().unwrap());
    assert!(result.is_ok());
    assert_eq!(result.unwrap(), canon(base));
}

#[test]
fn test_resolve_reference_path_subdirectories() {
    let temp_dir = tempfile::TempDir::new().unwrap();
    let base = temp_dir.path();

    let dir1 = make_subdir(base, "dir1");
    let dir2 = make_subdir(&dir1, "dir2");
    let file_path = write_file(&dir2, "file.txt", "content");

    let result = resolve_reference_path("@dir1/dir2/file.txt", base.to_str().unwrap());
    assert!(result.is_ok());
    assert_eq!(result.unwrap(), canon(&file_path));
}

#[test]
fn test_resolve_reference_path_traversal_prevention() {
    let temp_dir = tempfile::TempDir::new().unwrap();
    let base = temp_dir.path();

    let subdir = make_subdir(base, "subdir");
    let nested = make_subdir(&subdir, "nested");

    let result = resolve_reference_path("@../../../", nested.to_str().unwrap());
    assert!(matches!(result, Err(TextconError::PathTraversal { .. })));

    let result = resolve_reference_path("@../", base.to_str().unwrap());
    assert!(matches!(result, Err(TextconError::PathTraversal { .. })));

    let result = resolve_reference_path(
        "@../../../../../../../../../../../../../../../../../../../../../../../../../../../../",
        base.to_str().unwrap(),
    );
    assert!(matches!(result, Err(TextconError::PathTraversal { .. })));
}

#[test]
fn test_resolve_reference_path_nonexistent() {
    let temp_dir = tempfile::TempDir::new().unwrap();
    let base = temp_dir.path();

    let result = resolve_reference_path("@nonexistent.txt", base.to_str().unwrap());
    assert!(result.is_ok());
    let resolved = result.unwrap();

    let expected = format!("{}/nonexistent.txt", canon(base));
    assert_eq!(resolved, expected);
}

#[test]
fn test_resolve_reference_path_windows_paths() {
    let temp_dir = tempfile::TempDir::new().unwrap();
    let base = temp_dir.path();

    let file_path = write_file(base, "test.txt", "content");

    let result = resolve_reference_path("@\\test.txt", base.to_str().unwrap());
    assert!(result.is_ok());
    assert_eq!(result.unwrap(), canon(&file_path));
}

#[test]
fn test_resolve_reference_path_complex_prefixes() {
    let temp_dir = tempfile::TempDir::new().unwrap();
    let base = temp_dir.path();

    let file_path = write_file(base, "test.txt", "content");

    let result = resolve_reference_path("@///test.txt", base.to_str().unwrap());
    assert!(result.is_ok());
    assert_eq!(result.unwrap(), canon(&file_path));

    let result = resolve_reference_path("@!/\\test.txt", base.to_str().unwrap());
    assert!(result.is_ok());
    assert_eq!(result.unwrap(), canon(&file_path));
}

#[test]
fn test_special_characters_in_names() {
    let temp_dir = tempfile::TempDir::new().unwrap();
    let base = temp_dir.path();

    write_file(base, "file with spaces.txt", "content");
    let result = resolve_reference_path("@file with spaces.txt", base.to_str().unwrap());
    assert!(result.is_ok());

    write_file(base, "文件.txt", "content");
    let result = resolve_reference_path("@文件.txt", base.to_str().unwrap());
    assert!(result.is_ok());
}

#[test]
fn test_traversal_with_many_dotdot_segments_never_escapes() {
    let temp_dir = tempfile::TempDir::new().unwrap();
    let base = temp_dir.path();
    let base_str = base.to_str().unwrap();
    let base_canon = canon(base);

    let mut reference = String::from("@");
    for _ in 0..30 {
        reference.push_str("../");
        let result = resolve_reference_path(&reference, base_str);
        match result {
            Ok(p) => assert!(p == base_canon || p.starts_with(&format!("{base_canon}/"))),
            Err(e) => assert!(matches!(e, TextconError::PathTraversal { .. })),
        }
    }
}

#[test]
fn test_resolve_etc_passwd_traversal() {
    let temp_dir = tempfile::TempDir::new().unwrap();
    let base = temp_dir.path();

    // Enough `../` segments to reach the filesystem root from anywhere: the
    // resolved path is the real /etc/passwd, outside the sandbox.
    let reference = format!("@{}etc/passwd", "../".repeat(40));
    let result = resolve_reference_path(&reference, base.to_str().unwrap());
    assert!(matches!(result, Err(TextconError::PathTraversal { .. })));

    // With fewer segments the path may instead miss inside an existing
    // ancestor; it must still never resolve outside the sandbox.
    let result = resolve_reference_path("@../../etc/passwd", base.to_str().unwrap());
    let base_canon = canon(base);
    match result {
        Ok(p) => assert!(p == base_canon || p.starts_with(&format!("{base_canon}/"))),
        Err(e) => assert!(matches!(
            e,
            TextconError::PathTraversal { .. } | TextconError::Io(_)
        )),
    }
}

#[test]
fn test_resolve_missing_path_with_dot_tail() {
    let temp_dir = tempfile::TempDir::new().unwrap();
    let base = temp_dir.path();

    // `foo` does not exist; the trailing `.` segment is dropped and the
    // missing name re-appended onto the canonicalized parent.
    let result = resolve_reference_path("@foo/.", base.to_str().unwrap());
    assert!(result.is_ok());
    assert_eq!(result.unwrap(), format!("{}/foo", canon(base)));
}

#[test]
fn test_resolve_multi_level_missing_path() {
    let temp_dir = tempfile::TempDir::new().unwrap();
    let base = temp_dir.path();

    // Several missing components: the nearest existing ancestor is the base
    // itself, and the whole missing tail is re-appended.
    let result = resolve_reference_path("@a/b/c.txt", base.to_str().unwrap());
    assert!(result.is_ok());
    assert_eq!(result.unwrap(), format!("{}/a/b/c.txt", canon(base)));

    // A `..` inside the missing tail steps back within it.
    let result = resolve_reference_path("@a/b/../c.txt", base.to_str().unwrap());
    assert!(result.is_ok());
    assert_eq!(result.unwrap(), format!("{}/a/c.txt", canon(base)));
}
