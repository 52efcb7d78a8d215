use std::io::Write;

use textcon::TextconError;
use textcon::generate_directory_tree;

fn canon(p: &std::path::Path) -> String {
    p.canonicalize().unwrap().to_str().unwrap().to_string()
}

fn write_file(dir: &std::path::Path, name: &str, contents: &str) -> std::path::PathBuf {
    let f = tempfile::Builder::new().prefix(name).rand_bytes(0).tempfile_in(dir).unwrap();
    let (mut file, path) = f.keep().unwrap();
    file.write_all(contents.as_bytes()).unwrap();
    file.flush().unwrap();
    path
}

fn make_subdir(dir: &std::path::Path, name: &str) -> std::path::PathBuf {
    tempfile::Builder::new().prefix(name).rand_bytes(0).tempdir_in(dir).unwrap().keep()
}

#[test]
fn test_generate_directory_tree() {
    let temp_dir = tempfile::TempDir::new().unwrap();
    let base = temp_dir.path();

    let dir1 = make_subdir(base, "dir1");
    make_subdir(base, "dir2");
    write_file(base, "file1.txt", "content");
    write_file(&dir1, "file2.txt", "content");
    let subdir = make_subdir(&dir1, "subdir");
    write_file(&subdir, "file3.txt", "content");

    let base_str = canon(base);
    let result = generate_directory_tree(&base_str, None, &None, &base_str, false);
    assert!(result.is_ok());
    let tree = result.unwrap();

    assert!(tree.contains("dir1/"));
    assert!(tree.contains("dir2/"));
    assert!(tree.contains("file1.txt"));
    assert!(tree.contains("file2.txt"));
    assert!(tree.contains("subdir/"));
    assert!(tree.contains("file3.txt"));
}

#[test]
fn test_generate_directory_tree_exact_output() {
    let temp_dir = tempfile::TempDir::new().unwrap();
    let base = temp_dir.path();

    let dir1 = make_subdir(base, "dir1");
    write_file(base, "a.txt", "x");
    write_file(&dir1, "b.txt", "x");

    let base_str = canon(base);
    let tree = generate_directory_tree(&base_str, None, &None, &base_str, false).unwrap();
    assert_eq!(tree, ".\n├── a.txt\n└── dir1/\n    └── b.txt\n");
}

#[test]
fn test_generate_directory_tree_max_depth() {
    let temp_dir = tempfile::TempDir::new().unwrap();
    let base = temp_dir.path();

    let level1 = make_subdir(base, "level1");
    let level2 = make_subdir(&level1, "level2");
    let level3 = make_subdir(&level2, "level3");
    write_file(&level3, "deep.txt", "content");

    let base_str = canon(base);
    let result = generate_directory_tree(&base_str, Some(2), &None, &base_str, false);
    assert!(result.is_ok());
    let tree = result.unwrap();

    assert!(tree.contains("level1/"));
    assert!(tree.contains("level2/"));
    assert!(!tree.contains("level3/"));
    assert!(!tree.contains("deep.txt"));
}

#[test]
fn test_generate_directory_tree_hidden_files() {
    let temp_dir = tempfile::TempDir::new().unwrap();
    let base = temp_dir.path();

    write_file(base, "visible.txt", "content");
    write_file(base, ".hidden", "content");
    make_subdir(base, ".hidden_dir");

    let base_str = canon(base);
    let result = generate_directory_tree(&base_str, None, &None, &base_str, false);
    assert!(result.is_ok());
    let tree = result.unwrap();

    assert!(tree.contains("visible.txt"));
    assert!(!tree.contains(".hidden"));
    assert!(!tree.contains(".hidden_dir"));
}

#[test]
fn test_generate_directory_tree_empty() {
    let temp_dir = tempfile::TempDir::new().unwrap();
    let base = temp_dir.path();

    let base_str = canon(base);
    let result = generate_directory_tree(&base_str, None, &None, &base_str, false);
    assert!(result.is_ok());
    let tree = result.unwrap();
    assert!(tree.starts_with(".\n"));
}

#[test]
fn test_generate_directory_tree_errors() {
    let temp_dir = tempfile::TempDir::new().unwrap();
    let base = temp_dir.path();
    let base_str = canon(base);

    let non_existent = format!("{base_str}/nonexistent");
    let result = generate_directory_tree(&non_existent, None, &None, &base_str, false);
    assert!(matches!(result, Err(TextconError::DirectoryNotFound { .. })));

    let file_path = write_file(base, "file.txt", "content");
    let file_str = file_path.to_str().unwrap();
    let result = generate_directory_tree(file_str, None, &None, &base_str, false);
    assert!(matches!(result, Err(TextconError::DirectoryNotFound { .. })));
}

#[test]
fn test_generate_directory_tree_with_exclusions_dirs_and_files() {
    let temp_dir = tempfile::TempDir::new().unwrap();
    let base = temp_dir.path();

    let node_modules = make_subdir(base, "node_modules");
    write_file(&node_modules, "lib.js", "ignored");
    let target = make_subdir(base, "target");
    write_file(&target, "build.o", "ignored");
    write_file(base, "visible.txt", "content");
    write_file(base, "app.log", "exclude me");

    let patterns = Some(vec![
        "node_modules/**".to_string(),
        "target/**".to_string(),
        "*.log".to_string(),
    ]);

    let base_str = canon(base);
    let tree = generate_directory_tree(&base_str, None, &patterns, &base_str, false).unwrap();

    assert!(tree.contains("visible.txt"));
    assert!(!tree.contains("node_modules"));
    assert!(!tree.contains("target"));
    assert!(!tree.contains("app.log"));
}

#[test]
fn test_exclude_deep_directory_behavior() {
    let temp_dir = tempfile::TempDir::new().unwrap();
    let base = temp_dir.path();

    let root_exclude = make_subdir(base, "root_exclude");
    write_file(&root_exclude, "file.txt", "content");

    let dir1 = make_subdir(base, "dir1");
    let nested_exclude = make_subdir(&dir1, "nested_exclude");
    write_file(&nested_exclude, "file.txt", "content");

    let patterns = Some(vec!["root_exclude".to_string(), "nested_exclude".to_string()]);

    let base_str = canon(base);
    let tree = generate_directory_tree(&base_str, None, &patterns, &base_str, false).unwrap();

    // A bare pattern matches only the literal relative path, so the top-level
    // directory disappears while the nested one of the same name stays.
    assert!(!tree.contains("root_exclude"));
    assert!(tree.contains("nested_exclude"));
    assert!(tree.contains("dir1"));
}

#[test]
fn test_basic_gitignore() {
    let temp_dir = tempfile::TempDir::new().unwrap();
    let base = temp_dir.path();

    write_file(base, ".gitignore", "*.secret");
    write_file(base, "visible.txt", "visible");
    write_file(base, "hidden.secret", "secret");

    let base_str = canon(base);
    let tree = generate_directory_tree(&base_str, None, &None, &base_str, true).unwrap();

    assert!(tree.contains("visible.txt"));
    assert!(!tree.contains("hidden.secret"));
}

#[test]
fn test_nested_gitignore() {
    let temp_dir = tempfile::TempDir::new().unwrap();
    let base = temp_dir.path();

    let subdir = make_subdir(base, "subdir");
    write_file(base, ".gitignore", "ignore_root.txt");
    write_file(&subdir, ".gitignore", "ignore_sub.txt");

    write_file(base, "ignore_root.txt", "ignored");
    write_file(&subdir, "ignore_sub.txt", "ignored");
    write_file(&subdir, "visible.txt", "visible");

    let base_str = canon(base);
    let tree = generate_directory_tree(&base_str, None, &None, &base_str, true).unwrap();

    assert!(!tree.contains("ignore_root.txt"));
    assert!(!tree.contains("ignore_sub.txt"));
    assert!(tree.contains("visible.txt"));
    assert!(tree.contains("subdir/"));
}

#[test]
fn test_gitignore_negation() {
    let temp_dir = tempfile::TempDir::new().unwrap();
    let base = temp_dir.path();

    write_file(base, ".gitignore", "*.log\n!important.log");
    write_file(base, "error.log", "ignore me");
    write_file(base, "important.log", "read me");

    let base_str = canon(base);
    let tree = generate_directory_tree(&base_str, None, &None, &base_str, true).unwrap();

    assert!(!tree.contains("error.log"));
    assert!(tree.contains("important.log"));
}

#[test]
fn test_gitignore_directory() {
    let temp_dir = tempfile::TempDir::new().unwrap();
    let base = temp_dir.path();

    write_file(base, ".gitignore", "node_modules/");
    let node_modules = make_subdir(base, "node_modules");
    write_file(&node_modules, "lib.js", "ignored");
    write_file(base, "src.js", "visible");

    let base_str = canon(base);
    let tree = generate_directory_tree(&base_str, None, &None, &base_str, true).unwrap();

    assert!(!tree.contains("node_modules"));
    assert!(!tree.contains("lib.js"));
    assert!(tree.contains("src.js"));
}

#[test]
fn test_exclusion_never_tests_the_walk_root_itself() {
    let temp_dir = tempfile::TempDir::new().unwrap();
    let base = temp_dir.path();

    let dir = make_subdir(base, "dir");
    write_file(&dir, "inner.txt", "content");

    let patterns = Some(vec!["dir".to_string()]);
    let base_str = canon(base);
    let dir_str = canon(&dir);

    // Walking base: the pattern strikes the directory entry itself.
    let tree = generate_directory_tree(&base_str, None, &patterns, &base_str, false).unwrap();
    assert!(!tree.contains("dir"));

    // Walking the excluded directory directly: the walk root is never tested
    // against the patterns, so its contents still render.
    let tree = generate_directory_tree(&dir_str, None, &patterns, &base_str, false).unwrap();
    assert!(tree.contains("inner.txt"));
}

#[test]
fn test_gitignore_walk_respects_max_depth() {
    let temp_dir = tempfile::TempDir::new().unwrap();
    let base = temp_dir.path();

    let level1 = make_subdir(base, "level1");
    let level2 = make_subdir(&level1, "level2");
    write_file(&level2, "deep.txt", "content");
    write_file(base, "top.txt", "content");

    let base_str = canon(base);
    let tree = generate_directory_tree(&base_str, Some(1), &None, &base_str, true).unwrap();

    assert!(tree.contains("top.txt"));
    assert!(tree.contains("level1/"));
    assert!(!tree.contains("level2"));
    assert!(!tree.contains("deep.txt"));
}

#[test]
fn test_filter_tree_entries_decisions() {
    let entries: Vec<Result<(String, bool), String>> = vec![
        Ok(("/base/dir/a.txt".to_string(), false)),
        Ok(("/base/dir/.hidden".to_string(), false)),
        Ok(("/base/dir/sub".to_string(), true)),
        Ok(("/elsewhere/x".to_string(), false)),
    ];
    let kept = textcon::filter_tree_entries(&entries, "/base/dir", "/base", &None, None, false)
        .unwrap();
    let names: Vec<&str> = kept.iter().map(|e| e.0.as_str()).collect();
    assert_eq!(names, vec!["/base/dir/a.txt", "/base/dir/sub"]);

    // A pattern on the base-relative form strikes the file.
    let patterns = Some(vec!["dir/a.txt".to_string()]);
    let kept = textcon::filter_tree_entries(&entries, "/base/dir", "/base", &patterns, None, false)
        .unwrap();
    let names: Vec<&str> = kept.iter().map(|e| e.0.as_str()).collect();
    assert_eq!(names, vec!["/base/dir/sub"]);
}
