use std::io::Write;

use textcon::FileStore;
use textcon::TemplateConfig;
use textcon::TextconError;
use textcon::process_reference;
use textcon::process_template;

fn canon(p: &std::path::Path) -> String {
    p.canonicalize().unwrap().to_str().unwrap().to_string()
}

fn write_file(dir: &std::path::Path, name: &str, contents: &str) -> std::path::PathBuf {
    let f = tempfile::Builder::new().prefix(name).rand_bytes(0).tempfile_in(dir).unwrap();
    let (mut file, path) = f.keep().unwrap();
    file.write_all(contents.as_bytes()).unwrap();
    file.flush().unwrap();
    path
}

fn make_subdir(dir: &std::path::Path, name: &str) -> std::path::PathBuf {
    tempfile::Builder::new().prefix(name).rand_bytes(0).tempdir_in(dir).unwrap().keep()
}

fn test_config(base: &std::path::Path) -> TemplateConfig {
    TemplateConfig {
        base_dir: canon(base),
        max_tree_depth: Some(3),
        inline_contents: true,
        add_path_comments: false,
        max_file_size: 100,
        exclude: None,
        use_gitignore: false,
    }
}

#[test]
fn two_references_expand_in_place() {
    let temp_dir = tempfile::TempDir::new().unwrap();
    let config = test_config(temp_dir.path());

    let file = write_file(temp_dir.path(), "t.txt", "TEST");
    let mut store = FileStore::new();
    store.insert(canon(&file), "TEST".to_string());

    let result = process_template("A{{ @t.txt }}B{{ @t.txt }}C", &config, &store).unwrap();
    assert_eq!(result, "ATESTBTESTC");
}

#[test]
fn reprocessing_unchanged_state_is_identical() {
    let temp_dir = tempfile::TempDir::new().unwrap();
    let mut config = test_config(temp_dir.path());
    config.add_path_comments = true;

    let file = write_file(temp_dir.path(), "a.txt", "alpha");
    let dir = make_subdir(temp_dir.path(), "docs");
    let nested = write_file(&dir, "b.txt", "beta");

    let mut store = FileStore::new();
    store.insert(canon(&file), "alpha".to_string());
    store.insert(canon(&nested), "beta".to_string());

    let template = "x{{ @a.txt }}y{{ @docs/ }}z{{ @!docs/ }}w";
    let first = process_template(template, &config, &store).unwrap();
    let second = process_template(template, &config, &store).unwrap();
    assert_eq!(first, second);
}

#[test]
fn size_gate_boundary() {
    let temp_dir = tempfile::TempDir::new().unwrap();
    let mut config = test_config(temp_dir.path());
    config.max_file_size = 10;

    let exact = "x".repeat(10);
    let exact_file = write_file(temp_dir.path(), "exact.txt", &exact);
    let over = "x".repeat(11);
    let over_file = write_file(temp_dir.path(), "over.txt", &over);

    let mut store = FileStore::new();
    store.insert(canon(&exact_file), exact.clone());
    store.insert(canon(&over_file), over.clone());

    // exactly max_file_size bytes: includable without force
    let result = process_reference("@exact.txt", &config, false, &store);
    assert!(result.is_ok());
    assert_eq!(result.unwrap(), exact);

    // one byte more: refused without force, included with force
    let result = process_reference("@over.txt", &config, false, &store);
    match result {
        Err(TextconError::FileSizeExceeded { size, max_size, .. }) => {
            assert_eq!(size, 11);
            assert_eq!(max_size, 10);
        },
        other => panic!("expected FileSizeExceeded, got {:?}", other),
    }

    let result = process_reference("@!over.txt", &config, true, &store);
    assert!(result.is_ok());
    assert_eq!(result.unwrap(), over);
}

#[test]
fn traversal_reference_fails_regardless_of_depth() {
    let temp_dir = tempfile::TempDir::new().unwrap();
    let config = test_config(temp_dir.path());
    let store = FileStore::new();

    let reference = format!("@{}etc/passwd", "../".repeat(10));
    let result = process_reference(&reference, &config, false, &store);
    assert!(matches!(result, Err(TextconError::PathTraversal { .. })));

    let reference = format!("@{}etc/passwd", "../".repeat(40));
    let result = process_reference(&reference, &config, false, &store);
    assert!(matches!(result, Err(TextconError::PathTraversal { .. })));
}

#[test]
fn tree_of_directory_hides_dotfiles_entirely() {
    let temp_dir = tempfile::TempDir::new().unwrap();
    let config = test_config(temp_dir.path());

    let dir = make_subdir(temp_dir.path(), "dir");
    write_file(&dir, "visible.txt", "shown");
    write_file(&dir, ".hidden", "never");
    let dot_dir = make_subdir(&dir, ".secrets");
    write_file(&dot_dir, "inner.txt", "never");

    let store = FileStore::new();
    let result = process_reference("@dir/", &config, false, &store).unwrap();
    assert!(result.contains("visible.txt"));
    assert!(!result.contains(".hidden"));
    assert!(!result.contains(".secrets"));
    assert!(!result.contains("inner.txt"));
}

#[test]
fn forced_directory_includes_tree_and_all_contents() {
    let temp_dir = tempfile::TempDir::new().unwrap();
    let mut config = test_config(temp_dir.path());
    config.add_path_comments = true;

    let dir = make_subdir(temp_dir.path(), "dir");
    let top = write_file(&dir, "top.txt", "TOP CONTENT");
    let sub = make_subdir(&dir, "sub");
    let deep = write_file(&sub, "deep.txt", "DEEP CONTENT");

    let mut store = FileStore::new();
    store.insert(canon(&top), "TOP CONTENT".to_string());
    store.insert(canon(&deep), "DEEP CONTENT".to_string());

    let result = process_reference("@!dir/", &config, true, &store).unwrap();
    // the tree rendering
    assert!(result.contains(".\n"));
    assert!(result.contains("top.txt"));
    assert!(result.contains("sub/"));
    // and the stitched contents, nested files included
    assert!(result.contains("TOP CONTENT"));
    assert!(result.contains("DEEP CONTENT"));
    assert!(result.contains("### dir/top.txt"));
    assert!(result.contains("### dir/sub/deep.txt"));
}

#[test]
fn forced_directory_respects_max_tree_depth() {
    let temp_dir = tempfile::TempDir::new().unwrap();
    let mut config = test_config(temp_dir.path());
    config.max_tree_depth = Some(1);

    let dir = make_subdir(temp_dir.path(), "dir");
    let top = write_file(&dir, "top.txt", "TOP CONTENT");
    let sub = make_subdir(&dir, "sub");
    let deep = write_file(&sub, "deep.txt", "DEEP CONTENT");

    let mut store = FileStore::new();
    store.insert(canon(&top), "TOP CONTENT".to_string());
    store.insert(canon(&deep), "DEEP CONTENT".to_string());

    let result = process_reference("@!dir/", &config, true, &store).unwrap();
    assert!(result.contains("TOP CONTENT"));
    assert!(!result.contains("DEEP CONTENT"));
}

#[test]
fn deep_inclusion_read_failure_is_inline_and_continues() {
    let temp_dir = tempfile::TempDir::new().unwrap();
    let config = test_config(temp_dir.path());

    let dir = make_subdir(temp_dir.path(), "dir");
    let good = write_file(&dir, "good.txt", "GOOD");
    let bad = write_file(&dir, "bad.txt", "whatever");

    let mut store = FileStore::new();
    store.insert(canon(&good), "GOOD".to_string());
    store.insert_error(canon(&bad), "permission denied".to_string());

    let result = process_reference("@!dir/", &config, true, &store).unwrap();
    assert!(result.contains("GOOD"));
    assert!(result.contains("Error reading file:"));
    assert!(result.contains("permission denied"));
}

#[test]
fn top_level_read_failure_aborts_whole_template() {
    let temp_dir = tempfile::TempDir::new().unwrap();
    let config = test_config(temp_dir.path());

    let bad = write_file(temp_dir.path(), "bad.txt", "whatever");
    let mut store = FileStore::new();
    store.insert_error(canon(&bad), "disk error".to_string());

    let result = process_template("before {{ @bad.txt }} after", &config, &store);
    assert!(matches!(result, Err(TextconError::Io(_))));
}

#[test]
fn invalid_exclusion_pattern_is_reported() {
    let temp_dir = tempfile::TempDir::new().unwrap();
    let mut config = test_config(temp_dir.path());
    config.exclude = Some(vec!["a[".to_string()]);

    write_file(temp_dir.path(), "x.txt", "x");
    let store = FileStore::new();

    let result = process_reference("@.", &config, false, &store);
    assert!(matches!(result, Err(TextconError::Pattern(_))));
}

#[test]
fn deep_inclusion_strips_leading_comment_lines() {
    let temp_dir = tempfile::TempDir::new().unwrap();
    let mut config = test_config(temp_dir.path());
    config.add_path_comments = true;

    let dir = make_subdir(temp_dir.path(), "dir");
    let plain = write_file(&dir, "plain.txt", "BODY");
    let commented = write_file(&dir, "commented.txt", "<!--note-->\nREAL BODY");

    let mut store = FileStore::new();
    store.insert(canon(&plain), "BODY".to_string());
    store.insert(canon(&commented), "<!--note-->\nREAL BODY".to_string());

    let result = process_reference("@!dir/", &config, true, &store).unwrap();
    // Section headers name the files, but the per-file provenance headers are
    // stripped from the stitched contents.
    assert!(result.contains("### dir/plain.txt"));
    assert!(result.contains("BODY"));
    assert!(!result.contains("<!-- File:"));
    // A leading comment line of the file's own contents is stripped too.
    assert!(result.contains("REAL BODY"));
    assert!(!result.contains("<!--note-->"));
}

#[test]
fn bare_marker_reference_expands_to_root_tree() {
    let temp_dir = tempfile::TempDir::new().unwrap();
    let config = test_config(temp_dir.path());

    write_file(temp_dir.path(), "only.txt", "x");
    let store = FileStore::new();

    let result = process_template("[{{ @ }}]", &config, &store).unwrap();
    assert!(result.starts_with("[.\n"));
    assert!(result.contains("only.txt"));
    assert!(result.ends_with("]"));
}

#[test]
fn deep_inclusion_skips_files_under_dot_directories() {
    let temp_dir = tempfile::TempDir::new().unwrap();
    let config = test_config(temp_dir.path());

    let dir = make_subdir(temp_dir.path(), "dir");
    let shown = write_file(&dir, "shown.txt", "SHOWN");
    let dot_dir = make_subdir(&dir, ".secrets");
    let inner = write_file(&dot_dir, "inner.txt", "NEVER");

    let mut store = FileStore::new();
    store.insert(canon(&shown), "SHOWN".to_string());
    store.insert(canon(&inner), "NEVER".to_string());

    let result = process_reference("@!dir/", &config, true, &store).unwrap();
    assert!(result.contains("SHOWN"));
    assert!(!result.contains("NEVER"));
    assert!(!result.contains(".secrets"));
}
