use std::io::Write;

use textcon::FileStore;
use textcon::TemplateConfig;
use textcon::TextconError;
use textcon::MAX_FILE_SIZE;
use textcon::process_file_reference;
use textcon::process_reference;
use textcon::process_template;
use textcon::process_template_file;
use textcon::read_file_contents;

fn canon(p: &std::path::Path) -> String {
    p.canonicalize().unwrap().to_str().unwrap().to_string()
}

fn write_file(dir: &std::path::Path, name: &str, contents: &str) -> std::path::PathBuf {
    let f = tempfile::Builder::new().prefix(name).rand_bytes(0).tempfile_in(dir).unwrap();
    let (mut file, path) = f.keep().unwrap();
    file.write_all(contents.as_bytes()).unwrap();
    file.flush().unwrap();
    path
}

fn make_subdir(dir: &std::path::Path, name: &str) -> std::path::PathBuf {
    tempfile::Builder::new().prefix(name).rand_bytes(0).tempdir_in(dir).unwrap().keep()
}

fn test_config(base: &std::path::Path) -> TemplateConfig {
    TemplateConfig {
        base_dir: canon(base),
        max_tree_depth: Some(3),
        inline_contents: true,
        add_path_comments: true,
        max_file_size: 100,
        exclude: None,
        use_gitignore: false,
    }
}

fn store_with(files: &[(&std::path::Path, &str)]) -> FileStore {
    let mut store = FileStore::new();
    for (path, contents) in files {
        store.insert(canon(path), (*contents).to_string());
    }
    store
}

#[test]
fn test_file_size_check() {
    let temp_dir = tempfile::TempDir::new().unwrap();
    let config = test_config(temp_dir.path());

    let small_file = write_file(temp_dir.path(), "small.txt", "small content");

    let large_contents = "x".repeat(200);
    let large_file = write_file(temp_dir.path(), "large.txt", &large_contents);

    let mut store = FileStore::new();
    store.insert(canon(&small_file), "small content".to_string());
    store.insert(canon(&large_file), large_contents.clone());

    let result = process_file_reference(&canon(&small_file), &config, false, &store);
    assert!(result.is_ok());

    let result = process_file_reference(&canon(&large_file), &config, false, &store);
    assert!(matches!(result, Err(TextconError::FileSizeExceeded { .. })));

    let result = process_file_reference(&canon(&large_file), &config, true, &store);
    assert!(result.is_ok());
}

#[test]
fn test_process_reference_invalid() {
    let temp_dir = tempfile::TempDir::new().unwrap();
    let config = test_config(temp_dir.path());
    let store = FileStore::new();

    let result = process_reference("file.txt", &config, false, &store);
    assert!(matches!(result, Err(TextconError::InvalidReference { .. })));
}

#[test]
fn test_process_reference_nonexistent() {
    let temp_dir = tempfile::TempDir::new().unwrap();
    let config = test_config(temp_dir.path());
    let store = FileStore::new();

    let result = process_reference("@nonexistent.txt", &config, false, &store);
    assert!(result.is_err());

    let result = process_reference("@nonexistent/", &config, false, &store);
    assert!(result.is_err());
}

#[test]
fn test_process_reference_not_found_kinds() {
    let temp_dir = tempfile::TempDir::new().unwrap();
    let config = test_config(temp_dir.path());
    let store = FileStore::new();

    let result = process_reference("@nonexistent.txt", &config, false, &store);
    assert!(matches!(result, Err(TextconError::FileNotFound { .. })));

    let result = process_reference("@nonexistent/", &config, false, &store);
    assert!(matches!(result, Err(TextconError::DirectoryNotFound { .. })));
}

#[test]
fn test_process_template_integration() {
    let temp_dir = tempfile::TempDir::new().unwrap();
    let mut config = test_config(temp_dir.path());
    config.max_file_size = 100;

    let file1 = write_file(temp_dir.path(), "file1.txt", "content1");
    let large_contents = "x".repeat(200);
    let file2 = write_file(temp_dir.path(), "file2.txt", &large_contents);

    let dir = make_subdir(temp_dir.path(), "testdir");
    let subfile = write_file(&dir, "subfile.txt", "subcontent");

    let store = store_with(&[
        (&file1, "content1"),
        (&file2, &large_contents),
        (&subfile, "subcontent"),
    ]);

    let template = "Start\n{{ @file1.txt }}\nMiddle\n{{ @!file2.txt }}\nDir:\n{{ @testdir/ }}\nEnd";
    let result = process_template(template, &config, &store);
    assert!(result.is_ok());
    let output = result.unwrap();
    assert!(output.contains("content1"));
    assert!(output.contains("xxx"));
    assert!(output.contains("testdir"));

    let template_fail = "{{ @file2.txt }}";
    let result = process_template(template_fail, &config, &store);
    assert!(matches!(result, Err(TextconError::FileSizeExceeded { .. })));
}

#[test]
fn test_deep_directory_inclusion() {
    let temp_dir = tempfile::TempDir::new().unwrap();
    let config = test_config(temp_dir.path());

    let dir = make_subdir(temp_dir.path(), "project");
    let file1 = write_file(&dir, "file1.txt", "file1 content");
    let subdir = make_subdir(&dir, "subdir");
    let file2 = write_file(&subdir, "file2.txt", "file2 content");

    let store = store_with(&[(&file1, "file1 content"), (&file2, "file2 content")]);

    let result = process_reference("@project/", &config, false, &store).unwrap();
    assert!(result.contains("project"));
    assert!(result.contains("file1.txt"));
    assert!(result.contains("subdir"));
    assert!(!result.contains("file1 content"));

    let result = process_reference("@!project/", &config, true, &store).unwrap();
    assert!(result.contains("project"));
    assert!(result.contains("file1.txt"));
    assert!(result.contains("file1 content"));
    assert!(result.contains("file2 content"));
}

#[test]
fn test_current_directory_references() {
    let temp_dir = tempfile::TempDir::new().unwrap();
    let config = test_config(temp_dir.path());

    let file = write_file(temp_dir.path(), "test.txt", "test content");
    let store = store_with(&[(&file, "test content")]);

    let result = process_reference("@.", &config, false, &store);
    assert!(result.is_ok());
    assert!(result.unwrap().contains("test.txt"));

    let result = process_reference("@!.", &config, true, &store);
    assert!(result.is_ok());
    let output = result.unwrap();
    assert!(output.contains("test.txt"));
    assert!(output.contains("test content"));

    let result = process_reference("@/", &config, false, &store);
    assert!(result.is_ok());
}

#[test]
fn test_path_comments_config() {
    let temp_dir = tempfile::TempDir::new().unwrap();
    let mut config = test_config(temp_dir.path());

    let file = write_file(temp_dir.path(), "test.txt", "content");
    let store = store_with(&[(&file, "content")]);

    config.add_path_comments = true;
    let result = process_file_reference(&canon(&file), &config, false, &store).unwrap();
    assert!(result.contains("<!-- File:"));
    assert!(result.contains("content"));

    config.add_path_comments = false;
    let result = process_file_reference(&canon(&file), &config, false, &store).unwrap();
    assert!(!result.contains("<!--"));
    assert_eq!(result, "content");
}

#[test]
fn test_config_default() {
    let config = TemplateConfig::default();
    assert_eq!(config.max_tree_depth, Some(5));
    assert!(config.inline_contents);
    assert!(config.add_path_comments);
    assert_eq!(config.max_file_size, MAX_FILE_SIZE);
}

#[test]
fn test_hidden_files_ignored() {
    let temp_dir = tempfile::TempDir::new().unwrap();
    let config = test_config(temp_dir.path());

    let hidden = write_file(temp_dir.path(), ".hidden", "hidden content");
    let normal = write_file(temp_dir.path(), "normal.txt", "normal content");

    let store = store_with(&[(&hidden, "hidden content"), (&normal, "normal content")]);

    let result = process_reference("@.", &config, false, &store).unwrap();
    assert!(result.contains("normal.txt"));
    assert!(!result.contains(".hidden"));

    let result = process_reference("@!.", &config, true, &store).unwrap();
    assert!(result.contains("normal content"));
    assert!(!result.contains("hidden content"));
}

#[test]
fn test_process_template_empty() {
    let temp_dir = tempfile::TempDir::new().unwrap();
    let config = test_config(temp_dir.path());
    let store = FileStore::new();

    let result = process_template("", &config, &store).unwrap();
    assert_eq!(result, "");

    let result = process_template("No references", &config, &store).unwrap();
    assert_eq!(result, "No references");
}

#[test]
fn test_process_template_position_preservation() {
    let temp_dir = tempfile::TempDir::new().unwrap();
    let config = test_config(temp_dir.path());

    let file = write_file(temp_dir.path(), "test.txt", "TEST");
    let store = store_with(&[(&file, "TEST")]);

    let template = "A{{ @test.txt }}B{{ @test.txt }}C";
    let result = process_template(template, &config, &store).unwrap();

    assert!(result.starts_with('A'));
    assert!(result.contains('B'));
    assert!(result.ends_with('C'));
    assert_eq!(result.matches("TEST").count(), 2);
}

#[test]
fn test_read_file_contents() {
    let temp_dir = tempfile::TempDir::new().unwrap();

    let file = write_file(temp_dir.path(), "test.txt", "test content");
    let store = store_with(&[(&file, "test content")]);

    let result = read_file_contents(&canon(&file), &store);
    assert!(result.is_ok());
    assert_eq!(result.unwrap(), "test content");

    let missing = format!("{}/nonexistent.txt", canon(temp_dir.path()));
    let result = read_file_contents(&missing, &store);
    assert!(matches!(result, Err(TextconError::FileNotFound { .. })));

    let dir = make_subdir(temp_dir.path(), "dir");
    let result = read_file_contents(&canon(&dir), &store);
    assert!(matches!(result, Err(TextconError::FileNotFound { .. })));
}

#[test]
fn test_read_file_contents_empty() {
    let temp_dir = tempfile::TempDir::new().unwrap();

    let file = write_file(temp_dir.path(), "empty.txt", "");
    let store = store_with(&[(&file, "")]);

    let result = read_file_contents(&canon(&file), &store);
    assert!(result.is_ok());
    assert_eq!(result.unwrap(), "");
}

#[test]
fn test_read_file_contents_unicode() {
    let temp_dir = tempfile::TempDir::new().unwrap();

    let content = "Hello 世界 🌍 Здравствуй";
    let file = write_file(temp_dir.path(), "unicode.txt", content);
    let store = store_with(&[(&file, content)]);

    let result = read_file_contents(&canon(&file), &store);
    assert!(result.is_ok());
    assert_eq!(result.unwrap(), content);
}

#[test]
fn test_read_file_contents_unloaded_is_io_error() {
    let temp_dir = tempfile::TempDir::new().unwrap();

    let file = write_file(temp_dir.path(), "test.txt", "test content");
    let store = FileStore::new();

    let result = read_file_contents(&canon(&file), &store);
    assert!(matches!(result, Err(TextconError::Io(_))));
}

#[test]
fn test_process_template_file() {
    let temp_dir = tempfile::TempDir::new().unwrap();
    let config = test_config(temp_dir.path());

    let inner = write_file(temp_dir.path(), "inner.txt", "INNER");
    let tpl = write_file(temp_dir.path(), "template.txt", "[{{ @inner.txt }}]");

    let mut store = store_with(&[(&inner, "INNER")]);
    store.insert(canon(&tpl), "[{{ @inner.txt }}]".to_string());

    let mut config2 = config.clone();
    config2.add_path_comments = false;
    let result = process_template_file(&canon(&tpl), &config2, &store).unwrap();
    assert_eq!(result, "[INNER]");
}

#[test]
fn test_stitch_replacements_values() {
    let template = "A{{ @x }}B{{ @y }}C";
    let refs = textcon::find_references(template).unwrap();
    let reps = vec!["ONE".to_string(), "TWO".to_string()];
    let out = textcon::stitch_replacements(template, &refs, &reps);
    assert_eq!(out, "AONEBTWOC");

    let refs = textcon::find_references("plain").unwrap();
    let out = textcon::stitch_replacements("plain", &refs, &vec![]);
    assert_eq!(out, "plain");
}

#[test]
fn test_not_found_error_follows_reference_shape() {
    let path = "/sandbox/missing".to_string();
    assert!(matches!(
        textcon::not_found_error("@missing/", path.clone()),
        TextconError::DirectoryNotFound { .. }
    ));
    assert!(matches!(
        textcon::not_found_error("@.", path.clone()),
        TextconError::DirectoryNotFound { .. }
    ));
    assert!(matches!(
        textcon::not_found_error("@!", path.clone()),
        TextconError::DirectoryNotFound { .. }
    ));
    assert!(matches!(
        textcon::not_found_error("@missing.txt", path.clone()),
        TextconError::FileNotFound { .. }
    ));
    assert!(matches!(
        textcon::not_found_error("@!missing.txt", path),
        TextconError::FileNotFound { .. }
    ));
}
