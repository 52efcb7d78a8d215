use textcon::TextconError;
use textcon::format_as_html;
use textcon::format_as_markdown;
use textcon::u64_to_string;

#[test]
fn test_error_display() {
    let err = TextconError::FileNotFound { path: "/test/file.txt".to_string() };
    assert_eq!(err.message(), "File not found: /test/file.txt");

    let err = TextconError::DirectoryNotFound { path: "/test/dir".to_string() };
    assert_eq!(err.message(), "Directory not found: /test/dir");

    let err = TextconError::InvalidReference { reference: "bad_ref".to_string() };
    assert_eq!(err.message(), "Invalid reference format: bad_ref");

    let err = TextconError::TemplateParse {
        position: 42,
        message: "unexpected token".to_string(),
    };
    assert_eq!(
        err.message(),
        "Template parsing error at position 42: unexpected token"
    );

    let err = TextconError::PathTraversal { path: "/etc/passwd".to_string() };
    assert!(err.message().contains("Path traversal detected"));

    let err = TextconError::FileSizeExceeded {
        path: "large.txt".to_string(),
        size: 100_000,
        max_size: 65_536,
    };
    assert!(err.message().contains("65536"));
    assert!(err.message().contains("100000"));
    assert!(err.message().contains("@!large.txt"));
}

#[test]
fn test_error_io_message() {
    let err = TextconError::Io("test".to_string());
    assert_eq!(err.message(), "IO error: test");
    assert!(matches!(err, TextconError::Io(_)));
}

#[test]
fn test_error_walk_and_pattern_messages() {
    let err = TextconError::Walk("loop detected".to_string());
    assert_eq!(err.message(), "Directory traversal error: loop detected");

    let err = TextconError::Pattern("bad glob".to_string());
    assert_eq!(err.message(), "Pattern error: bad glob");
}

#[test]
fn test_size_hint_uses_file_name() {
    let err = TextconError::FileSizeExceeded {
        path: "/some/dir/big.log".to_string(),
        size: 2,
        max_size: 1,
    };
    assert!(err.message().contains("Use @!big.log to force inclusion."));
}

#[test]
fn test_u64_to_string_values() {
    assert_eq!(u64_to_string(0), "0");
    assert_eq!(u64_to_string(7), "7");
    assert_eq!(u64_to_string(10), "10");
    assert_eq!(u64_to_string(65536), "65536");
    assert_eq!(u64_to_string(u64::MAX), "18446744073709551615");
}

#[test]
fn test_format_as_markdown() {
    assert_eq!(format_as_markdown("hello"), "```\nhello\n```");
    assert_eq!(format_as_markdown(""), "```\n\n```");
}

#[test]
fn test_format_as_html() {
    assert_eq!(
        format_as_html("a < b && c > d"),
        "<pre><code>a &lt; b &amp;&amp; c &gt; d</code></pre>"
    );
    assert_eq!(format_as_html("plain"), "<pre><code>plain</code></pre>");
}
