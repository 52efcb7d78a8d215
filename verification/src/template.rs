//! The content expander and template compositor: expands one reference into
//! its replacement text (file contents, size-gated; a directory's tree; or a
//! forced deep inclusion of tree plus file contents), and splices the
//! replacements back into the template without corrupting the offsets of the
//! spans still to be processed.

use vstd::prelude::*;

use crate::error::TextconError;
use crate::error::message_spec;
use crate::scanner::find_references;
use crate::scanner::scan_spec;
use crate::store::FileStore;
use crate::paths::rel_to_base;
use crate::paths::relative_to;
use crate::text::str_to_chars;
use crate::text::chars_to_string;
use crate::text::sub_chars;
use crate::text::append_chars;
use crate::text::split_lines;
use crate::text::split_lines_exec;
use crate::text::string_seq_views;
use crate::text::string_views;
use crate::text::join_with;
use crate::text::lemma_join_with_push;

verus! {

/// Maximum file size in bytes before the force syntax is required.
pub const MAX_FILE_SIZE: u64 = 64 * 1024;

/// Configuration for template processing.
#[derive(Debug, Clone)]
pub struct TemplateConfig {
    /// The sandbox root against which references resolve.
    pub base_dir: String,
    /// How many directory levels a tree rendering descends; unlimited when
    /// absent.
    pub max_tree_depth: Option<usize>,
    /// Whether file contents are included inline.
    pub inline_contents: bool,
    /// Whether expanded blocks carry a provenance header.
    pub add_path_comments: bool,
    /// Byte ceiling for non-forced file inclusion.
    pub max_file_size: u64,
    /// Glob patterns, relative to `base_dir`, hiding matching paths.
    pub exclude: Option<Vec<String>>,
    /// Whether tree walks honour ignore files.
    pub use_gitignore: bool,
}

impl Default for TemplateConfig {
    /// The default configuration: the current directory as sandbox root,
    /// trees five levels deep, contents inline with provenance headers, the
    /// standard size ceiling, no exclusions, ignore files not consulted.
    fn default() -> (r: TemplateConfig)
        ensures
            r.base_dir@ == "."@,
            r.max_tree_depth == Some(5usize),
            r.inline_contents,
            r.add_path_comments,
            r.max_file_size == MAX_FILE_SIZE,
            r.exclude is None,
            !r.use_gitignore,
    {
        TemplateConfig {
            base_dir: String::from_str("."),
            max_tree_depth: Some(5),
            inline_contents: true,
            add_path_comments: true,
            max_file_size: MAX_FILE_SIZE,
            exclude: None,
            use_gitignore: false,
        }
    }
}

/// The provenance header over an included file.
pub open spec fn file_header(rel: Seq<char>) -> Seq<char> {
    "<!-- File: "@ + rel + " -->\n"@
}

/// The replacement text for a file: its contents, under a provenance header
/// when configured.
pub open spec fn file_block(add_comments: bool, rel: Seq<char>, contents: Seq<char>) -> Seq<char> {
    if add_comments {
        file_header(rel) + contents
    } else {
        contents
    }
}

/// Reads a file's contents: the path must name an existing file, and the
/// outcome recorded in the store for it is returned — contents as they were
/// read, or the read failure as an `Io` error. When the store records
/// contents, the only failure left is the existence check; when it records a
/// read failure, that failure's message comes back.
pub fn read_file_contents(path: &str, store: &FileStore) -> (r: Result<String, TextconError>)
    ensures
        r matches Ok(c) ==> store.lookup(path@) == Some(Ok::<Seq<char>, Seq<char>>(c@)),
        store.lookup(path@) matches Some(Ok(c)) ==> (r matches Ok(s) && s@ == c) || (r matches Err(
            TextconError::FileNotFound { path: q },
        ) && q@ == path@),
        store.lookup(path@) matches Some(Err(m)) ==> (r matches Err(TextconError::Io(mm)) && mm@
            == m) || (r matches Err(TextconError::FileNotFound { path: q }) && q@ == path@),
        store.lookup(path@) is None ==> r is Err,
        r matches Err(e) ==> e matches TextconError::FileNotFound { .. } || e
            matches TextconError::Io(_),
        r matches Err(TextconError::FileNotFound { path: q }) ==> q@ == path@,
{
    if !crate::fsio::path_is_file(path) {
        return Err(TextconError::FileNotFound { path: String::from_str(path) });
    }
    match store.get(path) {
        Some(Ok(c)) => Ok(c),
        Some(Err(m)) => Err(TextconError::Io(m)),
        None => Err(TextconError::Io(String::from_str("file contents not loaded"))),
    }
}

/// Expands a file reference: the size gate refuses a file over the ceiling
/// unless forced; otherwise the contents stand, under a provenance header
/// when configured, the path shown relative to the sandbox root.
pub fn process_file_reference(
    path: &str,
    config: &TemplateConfig,
    force: bool,
    store: &FileStore,
) -> (r: Result<String, TextconError>)
    ensures
        force ==> !(r matches Err(TextconError::FileSizeExceeded { .. })),
        r matches Err(TextconError::FileSizeExceeded { path: p, size, max_size }) ==> !force
            && max_size == config.max_file_size && size > config.max_file_size && p@ == path@,
        r matches Ok(s) ==> store.lookup(path@) matches Some(Ok(c)) && s@ == file_block(
            config.add_path_comments,
            rel_to_base(path@, config.base_dir@),
            c,
        ),
        store.lookup(path@) is None ==> r is Err,
        r matches Err(e) ==> e matches TextconError::FileNotFound { .. } || e
            matches TextconError::Io(_) || e matches TextconError::FileSizeExceeded { .. },
        r matches Err(TextconError::FileNotFound { path: q }) ==> q@ == path@,
{
    let size = match crate::fsio::file_size(path) {
        Ok(s) => s,
        Err(m) => {
            return Err(TextconError::Io(m));
        },
    };
    if !force && size > config.max_file_size {
        return Err(
            TextconError::FileSizeExceeded {
                path: String::from_str(path),
                size,
                max_size: config.max_file_size,
            },
        );
    }
    let contents = match read_file_contents(path, store) {
        Ok(c) => c,
        Err(e) => {
            return Err(e);
        },
    };
    if config.add_path_comments {
        let pv = str_to_chars(path);
        let bv = str_to_chars(config.base_dir.as_str());
        let rel = relative_to(&pv, &bv);
        let rel_str = chars_to_string(&rel);
        let mut s = String::new();
        s.append("<!-- File: ");
        s.append(rel_str.as_str());
        s.append(" -->\n");
        s.append(contents.as_str());
        proof {
            assert(s@ =~= file_block(true, rel_to_base(path@, config.base_dir@), contents@));
        }
        Ok(s)
    } else {
        Ok(contents)
    }
}

/// The path shown for a directory: its sandbox-relative form, or `.` for the
/// root itself.
pub open spec fn shown_rel(path: Seq<char>, base: Seq<char>) -> Seq<char> {
    if rel_to_base(path, base).len() == 0 {
        seq!['.']
    } else {
        rel_to_base(path, base)
    }
}

/// The replacement text for a directory reference: its tree, under a
/// provenance header when configured.
pub open spec fn dir_block(add_comments: bool, shown: Seq<char>, tree: Seq<char>) -> Seq<char> {
    if add_comments {
        "<!-- Directory tree: "@ + shown + " -->\n"@ + tree
    } else {
        tree
    }
}

/// Expands a directory reference into its tree rendering.
pub fn process_directory_reference(path: &str, config: &TemplateConfig) -> (r: Result<
    String,
    TextconError,
>)
    ensures
        r matches Ok(s) ==> exists|tree: Seq<char>|
            #[trigger] crate::tree::tree_rendering_of(
                tree,
                path@,
                crate::tree::exclude_views(config.exclude),
                config.base_dir@,
                config.max_tree_depth,
                config.use_gitignore,
            ) && crate::tree::rendered_tree(tree) && s@ == dir_block(
                config.add_path_comments,
                shown_rel(path@, config.base_dir@),
                tree,
            ),
        r matches Err(e) ==> e matches TextconError::DirectoryNotFound { .. } || e
            matches TextconError::Io(_) || e matches TextconError::Pattern(_),
        r matches Err(TextconError::DirectoryNotFound { path: q }) ==> q@ == path@,
{
    let tree = match crate::tree::generate_directory_tree(
        path,
        config.max_tree_depth,
        &config.exclude,
        config.base_dir.as_str(),
        config.use_gitignore,
    ) {
        Ok(t) => t,
        Err(e) => {
            return Err(e);
        },
    };
    if config.add_path_comments {
        let pv = str_to_chars(path);
        let bv = str_to_chars(config.base_dir.as_str());
        let rel = relative_to(&pv, &bv);
        let shown = if rel.len() == 0 {
            let mut d: Vec<char> = Vec::new();
            d.push('.');
            proof {
                assert(d@ =~= seq!['.']);
            }
            d
        } else {
            rel
        };
        let shown_str = chars_to_string(&shown);
        let mut s = String::new();
        s.append("<!-- Directory tree: ");
        s.append(shown_str.as_str());
        s.append(" -->\n");
        s.append(tree.as_str());
        proof {
            assert(s@ =~= dir_block(true, shown_rel(path@, config.base_dir@), tree@));
        }
        Ok(s)
    } else {
        Ok(tree)
    }
}

/// Whether a line opens an HTML-style comment (a provenance header line).
pub open spec fn line_is_comment(l: Seq<char>) -> bool {
    l.len() >= 4 && l.subrange(0, 4) == seq!['<', '!', '-', '-']
}

/// The lines with the leading run of comment lines removed.
pub open spec fn drop_comment_lines(ls: Seq<Seq<char>>) -> Seq<Seq<char>>
    decreases ls.len(),
{
    if ls.len() > 0 && line_is_comment(ls[0]) {
        drop_comment_lines(ls.skip(1))
    } else {
        ls
    }
}

/// A file's contents prepared for deep inclusion: split into lines, the
/// leading comment lines dropped, the rest rejoined (the final line ending
/// not restored).
pub open spec fn cleaned_block(contents: Seq<char>) -> Seq<char> {
    join_with(drop_comment_lines(split_lines(contents)), '\n')
}

fn line_is_comment_exec(l: &Vec<char>) -> (r: bool)
    ensures
        r == line_is_comment(l@),
{
    let r = l.len() >= 4 && l[0] == '<' && l[1] == '!' && l[2] == '-' && l[3] == '-';
    proof {
        if l@.len() >= 4 {
            assert(l@.subrange(0, 4) =~= seq![l@[0], l@[1], l@[2], l@[3]]);
        }
    }
    r
}

fn clean_block(contents: &Vec<char>) -> (r: Vec<char>)
    ensures
        r@ == cleaned_block(contents@),
{
    let lines = split_lines_exec(contents);
    let ghost ls = split_lines(contents@);
    let mut start: usize = 0;
    proof {
        assert(string_seq_views(lines@).skip(0) =~= string_seq_views(lines@));
        assert(ls == string_seq_views(lines@));
    }
    while start < lines.len() && line_is_comment_exec(&lines[start])
        invariant
            start <= lines@.len(),
            ls == string_seq_views(lines@),
            lines@.len() == ls.len(),
            forall|k: int| 0 <= k < ls.len() ==> (#[trigger] lines@[k])@ == ls[k],
            drop_comment_lines(ls) == drop_comment_lines(ls.skip(start as int)),
        decreases lines@.len() - start,
    {
        proof {
            assert(ls.skip(start as int)[0] == ls[start as int]);
            assert(ls.skip(start as int).skip(1) =~= ls.skip(start as int + 1));
        }
        start = start + 1;
    }
    proof {
        if start < lines@.len() {
            assert(ls.skip(start as int)[0] == ls[start as int]);
        }
        assert(drop_comment_lines(ls.skip(start as int)) == ls.skip(start as int));
    }
    let ghost kept = ls.skip(start as int);
    let mut out: Vec<char> = Vec::new();
    let mut i: usize = start;
    proof {
        assert(kept.take(0) =~= Seq::<Seq<char>>::empty());
    }
    while i < lines.len()
        invariant
            start <= i <= lines@.len(),
            lines@.len() == ls.len(),
            forall|k: int| 0 <= k < ls.len() ==> (#[trigger] lines@[k])@ == ls[k],
            kept == ls.skip(start as int),
            out@ == join_with(kept.take(i - start as int), '\n'),
        decreases lines@.len() - i,
    {
        proof {
            lemma_join_with_push(kept.take(i - start as int), kept[i - start as int], '\n');
            assert(kept.take(i - start as int + 1) =~= kept.take(i - start as int).push(
                kept[i - start as int],
            ));
            assert(kept[i - start as int] == ls[i as int]);
        }
        if i > start {
            out.push('\n');
        }
        let ghost before = out@;
        append_chars(&mut out, &lines[i]);
        proof {
            if i == start {
                assert(out@ =~= kept[0]);
            }
        }
        i = i + 1;
    }
    proof {
        assert(kept.take(lines@.len() - start as int) =~= kept);
    }
    out
}

/// The section for one successfully read file in a deep inclusion.
pub open spec fn file_section_ok(rel: Seq<char>, contents: Seq<char>) -> Seq<char> {
    "### "@ + rel + "\n\n```\n"@ + cleaned_block(contents) + "\n```\n\n"@
}

/// The inline note for one failed read in a deep inclusion.
pub open spec fn file_section_err(rel: Seq<char>, msg: Seq<char>) -> Seq<char> {
    "### "@ + rel + "\n\nError reading file: "@ + msg + "\n\n"@
}

/// The header over the stitched file sections of a deep inclusion.
pub open spec fn files_note(add_comments: bool, rel: Seq<char>) -> Seq<char> {
    if add_comments {
        "<!-- Files in "@ + rel + " -->\n\n"@
    } else {
        Seq::<char>::empty()
    }
}

/// All the pieces, concatenated in order.
pub open spec fn concat_all(ss: Seq<Seq<char>>) -> Seq<char>
    decreases ss.len(),
{
    if ss.len() == 0 {
        Seq::empty()
    } else {
        ss[0] + concat_all(ss.skip(1))
    }
}

pub proof fn lemma_concat_all_push(ss: Seq<Seq<char>>, x: Seq<char>)
    ensures
        concat_all(ss.push(x)) == concat_all(ss) + x,
    decreases ss.len(),
{
    if ss.len() == 0 {
        assert(ss.push(x)[0] == x);
        assert(ss.push(x).skip(1) =~= Seq::<Seq<char>>::empty());
        assert(concat_all(Seq::<Seq<char>>::empty()) == Seq::<char>::empty());
        assert(concat_all(ss.push(x)) =~= x);
        assert(concat_all(ss) + x =~= x);
    } else {
        assert(ss.push(x)[0] == ss[0]);
        assert(ss.push(x).skip(1) =~= ss.skip(1).push(x));
        lemma_concat_all_push(ss.skip(1), x);
        assert(concat_all(ss.push(x)) == ss[0] + (concat_all(ss.skip(1)) + x));
        assert(ss[0] + (concat_all(ss.skip(1)) + x) =~= (ss[0] + concat_all(ss.skip(1))) + x);
    }
}

/// Whether a path below the walked root is free of hidden segments: no
/// component of its root-relative form begins with `.`.
pub open spec fn not_hidden_below(p: Seq<char>, root: Seq<char>) -> bool {
    !crate::exclude::any_hidden(crate::paths::segs_of(crate::paths::rel_to_base(p, root)))
}

/// The walked entries a deep inclusion stitches, in walk order: the
/// successful entries not flagged as directories, with no hidden segment
/// below the walked root.
pub open spec fn deep_files_of(
    entries: Seq<Result<(String, bool), String>>,
    root: Seq<char>,
) -> Seq<(String, bool)>
    decreases entries.len(),
{
    if entries.len() == 0 {
        Seq::empty()
    } else {
        let rest = deep_files_of(entries.skip(1), root);
        match entries[0] {
            Ok(e) => {
                if !e.1 && not_hidden_below(e.0@, root) {
                    seq![e] + rest
                } else {
                    rest
                }
            },
            Err(_) => rest,
        }
    }
}

proof fn lemma_deep_files_of_push(
    entries: Seq<Result<(String, bool), String>>,
    x: Result<(String, bool), String>,
    root: Seq<char>,
)
    ensures
        deep_files_of(entries.push(x), root) == deep_files_of(entries, root) + (match x {
            Ok(e) => {
                if !e.1 && not_hidden_below(e.0@, root) {
                    seq![e]
                } else {
                    Seq::empty()
                }
            },
            Err(_) => Seq::empty(),
        }),
    decreases entries.len(),
{
    let tail = (match x {
        Ok(e) => {
            if !e.1 && not_hidden_below(e.0@, root) {
                seq![e]
            } else {
                Seq::<(String, bool)>::empty()
            }
        },
        Err(_) => Seq::<(String, bool)>::empty(),
    });
    if entries.len() == 0 {
        assert(entries.push(x)[0] == x);
        assert(entries.push(x).skip(1) =~= Seq::<Result<(String, bool), String>>::empty());
        assert(deep_files_of(Seq::<Result<(String, bool), String>>::empty(), root)
            =~= Seq::<(String, bool)>::empty());
        assert(deep_files_of(entries, root) =~= Seq::<(String, bool)>::empty());
        assert(deep_files_of(entries.push(x), root) =~= tail);
        assert(deep_files_of(entries.push(x), root) =~= deep_files_of(entries, root) + tail);
    } else {
        assert(entries.push(x)[0] == entries[0]);
        assert(entries.push(x).skip(1) =~= entries.skip(1).push(x));
        lemma_deep_files_of_push(entries.skip(1), x, root);
        match entries[0] {
            Ok(e) => {
                if !e.1 && not_hidden_below(e.0@, root) {
                    assert(seq![e] + (deep_files_of(entries.skip(1), root) + tail) =~= (seq![e]
                        + deep_files_of(entries.skip(1), root)) + tail);
                }
            },
            Err(_) => {},
        }
    }
}

/// The section a deep inclusion writes for one file path: either the file
/// block of its recorded contents, or an inline error note carrying a read
/// failure's message.
pub open spec fn section_for(
    config: TemplateConfig,
    store: FileStore,
    p: Seq<char>,
    sec: Seq<char>,
) -> bool {
    let rel = rel_to_base(p, config.base_dir@);
    ||| (store.lookup(p) matches Some(Ok(c)) && sec == file_section_ok(
        rel,
        file_block(config.add_path_comments, rel, c),
    ))
    ||| (exists|e: TextconError|
        (e matches TextconError::Io(_) || e matches TextconError::FileNotFound { .. }) && sec
            == file_section_err(rel, message_spec(&e)))
}

/// The whole replacement text of a forced directory reference, for one walk
/// outcome: the directory block over a characterized tree, a newline, the
/// files header when configured, then one section per stitched file entry,
/// each the section for that entry's path.
pub open spec fn deep_block_of(
    config: TemplateConfig,
    store: FileStore,
    path: Seq<char>,
    entries: Seq<Result<(String, bool), String>>,
    rep: Seq<char>,
) -> bool {
    exists|tree: Seq<char>, sections: Seq<Seq<char>>|
        #![trigger crate::tree::rendered_tree(tree), concat_all(sections)]
        {
            &&& crate::tree::tree_rendering_of(
                tree,
                path,
                crate::tree::exclude_views(config.exclude),
                config.base_dir@,
                config.max_tree_depth,
                config.use_gitignore,
            )
            &&& crate::tree::rendered_tree(tree)
            &&& sections.len() == deep_files_of(entries, path).len()
            &&& (forall|k: int|
                0 <= k < sections.len() ==> section_for(
                    config,
                    store,
                    deep_files_of(entries, path)[k].0@,
                    #[trigger] sections[k],
                ))
            &&& rep == dir_block(config.add_path_comments, shown_rel(path, config.base_dir@), tree)
                + seq!['\n'] + files_note(config.add_path_comments, rel_to_base(path, config.base_dir@))
                + concat_all(sections)
        }
}

/// The remainder of a reference after its `@` or `@!` marker.
pub open spec fn after_marker(reference: Seq<char>) -> Seq<char> {
    if reference.len() >= 2 && reference[1] == '!' {
        reference.skip(2)
    } else {
        reference.skip(1)
    }
}

/// Whether a reference's shape announces a directory: the remainder after the
/// marker is empty, ends with a separator, or is the bare `.`.
pub open spec fn dir_intended(reference: Seq<char>) -> bool {
    let after = after_marker(reference);
    after.len() == 0 || after.last() == '/' || after == seq!['.']
}

/// The error for a resolved path that names neither an existing file nor an
/// existing directory: the reference's shape, not the filesystem, picks the
/// kind.
pub fn not_found_error(reference: &str, path: String) -> (r: TextconError)
    requires
        reference@.len() >= 1,
    ensures
        dir_intended(reference@) ==> (r matches TextconError::DirectoryNotFound { path: q } && q@
            == path@),
        !dir_intended(reference@) ==> (r matches TextconError::FileNotFound { path: q } && q@
            == path@),
{
    let rv = str_to_chars(reference);
    let after = if rv.len() >= 2 && rv[1] == '!' {
        let a = sub_chars(&rv, 2, rv.len());
        proof {
            assert(a@ =~= after_marker(reference@));
        }
        a
    } else {
        let a = sub_chars(&rv, 1, rv.len());
        proof {
            assert(a@ =~= after_marker(reference@));
        }
        a
    };
    let dir_like = (after.len() > 0 && after[after.len() - 1] == '/') || (after.len() == 1
        && after[0] == '.') || after.len() == 0;
    proof {
        if after@.len() == 1 && after@[0] == '.' {
            assert(after@ =~= seq!['.']);
        }
        assert(dir_like == dir_intended(reference@));
    }
    if dir_like {
        TextconError::DirectoryNotFound { path }
    } else {
        TextconError::FileNotFound { path }
    }
}

/// What a successful expansion of one reference is, at its resolved path:
/// the file block of the path's recorded contents; a directory block over
/// the path's characterized tree; or, forced, the path's deep block for some
/// walk outcome.
pub open spec fn expansion_for(
    config: TemplateConfig,
    force: bool,
    store: FileStore,
    p: Seq<char>,
    rep: Seq<char>,
) -> bool {
    ||| (store.lookup(p) matches Some(Ok(c)) && rep == file_block(
        config.add_path_comments,
        rel_to_base(p, config.base_dir@),
        c,
    ))
    ||| (exists|tree: Seq<char>|
        #![trigger crate::tree::rendered_tree(tree)]
        crate::tree::tree_rendering_of(
            tree,
            p,
            crate::tree::exclude_views(config.exclude),
            config.base_dir@,
            config.max_tree_depth,
            config.use_gitignore,
        ) && crate::tree::rendered_tree(tree) && rep == dir_block(
            config.add_path_comments,
            shown_rel(p, config.base_dir@),
            tree,
        ))
    ||| (force && exists|entries: Seq<Result<(String, bool), String>>|
        #![trigger deep_block_of(config, store, p, entries, rep)]
        crate::tree::walk_entry_facts(entries, p, config.max_tree_depth, false) && deep_block_of(
            config,
            store,
            p,
            entries,
            rep,
        ))
}

/// What a successful expansion of one reference is: the expansion of some
/// path lying within the sandbox root.
pub open spec fn expansion_ok(
    config: TemplateConfig,
    force: bool,
    store: FileStore,
    rep: Seq<char>,
) -> bool {
    exists|p: Seq<char>|
        #![trigger crate::paths::path_within(p, config.base_dir@)]
        crate::paths::path_within(p, config.base_dir@) && expansion_for(config, force, store, p, rep)
}

fn append_ok_section(out: &mut Vec<char>, rel: &Vec<char>, contents: &str)
    ensures
        final(out)@ == old(out)@ + file_section_ok(rel@, contents@),
{
    let ghost head = out@;
    let lead = str_to_chars("### ");
    append_chars(out, &lead);
    append_chars(out, rel);
    let fence = str_to_chars("\n\n```\n");
    append_chars(out, &fence);
    let cv = str_to_chars(contents);
    let cleaned = clean_block(&cv);
    append_chars(out, &cleaned);
    let close = str_to_chars("\n```\n\n");
    append_chars(out, &close);
    proof {
        assert(out@ =~= head + file_section_ok(rel@, contents@));
    }
}

fn append_err_section(out: &mut Vec<char>, rel: &Vec<char>, e: &TextconError)
    ensures
        final(out)@ == old(out)@ + file_section_err(rel@, message_spec(e)),
{
    let ghost head = out@;
    let lead = str_to_chars("### ");
    append_chars(out, &lead);
    append_chars(out, rel);
    let mid = str_to_chars("\n\nError reading file: ");
    append_chars(out, &mid);
    let msg = e.message();
    let mv = str_to_chars(msg.as_str());
    append_chars(out, &mv);
    let close = str_to_chars("\n\n");
    append_chars(out, &close);
    proof {
        assert(out@ =~= head + file_section_err(rel@, message_spec(e)));
    }
}

/// Expands a forced directory reference: the tree rendering, then one
/// section per walked entry not flagged as a directory, with no hidden
/// segment in its path below the directory — the entry's sandbox-relative
/// path and its contents, size gating bypassed. A failed read is recorded
/// inline as an error note; it does not abort the expansion.
pub fn process_directory_deep(
    path: &str,
    config: &TemplateConfig,
    store: &FileStore,
) -> (r: Result<String, TextconError>)
    ensures
        r matches Ok(s) ==> exists|entries: Seq<Result<(String, bool), String>>|
            #[trigger] crate::tree::walk_entry_facts(entries, path@, config.max_tree_depth, false)
                && deep_block_of(*config, *store, path@, entries, s@),
        r matches Err(e) ==> e matches TextconError::DirectoryNotFound { .. } || e
            matches TextconError::Io(_) || e matches TextconError::Pattern(_) || e
            matches TextconError::Walk(_),
        r matches Err(TextconError::DirectoryNotFound { path: q }) ==> q@ == path@,
{
    let tree_part = match process_directory_reference(path, config) {
        Ok(t) => t,
        Err(e) => {
            return Err(e);
        },
    };
    let ghost tree_view = choose|tree: Seq<char>|
        #[trigger] crate::tree::tree_rendering_of(
                tree,
                path@,
                crate::tree::exclude_views(config.exclude),
                config.base_dir@,
                config.max_tree_depth,
                config.use_gitignore,
            ) && crate::tree::rendered_tree(tree) && tree_part@ == dir_block(
            config.add_path_comments,
            shown_rel(path@, config.base_dir@),
            tree,
        );
    let mut out: Vec<char> = str_to_chars(tree_part.as_str());
    out.push('\n');
    let bv = str_to_chars(config.base_dir.as_str());
    if config.add_path_comments {
        let pv = str_to_chars(path);
        let rel = relative_to(&pv, &bv);
        let lead = str_to_chars("<!-- Files in ");
        append_chars(&mut out, &lead);
        append_chars(&mut out, &rel);
        let close = str_to_chars(" -->\n\n");
        append_chars(&mut out, &close);
    }
    let ghost head = out@;
    proof {
        assert(head =~= tree_part@ + seq!['\n'] + files_note(
            config.add_path_comments,
            rel_to_base(path@, config.base_dir@),
        ));
    }
    let ghost mut sections: Seq<Seq<char>> = Seq::empty();
    proof {
        assert(head + concat_all(sections) =~= head);
    }
    let eff_depth: usize = match config.max_tree_depth {
        Some(d) => d,
        None => usize::MAX,
    };
    let entries: Vec<Result<(String, bool), String>> = if eff_depth == 0 {
        Vec::new()
    } else {
        crate::fsio::walk_entries(path, eff_depth, false)
    };
    let mut i: usize = 0;
    let rv = str_to_chars(path);
    proof {
        assert(entries@.take(0) =~= Seq::<Result<(String, bool), String>>::empty());
        assert(deep_files_of(entries@.take(0), path@) =~= Seq::<(String, bool)>::empty());
    }
    while i < entries.len()
        invariant
            i <= entries@.len(),
            bv@ == config.base_dir@,
            rv@ == path@,
            out@ == head + concat_all(sections),
            sections.len() == deep_files_of(entries@.take(i as int), path@).len(),
            forall|k: int|
                0 <= k < sections.len() ==> section_for(
                    *config,
                    *store,
                    deep_files_of(entries@.take(i as int), path@)[k].0@,
                    #[trigger] sections[k],
                ),
        decreases entries@.len() - i,
    {
        proof {
            lemma_deep_files_of_push(entries@.take(i as int), entries@[i as int], path@);
            assert(entries@.take(i as int + 1) =~= entries@.take(i as int).push(
                entries@[i as int],
            ));
        }
        let ghost files_before = deep_files_of(entries@.take(i as int), path@);
        match &entries[i] {
            Err(m) => {
                return Err(TextconError::Walk(m.clone()));
            },
            Ok(entry) => {
                if !entry.1 {
                    let pv = str_to_chars(entry.0.as_str());
                    let rel_root = crate::paths::relative_to(&pv, &rv);
                    let segs_root = crate::paths::split_segments(&rel_root);
                    let hidden = crate::exclude::any_hidden_exec(&segs_root);
                    proof {
                        assert(crate::paths::r_views(segs_root@) =~= crate::paths::segs_of(
                            crate::paths::rel_to_base(pv@, path@),
                        ));
                        assert(entries@[i as int] matches Ok(e) && e.0@ == pv@ && e.1 == entry.1);
                    }
                    if !hidden {
                        proof {
                            assert(not_hidden_below(pv@, path@));
                            assert(deep_files_of(entries@.take(i as int + 1), path@)
                                =~= files_before.push((entry.0, entry.1)));
                        }
                        let rel = relative_to(&pv, &bv);
                        match process_file_reference(entry.0.as_str(), config, true, store) {
                            Ok(contents) => {
                                append_ok_section(&mut out, &rel, contents.as_str());
                                proof {
                                    lemma_concat_all_push(
                                        sections,
                                        file_section_ok(rel@, contents@),
                                    );
                                    sections = sections.push(
                                        file_section_ok(rel@, contents@),
                                    );
                                    assert(rel@ == rel_to_base(pv@, config.base_dir@));
                                    assert(store.lookup(pv@) matches Some(Ok(c)) && contents@
                                        == file_block(
                                        config.add_path_comments,
                                        rel_to_base(pv@, config.base_dir@),
                                        c,
                                    ));
                                    assert(section_for(
                                        *config,
                                        *store,
                                        pv@,
                                        file_section_ok(rel@, contents@),
                                    ));
                                    assert(out@ =~= head + concat_all(sections));
                                }
                            },
                            Err(e) => {
                                append_err_section(&mut out, &rel, &e);
                                proof {
                                    lemma_concat_all_push(
                                        sections,
                                        file_section_err(rel@, message_spec(&e)),
                                    );
                                    sections = sections.push(
                                        file_section_err(rel@, message_spec(&e)),
                                    );
                                    assert(rel@ == rel_to_base(pv@, config.base_dir@));
                                    assert(e matches TextconError::Io(_) || e
                                        matches TextconError::FileNotFound { .. });
                                    assert(section_for(
                                        *config,
                                        *store,
                                        pv@,
                                        file_section_err(rel@, message_spec(&e)),
                                    ));
                                    assert(out@ =~= head + concat_all(sections));
                                }
                            },
                        }
                    }
                }
            },
        }
        i = i + 1;
    }
    proof {
        assert(entries@.take(entries@.len() as int) =~= entries@);
        assert(deep_block_of(*config, *store, path@, entries@, out@));
        if entries@.len() == 0 {
            assert(crate::tree::walk_entry_facts(entries@, path@, config.max_tree_depth, false));
        }
        assert(crate::tree::walk_entry_facts(entries@, path@, config.max_tree_depth, false));
    }
    Ok(chars_to_string(&out))
}

/// Expands a single reference into its replacement content. A reference not
/// beginning with `@` is invalid — exactly then `InvalidReference` comes
/// back. A directory expands to its tree, or with `force` to tree plus file
/// contents; a file to its contents, size-gated unless forced. A path that
/// names neither gets `DirectoryNotFound` when its shape announces a
/// directory (trailing separator, `.`, `/` or an empty remainder),
/// `FileNotFound` otherwise.
pub fn process_reference(
    reference: &str,
    config: &TemplateConfig,
    force: bool,
    store: &FileStore,
) -> (r: Result<String, TextconError>)
    ensures
        (reference@.len() == 0 || reference@[0] != '@') <==> r matches Err(
            TextconError::InvalidReference { .. },
        ),
        r matches Err(TextconError::InvalidReference { reference: q }) ==> q@ == reference@,
        force ==> !(r matches Err(TextconError::FileSizeExceeded { .. })),
        r matches Ok(s) ==> expansion_ok(*config, force, *store, s@),
        r matches Err(e) ==> !(e matches TextconError::TemplateParse { .. }) && !(e
            matches TextconError::Walk(_) && !force),
{
    let rv = str_to_chars(reference);
    if rv.len() == 0 || rv[0] != '@' {
        return Err(TextconError::InvalidReference { reference: String::from_str(reference) });
    }
    let path = match crate::resolve::resolve_reference_path(reference, config.base_dir.as_str()) {
        Ok(p) => p,
        Err(e) => {
            return Err(e);
        },
    };
    if crate::fsio::path_is_dir(path.as_str()) {
        if force {
            let r = process_directory_deep(path.as_str(), config, store);
            proof {
                if r is Ok {
                    let entries = choose|entries: Seq<Result<(String, bool), String>>|
                        #[trigger] crate::tree::walk_entry_facts(
                            entries,
                            path@,
                            config.max_tree_depth,
                            false,
                        ) && deep_block_of(*config, *store, path@, entries, r->Ok_0@);
                    assert(deep_block_of(*config, *store, path@, entries, r->Ok_0@));
                    assert(expansion_for(*config, force, *store, path@, r->Ok_0@));
                    assert(crate::paths::path_within(path@, config.base_dir@));
                    assert(expansion_ok(*config, force, *store, r->Ok_0@));
                }
            }
            r
        } else {
            let r = process_directory_reference(path.as_str(), config);
            proof {
                if r is Ok {
                    let tree = choose|tree: Seq<char>|
                        #[trigger] crate::tree::tree_rendering_of(
                tree,
                path@,
                crate::tree::exclude_views(config.exclude),
                config.base_dir@,
                config.max_tree_depth,
                config.use_gitignore,
            ) && crate::tree::rendered_tree(tree) && r->Ok_0@ == dir_block(
                            config.add_path_comments,
                            shown_rel(path@, config.base_dir@),
                            tree,
                        );
                    assert(crate::tree::rendered_tree(tree));
                    assert(r->Ok_0@ == dir_block(
                        config.add_path_comments,
                        shown_rel(path@, config.base_dir@),
                        tree,
                    ));
                    assert(expansion_for(*config, force, *store, path@, r->Ok_0@));
                    assert(crate::paths::path_within(path@, config.base_dir@));
                    assert(expansion_ok(*config, force, *store, r->Ok_0@));
                }
            }
            r
        }
    } else if crate::fsio::path_is_file(path.as_str()) {
        let r = process_file_reference(path.as_str(), config, force, store);
        proof {
            if r is Ok {
                assert(store.lookup(path@) matches Some(Ok(c)) && r->Ok_0@ == file_block(
                    config.add_path_comments,
                    rel_to_base(path@, config.base_dir@),
                    c,
                ));
                assert(expansion_for(*config, force, *store, path@, r->Ok_0@));
                assert(crate::paths::path_within(path@, config.base_dir@));
                assert(expansion_ok(*config, force, *store, r->Ok_0@));
            }
        }
        r
    } else {
        Err(not_found_error(reference, path))
    }
}

/// The template with each scanned span replaced: the text between
/// replacements is carried over unchanged, in order.
pub open spec fn stitched(
    t: Seq<char>,
    ms: Seq<(int, int, int, int)>,
    reps: Seq<Seq<char>>,
    i: int,
    pos: int,
) -> Seq<char>
    decreases ms.len() - i when 0 <= i <= ms.len()
{
    if i >= ms.len() {
        t.subrange(pos, t.len() as int)
    } else {
        t.subrange(pos, ms[i].0) + reps[i] + stitched(t, ms, reps, i + 1, ms[i].3)
    }
}

/// Whether the k-th scanned reference of `t` carries the force marker.
pub open spec fn scan_force(t: Seq<char>, k: int) -> bool {
    let m = scan_spec(t)[k];
    m.1 + 1 < m.2 && t[m.1 + 1] == '!'
}

/// Splices one replacement over each scanned span of the template: the text
/// outside the spans is carried over unchanged, in order.
pub fn stitch_replacements(
    template: &str,
    refs: &Vec<crate::scanner::TemplateReference>,
    reps: &Vec<String>,
) -> (r: String)
    requires
        crate::scanner::refs_of_scan(template@, refs@),
        reps@.len() == refs@.len(),
    ensures
        r@ == stitched(template@, scan_spec(template@), string_views(reps@), 0, 0),
{
    let n = refs.len();
    let ghost ms = scan_spec(template@);
    let ghost rv = string_views(reps@);
    proof {
        crate::scanner::lemma_scan_from_wf(template@, 0);
    }
    let tv = str_to_chars(template);
    let mut out: Vec<char> = Vec::new();
    let mut pos: usize = 0;
    let mut i: usize = 0;
    proof {
        assert(Seq::<char>::empty() + stitched(template@, ms, rv, 0, 0) =~= stitched(
            template@,
            ms,
            rv,
            0,
            0,
        ));
    }
    while i < n
        invariant
            i <= n,
            n == refs@.len(),
            n == ms.len(),
            ms == scan_spec(template@),
            rv == string_views(reps@),
            reps@.len() == n,
            tv@ == template@,
            crate::scanner::refs_of_scan(template@, refs@),
            forall|a: int|
                0 <= a < ms.len() ==> crate::scanner::scan_entry_wf(
                    template@,
                    0,
                    #[trigger] ms[a],
                ),
            forall|a: int, b: int|
                0 <= a < b < ms.len() ==> (#[trigger] ms[a]).3 <= (#[trigger] ms[b]).0,
            i < n ==> pos <= ms[i as int].0,
            pos <= template@.len(),
            stitched(template@, ms, rv, 0, 0) == out@ + stitched(
                template@,
                ms,
                rv,
                i as int,
                pos as int,
            ),
        decreases n - i,
    {
        proof {
            assert(crate::scanner::ref_of_match(template@, refs@[i as int], ms[i as int]));
            assert(crate::scanner::scan_entry_wf(template@, 0, ms[i as int]));
        }
        let start = refs[i].start;
        let end = refs[i].end;
        let ghost before = out@;
        let gap = sub_chars(&tv, pos, start);
        append_chars(&mut out, &gap);
        let rep_chars = str_to_chars(reps[i].as_str());
        append_chars(&mut out, &rep_chars);
        proof {
            assert(rep_chars@ == rv[i as int]);
            assert(stitched(template@, ms, rv, i as int, pos as int) == template@.subrange(
                pos as int,
                ms[i as int].0,
            ) + rv[i as int] + stitched(template@, ms, rv, i as int + 1, ms[i as int].3));
            assert(out@ =~= before + (template@.subrange(pos as int, ms[i as int].0)
                + rv[i as int]));
            assert(stitched(template@, ms, rv, 0, 0) =~= out@ + stitched(
                template@,
                ms,
                rv,
                i as int + 1,
                ms[i as int].3,
            ));
        }
        pos = end;
        i = i + 1;
    }
    let tail = sub_chars(&tv, pos, tv.len());
    append_chars(&mut out, &tail);
    proof {
        assert(stitched(template@, ms, rv, n as int, pos as int) == template@.subrange(
            pos as int,
            template@.len() as int,
        ));
        assert(out@ =~= stitched(template@, ms, rv, 0, 0));
    }
    chars_to_string(&out)
}

/// The relation between a template text and a successful processing result:
/// each scanned span replaced by a valid expansion of its reference, the text
/// outside the spans unchanged.
pub open spec fn processed_of(
    t: Seq<char>,
    config: TemplateConfig,
    store: FileStore,
    out: Seq<char>,
) -> bool {
    exists|reps: Seq<Seq<char>>|
        {
            &&& reps.len() == scan_spec(t).len()
            &&& out == stitched(t, scan_spec(t), reps, 0, 0)
            &&& forall|k: int|
                0 <= k < reps.len() ==> expansion_ok(
                    config,
                    scan_force(t, k),
                    store,
                    #[trigger] reps[k],
                )
        }
}

/// Processes a template: scans it once, expands every reference, and splices
/// each replacement over its span. Replacements are computed in reverse
/// source order, so the first failure reported is the last reference's; any
/// failure aborts the whole call with no partial output. A text with no
/// references comes back unchanged.
pub fn process_template(
    template: &str,
    config: &TemplateConfig,
    store: &FileStore,
) -> (r: Result<String, TextconError>)
    ensures
        scan_spec(template@).len() == 0 ==> (r matches Ok(s) && s@ == template@),
        r matches Ok(s) ==> processed_of(template@, *config, *store, s@),
        r matches Err(e) ==> !(e matches TextconError::TemplateParse { .. }) && !(e
            matches TextconError::InvalidReference { .. }),
{
    let refs = match find_references(template) {
        Ok(v) => v,
        Err(e) => {
            return Err(e);
        },
    };
    let n = refs.len();
    let ghost ms = scan_spec(template@);
    let mut reps_rev: Vec<String> = Vec::new();
    let mut j: usize = n;
    while j > 0
        invariant
            j <= n,
            n == refs@.len(),
            n == scan_spec(template@).len(),
            ms == scan_spec(template@),
            crate::scanner::refs_of_scan(template@, refs@),
            forall|k: int|
                0 <= k < n ==> (#[trigger] refs@[k]).reference@.len() > 0
                    && refs@[k].reference@[0] == '@',
            reps_rev@.len() == n - j,
            forall|k: int|
                0 <= k < n - j ==> expansion_ok(
                    *config,
                    scan_force(template@, n - 1 - k),
                    *store,
                    (#[trigger] reps_rev@[k])@,
                ),
        decreases j,
    {
        j = j - 1;
        proof {
            assert(crate::scanner::ref_of_match(template@, refs@[j as int], ms[j as int]));
        }
        let rep = match process_reference(
            refs[j].reference.as_str(),
            config,
            refs[j].force,
            store,
        ) {
            Ok(s) => s,
            Err(e) => {
                return Err(e);
            },
        };
        proof {
            assert(refs@[j as int].force == scan_force(template@, j as int));
            assert(expansion_ok(*config, scan_force(template@, j as int), *store, rep@));
        }
        reps_rev.push(rep);
    }
    let mut reps: Vec<String> = Vec::new();
    let mut k: usize = 0;
    while k < n
        invariant
            k <= n,
            n == reps_rev@.len(),
            n == refs@.len(),
            n == scan_spec(template@).len(),
            reps@.len() == k,
            forall|i: int| 0 <= i < k ==> (#[trigger] reps@[i])@ == reps_rev@[n - 1 - i]@,
            forall|i: int|
                0 <= i < n ==> expansion_ok(
                    *config,
                    scan_force(template@, n - 1 - i),
                    *store,
                    (#[trigger] reps_rev@[i])@,
                ),
        decreases n - k,
    {
        reps.push(reps_rev[n - 1 - k].clone());
        k = k + 1;
    }
    let out = stitch_replacements(template, &refs, &reps);
    proof {
        let rv = string_views(reps@);
        assert forall|q: int| 0 <= q < rv.len() implies expansion_ok(
            *config,
            scan_force(template@, q),
            *store,
            #[trigger] rv[q],
        ) by {
            assert(rv[q] == reps@[q]@);
            assert(reps@[q]@ == reps_rev@[n - 1 - q]@);
            assert(expansion_ok(
                *config,
                scan_force(template@, n - 1 - (n - 1 - q)),
                *store,
                reps_rev@[n - 1 - q]@,
            ));
        }
        if ms.len() == 0 {
            assert(stitched(template@, ms, rv, 0, 0) == template@.subrange(
                0,
                template@.len() as int,
            ));
            assert(out@ =~= template@);
        }
    }
    Ok(out)
}

/// Processes a template read from a file: the file's recorded contents are
/// the template text, and the result is exactly what processing that text
/// gives — without references it comes back unchanged, otherwise its scanned
/// spans are spliced with valid expansions.
pub fn process_template_file(
    template_path: &str,
    config: &TemplateConfig,
    store: &FileStore,
) -> (r: Result<String, TextconError>)
    ensures
        store.lookup(template_path@) is None ==> r is Err,
        store.lookup(template_path@) matches Some(Ok(t)) ==> (scan_spec(t).len() == 0 ==> ((r
            matches Ok(s) && s@ == t) || r is Err)),
        store.lookup(template_path@) matches Some(Ok(t)) ==> (r matches Ok(s) ==> processed_of(
            t,
            *config,
            *store,
            s@,
        )),
{
    let template = match read_file_contents(template_path, store) {
        Ok(t) => t,
        Err(e) => {
            return Err(e);
        },
    };
    proof {
        assert(store.lookup(template_path@) == Some(Ok::<Seq<char>, Seq<char>>(template@)));
    }
    process_template(template.as_str(), config, store)
}

} // verus!
