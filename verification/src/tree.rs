//! The directory-tree model and its deterministic rendering: a reconstructed
//! subtree whose children are strictly ordered by name, rendered depth-first
//! with box-drawing connectors, directories suffixed by `/`.

use vstd::prelude::*;

use crate::text::lex_le;
use crate::text::chars_le;
use crate::text::chars_eq;
use crate::text::str_to_chars;
use crate::text::chars_to_string;
use crate::text::append_chars;
use crate::text::copy_chars;

verus! {

/// One node of a reconstructed directory subtree.
pub struct TreeNode {
    /// The entry's name (one path segment).
    pub name: String,
    /// Whether the entry is a directory.
    pub is_dir: bool,
    /// The node's children, strictly ordered by name.
    pub children: Vec<TreeNode>,
}

/// Strict lexicographic order on character sequences.
pub open spec fn lex_lt(a: Seq<char>, b: Seq<char>) -> bool {
    lex_le(a, b) && a != b
}

/// Distinct characters have distinct code points.
proof fn lemma_char_inj(a: char, b: char)
    ensures
        (a as u32 == b as u32) <==> a == b,
{
    vstd::utf8::char_u32_cast(a, a as u32);
    vstd::utf8::char_u32_cast(b, b as u32);
}

/// `lex_le` is total and antisymmetric.
pub proof fn lemma_lex_total(a: Seq<char>, b: Seq<char>)
    ensures
        lex_le(a, b) || lex_le(b, a),
        lex_le(a, b) && lex_le(b, a) ==> a == b,
    decreases a.len(),
{
    if a.len() > 0 && b.len() > 0 {
        lemma_char_inj(a[0], b[0]);
        if a[0] as u32 == b[0] as u32 {
            lemma_lex_total(a.skip(1), b.skip(1));
            if lex_le(a, b) && lex_le(b, a) {
                assert(a.skip(1) == b.skip(1));
                assert(a =~= b) by {
                    assert(forall|i: int| 1 <= i < a.len() ==> a[i] == a.skip(1)[i - 1]);
                    assert(forall|i: int| 1 <= i < b.len() ==> b[i] == b.skip(1)[i - 1]);
                }
            }
        }
    } else if a.len() == 0 && b.len() == 0 {
        assert(a =~= b);
    }
}

/// `lex_le` is transitive.
pub proof fn lemma_lex_trans(a: Seq<char>, b: Seq<char>, c: Seq<char>)
    requires
        lex_le(a, b),
        lex_le(b, c),
    ensures
        lex_le(a, c),
    decreases a.len(),
{
    if a.len() > 0 && b.len() > 0 && c.len() > 0 {
        lemma_char_inj(a[0], b[0]);
        lemma_char_inj(b[0], c[0]);
        lemma_char_inj(a[0], c[0]);
        if a[0] as u32 == b[0] as u32 && b[0] as u32 == c[0] as u32 {
            lemma_lex_trans(a.skip(1), b.skip(1), c.skip(1));
        }
    }
}

/// Decides the strict lexicographic order.
pub fn lex_lt_exec(a: &Vec<char>, b: &Vec<char>) -> (r: bool)
    ensures
        r == lex_lt(a@, b@),
{
    chars_le(a, b) && !chars_eq(a, b)
}

/// Well-formedness of a tree: children strictly ordered by name, recursively.
pub open spec fn tree_wf(n: TreeNode) -> bool
    decreases n,
{
    &&& forall|i: int, j: int|
        0 <= i < j < n.children@.len() ==> lex_lt(
            (#[trigger] n.children@[i]).name@,
            (#[trigger] n.children@[j]).name@,
        )
    &&& forall|i: int|
        0 <= i < n.children@.len() ==> tree_wf(#[trigger] n.children@[i])
}

/// The connector before an entry's name.
pub open spec fn connector(last: bool) -> Seq<char> {
    if last {
        seq!['└', '─', '─', ' ']
    } else {
        seq!['├', '─', '─', ' ']
    }
}

/// The prefix continuation under an entry.
pub open spec fn continuation(last: bool) -> Seq<char> {
    if last {
        seq![' ', ' ', ' ', ' ']
    } else {
        seq!['│', ' ', ' ', ' ']
    }
}

/// The rendering of one entry: its own line, then (for a directory) the
/// rendering of its children under the continued prefix.
pub open spec fn render_one(n: TreeNode, last: bool, prefix: Seq<char>) -> Seq<char>
    decreases n, 1int,
{
    prefix + connector(last) + n.name@ + (if n.is_dir {
        seq!['/']
    } else {
        Seq::<char>::empty()
    }) + seq!['\n'] + (if n.is_dir {
        render_children(n.children@, prefix + continuation(last))
    } else {
        Seq::<char>::empty()
    })
}

/// The rendering of a list of siblings, first to last; only the final sibling
/// takes the closing connector.
pub open spec fn render_children(cs: Seq<TreeNode>, prefix: Seq<char>) -> Seq<char>
    decreases cs, 0int,
{
    if cs.len() == 0 {
        Seq::empty()
    } else {
        render_one(cs[0], cs.len() == 1, prefix) + render_children(cs.skip(1), prefix)
    }
}

fn push_connector(out: &mut Vec<char>, last: bool)
    ensures
        final(out)@ == old(out)@ + connector(last),
{
    let ghost head = out@;
    if last {
        out.push('└');
    } else {
        out.push('├');
    }
    out.push('─');
    out.push('─');
    out.push(' ');
    proof {
        assert(out@ =~= head + connector(last));
    }
}

fn push_continuation(out: &mut Vec<char>, last: bool)
    ensures
        final(out)@ == old(out)@ + continuation(last),
{
    let ghost head = out@;
    if last {
        out.push(' ');
    } else {
        out.push('│');
    }
    out.push(' ');
    out.push(' ');
    out.push(' ');
    proof {
        assert(out@ =~= head + continuation(last));
    }
}

/// Renders the children of `node` into `out`, line by line.
fn render_node_into(node: &TreeNode, prefix: &Vec<char>, out: &mut Vec<char>)
    ensures
        final(out)@ == old(out)@ + render_children(node.children@, prefix@),
    decreases *node,
{
    let count = node.children.len();
    let mut i: usize = 0;
    let ghost head = out@;
    proof {
        assert(node.children@.skip(0) =~= node.children@);
        assert(head + Seq::<char>::empty() =~= head);
    }
    while i < count
        invariant
            i <= count,
            count == node.children@.len(),
            head + render_children(node.children@, prefix@) == out@ + render_children(
                node.children@.skip(i as int),
                prefix@,
            ),
        decreases count - i,
    {
        let ghost cs = node.children@.skip(i as int);
        proof {
            assert(cs[0] == node.children@[i as int]);
            assert(cs.len() == count - i);
        }
        let child = &node.children[i];
        let last = i + 1 == count;
        let ghost before = out@;
        append_chars(out, prefix);
        push_connector(out, last);
        let name_chars = str_to_chars(child.name.as_str());
        append_chars(out, &name_chars);
        if child.is_dir {
            out.push('/');
        }
        out.push('\n');
        if child.is_dir {
            let mut next_prefix = copy_chars(prefix);
            push_continuation(&mut next_prefix, last);
            proof {
                assert(next_prefix@ == prefix@ + continuation(last));
            }
            render_node_into(child, &next_prefix, out);
        }
        proof {
            assert(out@ =~= before + render_one(cs[0], last, prefix@));
            assert(cs.skip(1) =~= node.children@.skip(i as int + 1));
            assert(render_children(cs, prefix@) == render_one(cs[0], cs.len() == 1, prefix@)
                + render_children(cs.skip(1), prefix@));
            assert(before + render_children(cs, prefix@) =~= out@ + render_children(
                node.children@.skip(i as int + 1),
                prefix@,
            ));
            assert(head + render_children(node.children@, prefix@) =~= out@ + render_children(
                node.children@.skip(i as int + 1),
                prefix@,
            ));
        }
        i = i + 1;
    }
    proof {
        assert(node.children@.skip(count as int) =~= Seq::<TreeNode>::empty());
        assert(out@ + Seq::<char>::empty() =~= out@);
    }
}

/// Whether the tree holds the path `segs[i..]` below `node`: each segment in
/// turn names a child.
pub open spec fn tree_has_path(n: TreeNode, segs: Seq<Seq<char>>, i: int) -> bool
    decreases n,
{
    if i >= segs.len() {
        true
    } else {
        exists|k: int|
            0 <= k < n.children@.len() && (#[trigger] n.children@[k]).name@ == segs[i]
                && tree_has_path(n.children@[k], segs, i + 1)
    }
}

/// Whether the tree holds the path `segs[i..]` below `node` and the node it
/// reaches carries the directory flag `d`.
pub open spec fn tree_entry_at(n: TreeNode, segs: Seq<Seq<char>>, i: int, d: bool) -> bool
    decreases n,
{
    if i >= segs.len() {
        n.is_dir == d
    } else {
        exists|k: int|
            0 <= k < n.children@.len() && (#[trigger] n.children@[k]).name@ == segs[i]
                && tree_entry_at(n.children@[k], segs, i + 1, d)
    }
}

/// Whether the path suffix `other[j..]` is an initial part of `segs[i..]`.
pub open spec fn seg_prefix_of(other: Seq<Seq<char>>, j: int, segs: Seq<Seq<char>>, i: int) -> bool {
    &&& other.len() - j <= segs.len() - i
    &&& forall|m: int| 0 <= m < other.len() - j ==> #[trigger] other[j + m] == segs[i + m]
}

fn find_insert_pos(children: &Vec<TreeNode>, seg: &Vec<char>) -> (pos: usize)
    ensures
        pos <= children@.len(),
        forall|k: int| 0 <= k < pos ==> lex_lt((#[trigger] children@[k]).name@, seg@),
        pos < children@.len() ==> !lex_lt(children@[pos as int].name@, seg@),
{
    let mut pos: usize = 0;
    while pos < children.len()
        invariant
            pos <= children@.len(),
            forall|k: int| 0 <= k < pos ==> lex_lt((#[trigger] children@[k]).name@, seg@),
        decreases children@.len() - pos,
    {
        let cname = str_to_chars(children[pos].name.as_str());
        if !lex_lt_exec(&cname, seg) {
            return pos;
        }
        pos = pos + 1;
    }
    pos
}

/// Inserts the path `segs[i..]` below `node`, creating missing nodes on the
/// way; an existing node is kept as it is. The final segment's node is a
/// directory exactly when `is_dir`; intermediate nodes are directories. The
/// inserted path is present afterwards, and every path already present stays.
fn tree_insert(node: TreeNode, segs: &Vec<Vec<char>>, i: usize, is_dir: bool) -> (r: TreeNode)
    requires
        tree_wf(node),
        i <= segs@.len(),
    ensures
        tree_wf(r),
        r.name@ == node.name@,
        r.is_dir == node.is_dir,
        tree_has_path(r, crate::paths::r_views(segs@), i as int),
        forall|other: Seq<Seq<char>>, j: int|
            #[trigger] tree_has_path(node, other, j) ==> tree_has_path(r, other, j),
        forall|other: Seq<Seq<char>>, j: int|
            0 <= j && #[trigger] tree_has_path(r, other, j) ==> tree_has_path(node, other, j)
                || seg_prefix_of(other, j, crate::paths::r_views(segs@), i as int),
        forall|other: Seq<Seq<char>>, j: int, d: bool|
            #[trigger] tree_entry_at(node, other, j, d) ==> tree_entry_at(r, other, j, d),
        forall|l: int|
            i <= l <= segs@.len() && !tree_has_path(
                node,
                #[trigger] crate::paths::r_views(segs@).take(l),
                i as int,
            ) ==> tree_entry_at(
                r,
                crate::paths::r_views(segs@).take(l),
                i as int,
                if l == segs@.len() {
                    is_dir
                } else {
                    true
                },
            ),
        forall|other: Seq<Seq<char>>, j: int, d: bool|
            0 <= j && #[trigger] tree_entry_at(r, other, j, d) ==> tree_entry_at(node, other, j, d)
                || (seg_prefix_of(other, j, crate::paths::r_views(segs@), i as int) && (if other.len()
                - j < segs@.len() - i {
                d == true
            } else {
                d == is_dir
            })),
    decreases segs@.len() - i,
{
    if i == segs.len() {
        return node;
    }
    let ghost orig = node;
    let TreeNode { name, is_dir: node_is_dir, mut children } = node;
    let ghost old_children = children@;
    let seg = &segs[i];
    let pos = find_insert_pos(&children, seg);
    let mut found = false;
    if pos < children.len() {
        let cname = str_to_chars(children[pos].name.as_str());
        found = chars_eq(&cname, seg);
    }
    if found {
        let child = children.remove(pos);
        let ghost child_g = child;
        let updated = tree_insert(child, segs, i + 1, is_dir);
        children.insert(pos, updated);
        proof {
            assert(children@ =~= old_children.update(pos as int, updated));
            assert forall|a: int, b: int| 0 <= a < b < children@.len() implies lex_lt(
                (#[trigger] children@[a]).name@,
                (#[trigger] children@[b]).name@,
            ) by {
                assert(children@[a].name@ == old_children[a].name@);
                assert(children@[b].name@ == old_children[b].name@);
            }
            assert forall|a: int| 0 <= a < children@.len() implies tree_wf(
                #[trigger] children@[a],
            ) by {
                if a != pos {
                    assert(children@[a] == old_children[a]);
                }
            }
        }
        let result = TreeNode { name, is_dir: node_is_dir, children };
        proof {
            let views = crate::paths::r_views(segs@);
            assert(views[i as int] == segs@[i as int]@);
            assert(result.children@[pos as int] == updated);
            assert(updated.name@ == views[i as int]);
            assert(tree_has_path(result, views, i as int));
            assert forall|other: Seq<Seq<char>>, j: int|
                #[trigger] tree_has_path(orig, other, j) implies tree_has_path(
                result,
                other,
                j,
            ) by {
                if j < other.len() {
                    let k = choose|k: int|
                        0 <= k < orig.children@.len() && (#[trigger] orig.children@[k]).name@
                            == other[j] && tree_has_path(orig.children@[k], other, j + 1);
                    if k == pos {
                        assert(tree_has_path(updated, other, j + 1));
                        assert(result.children@[pos as int].name@ == other[j]);
                    } else {
                        assert(result.children@[k] == orig.children@[k]);
                    }
                }
            }
            assert forall|other: Seq<Seq<char>>, j: int|
                0 <= j && #[trigger] tree_has_path(result, other, j) implies tree_has_path(
                orig,
                other,
                j,
            ) || seg_prefix_of(other, j, views, i as int) by {
                if j < other.len() {
                    let k = choose|k: int|
                        0 <= k < result.children@.len() && (#[trigger] result.children@[k]).name@
                            == other[j] && tree_has_path(result.children@[k], other, j + 1);
                    if k == pos {
                        assert(result.children@[pos as int] == updated);
                        assert(tree_has_path(updated, other, j + 1));
                        if tree_has_path(child_g, other, j + 1) {
                            assert(orig.children@[pos as int] == child_g);
                            assert(orig.children@[pos as int].name@ == other[j]);
                            assert(tree_has_path(orig, other, j));
                        } else {
                            assert(seg_prefix_of(other, j + 1, views, i as int + 1));
                            assert(other[j] == views[i as int]);
                            assert forall|m: int|
                                0 <= m < other.len() - j implies #[trigger] other[j + m]
                                == views[i + m] by {
                                if m > 0 {
                                    assert(other[j + 1 + (m - 1)] == views[i + 1 + (m - 1)]);
                                }
                            }
                            assert(seg_prefix_of(other, j, views, i as int));
                        }
                    } else {
                        assert(result.children@[k] == orig.children@[k]);
                        assert(tree_has_path(orig, other, j));
                    }
                }
            }
            assert forall|l: int|
                i <= l <= segs@.len() && !tree_has_path(
                    orig,
                    #[trigger] views.take(l),
                    i as int,
                ) implies tree_entry_at(
                result,
                views.take(l),
                i as int,
                if l == segs@.len() {
                    is_dir
                } else {
                    true
                },
            ) by {
                if l > i {
                    let pfx = views.take(l);
                    assert(pfx[i as int] == views[i as int]);
                    assert(!tree_has_path(child_g, pfx, i as int + 1)) by {
                        if tree_has_path(child_g, pfx, i as int + 1) {
                            assert(orig.children@[pos as int].name@ == pfx[i as int]);
                            assert(tree_has_path(orig, pfx, i as int));
                        }
                    }
                    assert(tree_entry_at(
                        updated,
                        pfx,
                        i as int + 1,
                        if l == segs@.len() {
                            is_dir
                        } else {
                            true
                        },
                    ));
                    assert(result.children@[pos as int].name@ == pfx[i as int]);
                }
            }
            assert forall|other: Seq<Seq<char>>, j: int, d: bool|
                #[trigger] tree_entry_at(orig, other, j, d) implies tree_entry_at(
                result,
                other,
                j,
                d,
            ) by {
                if j < other.len() {
                    let k = choose|k: int|
                        0 <= k < orig.children@.len() && (#[trigger] orig.children@[k]).name@
                            == other[j] && tree_entry_at(orig.children@[k], other, j + 1, d);
                    if k == pos {
                        assert(tree_entry_at(child_g, other, j + 1, d));
                        assert(tree_entry_at(updated, other, j + 1, d));
                        assert(result.children@[pos as int].name@ == other[j]);
                    } else {
                        assert(result.children@[k] == orig.children@[k]);
                    }
                }
            }
            assert forall|other: Seq<Seq<char>>, j: int, d: bool|
                0 <= j && #[trigger] tree_entry_at(result, other, j, d) implies tree_entry_at(
                orig,
                other,
                j,
                d,
            ) || (seg_prefix_of(other, j, views, i as int) && (if other.len() - j < views.len()
                - i {
                d == true
            } else {
                d == is_dir
            })) by {
                if j < other.len() {
                    let k = choose|k: int|
                        0 <= k < result.children@.len() && (#[trigger] result.children@[k]).name@
                            == other[j] && tree_entry_at(result.children@[k], other, j + 1, d);
                    if k == pos {
                        assert(result.children@[pos as int] == updated);
                        assert(tree_entry_at(updated, other, j + 1, d));
                        if tree_entry_at(child_g, other, j + 1, d) {
                            assert(orig.children@[pos as int] == child_g);
                            assert(orig.children@[pos as int].name@ == other[j]);
                            assert(tree_entry_at(orig, other, j, d));
                        } else {
                            assert(seg_prefix_of(other, j + 1, views, i as int + 1));
                            assert(other[j] == views[i as int]);
                            assert forall|m: int|
                                0 <= m < other.len() - j implies #[trigger] other[j + m]
                                == views[i + m] by {
                                if m > 0 {
                                    assert(other[j + 1 + (m - 1)] == views[i + 1 + (m - 1)]);
                                }
                            }
                            assert(seg_prefix_of(other, j, views, i as int));
                        }
                    } else {
                        assert(result.children@[k] == orig.children@[k]);
                        assert(tree_entry_at(orig, other, j, d));
                    }
                }
            }
        }
        result
    } else {
        let fresh = TreeNode {
            name: chars_to_string(seg),
            is_dir: if i + 1 == segs.len() {
                is_dir
            } else {
                true
            },
            children: Vec::new(),
        };
        proof {
            assert(tree_wf(fresh));
        }
        let ghost fresh_g = fresh;
        let built = tree_insert(fresh, segs, i + 1, is_dir);
        children.insert(pos, built);
        proof {
            assert(children@ =~= old_children.insert(pos as int, built));
            assert(built.name@ == seg@);
            assert forall|a: int, b: int| 0 <= a < b < children@.len() implies lex_lt(
                (#[trigger] children@[a]).name@,
                (#[trigger] children@[b]).name@,
            ) by {
                let ca = children@[a];
                let cb = children@[b];
                if a < pos && b < pos {
                    assert(ca == old_children[a] && cb == old_children[b]);
                } else if a < pos && b == pos {
                    assert(ca == old_children[a]);
                } else if a == pos {
                    assert(cb == old_children[b - 1]);
                    assert(b - 1 >= pos);
                    lemma_lex_total(old_children[pos as int].name@, seg@);
                    assert(lex_lt(seg@, old_children[pos as int].name@));
                    if b - 1 > pos {
                        assert(lex_lt(
                            old_children[pos as int].name@,
                            old_children[b - 1].name@,
                        ));
                        lemma_lex_trans(
                            seg@,
                            old_children[pos as int].name@,
                            old_children[b - 1].name@,
                        );
                        lemma_lex_total(seg@, old_children[b - 1].name@);
                        if seg@ == old_children[b - 1].name@ {
                            lemma_lex_total(old_children[pos as int].name@, seg@);
                        }
                        assert(lex_lt(seg@, old_children[b - 1].name@));
                    }
                } else if a > pos && b > pos {
                    assert(ca == old_children[a - 1] && cb == old_children[b - 1]);
                } else if a < pos && b > pos {
                    assert(ca == old_children[a] && cb == old_children[b - 1]);
                    if a == b - 1 {
                        lemma_lex_total(old_children[pos as int].name@, seg@);
                    } else {
                        assert(lex_lt(old_children[a].name@, old_children[b - 1].name@));
                    }
                }
            }
            assert forall|a: int| 0 <= a < children@.len() implies tree_wf(
                #[trigger] children@[a],
            ) by {
                if a < pos {
                    assert(children@[a] == old_children[a]);
                } else if a > pos {
                    assert(children@[a] == old_children[a - 1]);
                }
            }
        }
        let result = TreeNode { name, is_dir: node_is_dir, children };
        proof {
            let views = crate::paths::r_views(segs@);
            assert(views[i as int] == segs@[i as int]@);
            assert(result.children@[pos as int] == built);
            assert(built.name@ == views[i as int]);
            assert(tree_has_path(result, views, i as int));
            assert forall|other: Seq<Seq<char>>, j: int|
                #[trigger] tree_has_path(orig, other, j) implies tree_has_path(
                result,
                other,
                j,
            ) by {
                if j < other.len() {
                    let k = choose|k: int|
                        0 <= k < orig.children@.len() && (#[trigger] orig.children@[k]).name@
                            == other[j] && tree_has_path(orig.children@[k], other, j + 1);
                    if k < pos {
                        assert(result.children@[k] == orig.children@[k]);
                    } else {
                        assert(result.children@[k + 1] == orig.children@[k]);
                    }
                }
            }
            assert forall|other: Seq<Seq<char>>, j: int|
                0 <= j && #[trigger] tree_has_path(result, other, j) implies tree_has_path(
                orig,
                other,
                j,
            ) || seg_prefix_of(other, j, views, i as int) by {
                if j < other.len() {
                    let k = choose|k: int|
                        0 <= k < result.children@.len() && (#[trigger] result.children@[k]).name@
                            == other[j] && tree_has_path(result.children@[k], other, j + 1);
                    if k == pos {
                        assert(result.children@[pos as int] == built);
                        assert(other[j] == views[i as int]);
                        assert(tree_has_path(built, other, j + 1));
                        if tree_has_path(fresh_g, other, j + 1) {
                            assert(j + 1 >= other.len());
                            assert(other.len() - j == 1);
                            assert(seg_prefix_of(other, j, views, i as int));
                        } else {
                            assert(seg_prefix_of(other, j + 1, views, i as int + 1));
                            assert forall|m: int|
                                0 <= m < other.len() - j implies #[trigger] other[j + m]
                                == views[i + m] by {
                                if m > 0 {
                                    assert(other[j + 1 + (m - 1)] == views[i + 1 + (m - 1)]);
                                }
                            }
                            assert(seg_prefix_of(other, j, views, i as int));
                        }
                    } else if k < pos {
                        assert(result.children@[k] == orig.children@[k]);
                        assert(tree_has_path(orig, other, j));
                    } else {
                        assert(result.children@[k] == orig.children@[k - 1]);
                        assert(tree_has_path(orig, other, j));
                    }
                }
            }
            assert forall|l: int|
                i <= l <= segs@.len() && !tree_has_path(
                    orig,
                    #[trigger] views.take(l),
                    i as int,
                ) implies tree_entry_at(
                result,
                views.take(l),
                i as int,
                if l == segs@.len() {
                    is_dir
                } else {
                    true
                },
            ) by {
                if l > i {
                    let pfx = views.take(l);
                    assert(pfx[i as int] == views[i as int]);
                    assert(result.children@[pos as int] == built);
                    assert(built.name@ == views[i as int]);
                    if l == i + 1 {
                        assert(built.is_dir == fresh_g.is_dir);
                        assert(tree_entry_at(
                            built,
                            pfx,
                            i as int + 1,
                            if l == segs@.len() {
                                is_dir
                            } else {
                                true
                            },
                        ));
                    } else {
                        assert(!tree_has_path(fresh_g, pfx, i as int + 1)) by {
                            assert(fresh_g.children@.len() == 0);
                        }
                        assert(tree_entry_at(
                            built,
                            pfx,
                            i as int + 1,
                            if l == segs@.len() {
                                is_dir
                            } else {
                                true
                            },
                        ));
                    }
                }
            }
            assert forall|other: Seq<Seq<char>>, j: int, d: bool|
                #[trigger] tree_entry_at(orig, other, j, d) implies tree_entry_at(
                result,
                other,
                j,
                d,
            ) by {
                if j < other.len() {
                    let k = choose|k: int|
                        0 <= k < orig.children@.len() && (#[trigger] orig.children@[k]).name@
                            == other[j] && tree_entry_at(orig.children@[k], other, j + 1, d);
                    if k < pos {
                        assert(result.children@[k] == orig.children@[k]);
                    } else {
                        assert(result.children@[k + 1] == orig.children@[k]);
                    }
                }
            }
            assert forall|other: Seq<Seq<char>>, j: int, d: bool|
                0 <= j && #[trigger] tree_entry_at(result, other, j, d) implies tree_entry_at(
                orig,
                other,
                j,
                d,
            ) || (seg_prefix_of(other, j, views, i as int) && (if other.len() - j < views.len()
                - i {
                d == true
            } else {
                d == is_dir
            })) by {
                if j < other.len() {
                    let k = choose|k: int|
                        0 <= k < result.children@.len() && (#[trigger] result.children@[k]).name@
                            == other[j] && tree_entry_at(result.children@[k], other, j + 1, d);
                    if k == pos {
                        assert(result.children@[pos as int] == built);
                        assert(other[j] == views[i as int]);
                        assert(tree_entry_at(built, other, j + 1, d));
                        if tree_entry_at(fresh_g, other, j + 1, d) {
                            assert(j + 1 >= other.len());
                            assert(other.len() - j == 1);
                            assert(fresh_g.is_dir == d);
                            assert(seg_prefix_of(other, j, views, i as int));
                        } else {
                            assert(seg_prefix_of(other, j + 1, views, i as int + 1));
                            assert forall|m: int|
                                0 <= m < other.len() - j implies #[trigger] other[j + m]
                                == views[i + m] by {
                                if m > 0 {
                                    assert(other[j + 1 + (m - 1)] == views[i + 1 + (m - 1)]);
                                }
                            }
                            assert(seg_prefix_of(other, j, views, i as int));
                        }
                    } else if k < pos {
                        assert(result.children@[k] == orig.children@[k]);
                        assert(tree_entry_at(orig, other, j, d));
                    } else {
                        assert(result.children@[k] == orig.children@[k - 1]);
                        assert(tree_entry_at(orig, other, j, d));
                    }
                }
            }
        }
        result
    }
}

/// The path of one walked entry as tree segments: its form relative to the
/// walk root, split at separators.
pub open spec fn entry_segs(p: Seq<char>, root: Seq<char>) -> Seq<Seq<char>> {
    crate::paths::segs_of(crate::paths::rel_to_base(p, root))
}

/// Rebuilds a directory hierarchy from a flat list of walked entries, each a
/// full path with its directory flag. Entries outside the root and the root
/// itself are ignored; missing intermediate directories are created; children
/// end up strictly ordered by name, every listed path below the root is
/// present in the result, and every path present leads along some listed
/// entry's path.
pub fn build_tree_from_paths(root: &str, paths: &Vec<(String, bool)>) -> (r: TreeNode)
    ensures
        tree_wf(r),
        r.is_dir,
        forall|idx: int|
            0 <= idx < paths@.len() ==> {
                let p = (#[trigger] paths@[idx]).0@;
                crate::paths::path_within(p, root@) && entry_segs(p, root@).len() > 0
                    ==> tree_has_path(r, entry_segs(p, root@), 0)
            },
        forall|other: Seq<Seq<char>>|
            #[trigger] tree_has_path(r, other, 0) && other.len() > 0 ==> exists|k: int|
                0 <= k < paths@.len() && seg_prefix_of(
                    other,
                    0,
                    entry_segs((#[trigger] paths@[k]).0@, root@),
                    0,
                ),
        forall|other: Seq<Seq<char>>, d: bool|
            #[trigger] tree_entry_at(r, other, 0, d) && other.len() > 0 ==> exists|k: int|
                0 <= k < paths@.len() && crate::paths::path_within((#[trigger] paths@[k]).0@, root@)
                    && ((other == entry_segs(paths@[k].0@, root@) && d == paths@[k].1) || (
                seg_prefix_of(other, 0, entry_segs(paths@[k].0@, root@), 0) && other.len()
                    < entry_segs(paths@[k].0@, root@).len() && d == true)),
{
    let rv = str_to_chars(root);
    let root_name = match crate::paths::split_parent(&rv) {
        Some(pn) => chars_to_string(&pn.1),
        None => String::new(),
    };
    let mut node = TreeNode { name: root_name, is_dir: true, children: Vec::new() };
    proof {
        assert(tree_wf(node));
        assert forall|other: Seq<Seq<char>>|
            #[trigger] tree_has_path(node, other, 0) && other.len() > 0 implies false by {
            assert(node.children@.len() == 0);
        }
        assert forall|other: Seq<Seq<char>>, d: bool|
            #[trigger] tree_entry_at(node, other, 0, d) && other.len() > 0 implies false by {
            assert(node.children@.len() == 0);
        }
    }
    let mut idx: usize = 0;
    while idx < paths.len()
        invariant
            tree_wf(node),
            node.is_dir,
            idx <= paths@.len(),
            rv@ == root@,
            forall|k: int|
                0 <= k < idx ==> {
                    let p = (#[trigger] paths@[k]).0@;
                    crate::paths::path_within(p, root@) && entry_segs(p, root@).len() > 0
                        ==> tree_has_path(node, entry_segs(p, root@), 0)
                },
            forall|other: Seq<Seq<char>>|
                #[trigger] tree_has_path(node, other, 0) && other.len() > 0 ==> exists|k: int|
                    0 <= k < idx && seg_prefix_of(
                        other,
                        0,
                        entry_segs((#[trigger] paths@[k]).0@, root@),
                        0,
                    ),
            forall|other: Seq<Seq<char>>, d: bool|
                #[trigger] tree_entry_at(node, other, 0, d) && other.len() > 0 ==> exists|k: int|
                    0 <= k < idx && crate::paths::path_within(
                        (#[trigger] paths@[k]).0@,
                        root@,
                    ) && ((other == entry_segs(paths@[k].0@, root@) && d == paths@[k].1) || (
                    seg_prefix_of(other, 0, entry_segs(paths@[k].0@, root@), 0) && other.len()
                        < entry_segs(paths@[k].0@, root@).len() && d == true)),
        decreases paths@.len() - idx,
    {
        let pv = str_to_chars(paths[idx].0.as_str());
        if crate::paths::is_path_within(&pv, &rv) {
            let rel = crate::paths::relative_to(&pv, &rv);
            let segs = crate::paths::split_segments(&rel);
            if segs.len() > 0 {
                let ghost before = node;
                node = tree_insert(node, &segs, 0, paths[idx].1);
                proof {
                    assert(crate::paths::r_views(segs@) =~= entry_segs(pv@, root@));
                    assert(tree_has_path(node, entry_segs(pv@, root@), 0));
                    assert forall|k: int| 0 <= k < idx + 1 implies {
                        let p = (#[trigger] paths@[k]).0@;
                        crate::paths::path_within(p, root@) && entry_segs(p, root@).len() > 0
                            ==> tree_has_path(node, entry_segs(p, root@), 0)
                    } by {
                        let p = paths@[k].0@;
                        if k < idx {
                            if crate::paths::path_within(p, root@) && entry_segs(
                                p,
                                root@,
                            ).len() > 0 {
                                assert(tree_has_path(before, entry_segs(p, root@), 0));
                            }
                        } else {
                            assert(p == pv@);
                        }
                    }
                    assert forall|other: Seq<Seq<char>>|
                        #[trigger] tree_has_path(node, other, 0) && other.len()
                            > 0 implies exists|k: int|
                        0 <= k < idx + 1 && seg_prefix_of(
                            other,
                            0,
                            entry_segs((#[trigger] paths@[k]).0@, root@),
                            0,
                        ) by {
                        if tree_has_path(before, other, 0) {
                            let k = choose|k: int|
                                0 <= k < idx && seg_prefix_of(
                                    other,
                                    0,
                                    entry_segs((#[trigger] paths@[k]).0@, root@),
                                    0,
                                );
                            assert(0 <= k < idx + 1 && seg_prefix_of(
                                other,
                                0,
                                entry_segs(paths@[k].0@, root@),
                                0,
                            ));
                        } else {
                            assert(seg_prefix_of(other, 0, crate::paths::r_views(segs@), 0));
                            assert(seg_prefix_of(
                                other,
                                0,
                                entry_segs(paths@[idx as int].0@, root@),
                                0,
                            ));
                        }
                    }
                    assert forall|other: Seq<Seq<char>>, d: bool|
                        #[trigger] tree_entry_at(node, other, 0, d) && other.len()
                            > 0 implies exists|k: int|
                        0 <= k < idx + 1 && crate::paths::path_within(
                            (#[trigger] paths@[k]).0@,
                            root@,
                        ) && ((other == entry_segs(paths@[k].0@, root@) && d == paths@[k].1) || (
                        seg_prefix_of(other, 0, entry_segs(paths@[k].0@, root@), 0) && other.len()
                            < entry_segs(paths@[k].0@, root@).len() && d == true)) by {
                        let views = crate::paths::r_views(segs@);
                        if tree_entry_at(before, other, 0, d) {
                            let k = choose|k: int|
                                0 <= k < idx && crate::paths::path_within(
                                    (#[trigger] paths@[k]).0@,
                                    root@,
                                ) && ((other == entry_segs(paths@[k].0@, root@) && d
                                    == paths@[k].1) || (seg_prefix_of(
                                    other,
                                    0,
                                    entry_segs(paths@[k].0@, root@),
                                    0,
                                ) && other.len() < entry_segs(paths@[k].0@, root@).len() && d
                                    == true));
                            assert(0 <= k < idx + 1);
                        } else {
                            assert(seg_prefix_of(other, 0, views, 0) && (if other.len()
                                < views.len() {
                                d == true
                            } else {
                                d == paths@[idx as int].1
                            }));
                            assert(views == entry_segs(paths@[idx as int].0@, root@));
                            if other.len() >= views.len() {
                                assert(other.len() == views.len());
                                assert forall|m: int| 0 <= m < other.len() implies other[m]
                                    == views[m] by {
                                    assert(other[0 + m] == views[0 + m]);
                                }
                                assert(other =~= views);
                            }
                        }
                    }
                }
            } else {
                proof {
                    assert(crate::paths::r_views(segs@) =~= entry_segs(pv@, root@));
                }
            }
        }
        idx = idx + 1;
    }
    node
}

/// Renders the subtree below `node` (the node's own line is not printed),
/// appending to `out`, each line under the given prefix.
pub fn print_tree(node: &TreeNode, prefix: &str, out: &mut String)
    ensures
        final(out)@ == old(out)@ + render_children(node.children@, prefix@),
{
    let pv = str_to_chars(prefix);
    let mut buf: Vec<char> = Vec::new();
    render_node_into(node, &pv, &mut buf);
    let rendered = chars_to_string(&buf);
    out.append(rendered.as_str());
    proof {
        assert(Seq::<char>::empty() + render_children(node.children@, prefix@) =~= render_children(
            node.children@,
            prefix@,
        ));
    }
}

/// The shape of every tree rendering: the literal root marker on its own
/// line, then the rendering of the children of some well-formed tree.
pub open spec fn rendered_tree(t: Seq<char>) -> bool {
    exists|node: TreeNode|
        #[trigger] tree_wf(node) && t == seq!['.', '\n'] + render_children(
            node.children@,
            Seq::empty(),
        )
}

/// The pattern views of an optional exclusion specification.
pub open spec fn exclude_views(e: Option<Vec<String>>) -> Option<Seq<Seq<char>>> {
    match e {
        Some(ps) => Some(crate::text::string_views(ps@)),
        None => None,
    }
}

/// The effective depth bound of a tree walk: at least one level is always
/// listed; absence of a limit means no bound.
pub open spec fn eff_depth_of(max_depth: Option<usize>) -> int {
    match max_depth {
        Some(d) => if d == 0 {
            1int
        } else {
            d as int
        },
        None => usize::MAX as int,
    }
}

/// How many leading base-relative segments name the walk root itself; the
/// exclusion filter never tests these.
pub open spec fn root_skip(root: Seq<char>, base: Seq<char>) -> int {
    crate::paths::segs_of(crate::paths::rel_to_base(root, base)).len() as int
}

/// Whether one walked entry is kept for the tree: under the manual walk it
/// must lie below the root, carry no hidden segment, and escape the
/// exclusion patterns (matched against its base-relative form, the root's
/// own prefixes never tested); under the ignore-file walk it must not be the
/// root itself, must lie within the depth bound, and must escape the
/// patterns (hidden handling is the ignore rules' own).
pub open spec fn keeps_entry(
    p: Seq<char>,
    d: bool,
    root: Seq<char>,
    base: Seq<char>,
    pats: Option<Seq<Seq<char>>>,
    max_depth: Option<usize>,
    use_gitignore: bool,
) -> bool {
    if use_gitignore {
        &&& p != root
        &&& entry_segs(p, root).len() <= eff_depth_of(max_depth)
        &&& match pats {
            Some(ps) => !crate::fsio::glob_match(ps, crate::paths::rel_to_base(p, base)),
            None => true,
        }
    } else {
        &&& crate::paths::path_within(p, root)
        &&& entry_segs(p, root).len() > 0
        &&& !crate::exclude::any_hidden(entry_segs(p, root))
        &&& match pats {
            Some(ps) => !crate::exclude::entry_excluded(
                ps,
                crate::paths::segs_of(crate::paths::rel_to_base(p, base)),
                root_skip(root, base),
                d,
            ),
            None => true,
        }
    }
}

/// The walked entries that the tree keeps, in walk order: the successful
/// entries satisfying `keeps_entry`.
pub open spec fn kept_of(
    entries: Seq<Result<(String, bool), String>>,
    root: Seq<char>,
    base: Seq<char>,
    pats: Option<Seq<Seq<char>>>,
    max_depth: Option<usize>,
    use_gitignore: bool,
) -> Seq<(String, bool)>
    decreases entries.len(),
{
    if entries.len() == 0 {
        Seq::empty()
    } else {
        let rest = kept_of(entries.skip(1), root, base, pats, max_depth, use_gitignore);
        match entries[0] {
            Ok(e) => {
                if keeps_entry(e.0@, e.1, root, base, pats, max_depth, use_gitignore) {
                    seq![e] + rest
                } else {
                    rest
                }
            },
            Err(_) => rest,
        }
    }
}

proof fn lemma_kept_of_push(
    entries: Seq<Result<(String, bool), String>>,
    x: Result<(String, bool), String>,
    root: Seq<char>,
    base: Seq<char>,
    pats: Option<Seq<Seq<char>>>,
    max_depth: Option<usize>,
    use_gitignore: bool,
)
    ensures
        kept_of(entries.push(x), root, base, pats, max_depth, use_gitignore) == kept_of(
            entries,
            root,
            base,
            pats,
            max_depth,
            use_gitignore,
        ) + (match x {
            Ok(e) => {
                if keeps_entry(e.0@, e.1, root, base, pats, max_depth, use_gitignore) {
                    seq![e]
                } else {
                    Seq::empty()
                }
            },
            Err(_) => Seq::empty(),
        }),
    decreases entries.len(),
{
    let tail = (match x {
        Ok(e) => {
            if keeps_entry(e.0@, e.1, root, base, pats, max_depth, use_gitignore) {
                seq![x.unwrap()]
            } else {
                Seq::<(String, bool)>::empty()
            }
        },
        Err(_) => Seq::<(String, bool)>::empty(),
    });
    if entries.len() == 0 {
        assert(entries.push(x)[0] == x);
        assert(entries.push(x).skip(1) =~= Seq::<Result<(String, bool), String>>::empty());
        assert(kept_of(
            Seq::<Result<(String, bool), String>>::empty(),
            root,
            base,
            pats,
            max_depth,
            use_gitignore,
        ) =~= Seq::<(String, bool)>::empty());
        assert(kept_of(entries, root, base, pats, max_depth, use_gitignore)
            =~= Seq::<(String, bool)>::empty());
        assert(kept_of(entries.push(x), root, base, pats, max_depth, use_gitignore) =~= tail);
        assert(kept_of(entries.push(x), root, base, pats, max_depth, use_gitignore) =~= kept_of(
            entries,
            root,
            base,
            pats,
            max_depth,
            use_gitignore,
        ) + tail);
    } else {
        assert(entries.push(x)[0] == entries[0]);
        assert(entries.push(x).skip(1) =~= entries.skip(1).push(x));
        lemma_kept_of_push(entries.skip(1), x, root, base, pats, max_depth, use_gitignore);
        match entries[0] {
            Ok(e) => {
                if keeps_entry(e.0@, e.1, root, base, pats, max_depth, use_gitignore) {
                    assert(seq![e] + (kept_of(
                        entries.skip(1),
                        root,
                        base,
                        pats,
                        max_depth,
                        use_gitignore,
                    ) + tail) =~= (seq![e] + kept_of(
                        entries.skip(1),
                        root,
                        base,
                        pats,
                        max_depth,
                        use_gitignore,
                    )) + tail);
                }
            },
            Err(_) => {},
        }
    }
}

/// Filters a walk's entries down to those the tree keeps, exactly as
/// `kept_of` says. A failed manual-walk entry aborts with `Io`; failed
/// ignore-walk entries are skipped; a pattern that does not compile aborts
/// with `Pattern`.
pub fn filter_tree_entries(
    entries: &Vec<Result<(String, bool), String>>,
    root: &str,
    base: &str,
    exclude: &Option<Vec<String>>,
    max_depth: Option<usize>,
    use_gitignore: bool,
) -> (r: Result<Vec<(String, bool)>, crate::error::TextconError>)
    ensures
        r matches Ok(kept) ==> kept@ == kept_of(
            entries@,
            root@,
            base@,
            exclude_views(*exclude),
            max_depth,
            use_gitignore,
        ),
        r matches Err(e) ==> e matches crate::error::TextconError::Io(_) || e
            matches crate::error::TextconError::Pattern(_),
{
    let ghost pats = exclude_views(*exclude);
    let rv = str_to_chars(root);
    let bv = str_to_chars(base);
    let root_rel = crate::paths::relative_to(&rv, &bv);
    let skip = crate::paths::split_segments(&root_rel).len();
    proof {
        assert(skip == root_skip(root@, base@));
    }
    let eff: usize = match max_depth {
        Some(d) => if d == 0 {
            1
        } else {
            d
        },
        None => usize::MAX,
    };
    let mut kept: Vec<(String, bool)> = Vec::new();
    let mut i: usize = 0;
    proof {
        assert(entries@.take(0) =~= Seq::<Result<(String, bool), String>>::empty());
        assert(kept@ =~= kept_of(entries@.take(0), root@, base@, pats, max_depth, use_gitignore));
    }
    while i < entries.len()
        invariant
            i <= entries@.len(),
            rv@ == root@,
            bv@ == base@,
            pats == exclude_views(*exclude),
            skip == root_skip(root@, base@),
            eff as int == eff_depth_of(max_depth),
            kept@ == kept_of(entries@.take(i as int), root@, base@, pats, max_depth, use_gitignore),
        decreases entries@.len() - i,
    {
        proof {
            lemma_kept_of_push(
                entries@.take(i as int),
                entries@[i as int],
                root@,
                base@,
                pats,
                max_depth,
                use_gitignore,
            );
            assert(entries@.take(i as int + 1) =~= entries@.take(i as int).push(
                entries@[i as int],
            ));
        }
        match &entries[i] {
            Err(m) => {
                if !use_gitignore {
                    return Err(crate::error::TextconError::Io(m.clone()));
                }
            },
            Ok(entry) => {
                let pv = str_to_chars(entry.0.as_str());
                let keep: bool;
                if use_gitignore {
                    let mut k = !chars_eq(&pv, &rv);
                    if k {
                        let rel_root = crate::paths::relative_to(&pv, &rv);
                        let segs_root = crate::paths::split_segments(&rel_root);
                        proof {
                            assert(crate::paths::r_views(segs_root@) =~= entry_segs(pv@, root@));
                        }
                        k = segs_root.len() <= eff;
                    }
                    if k {
                        if let Some(ps) = exclude {
                            proof {
                                assert(pats == Some(crate::text::string_views(ps@)));
                            }
                            let rel = crate::paths::relative_to(&pv, &bv);
                            let rel_str = chars_to_string(&rel);
                            match crate::fsio::glob_set_matches(ps, rel_str.as_str()) {
                                Ok(hit) => {
                                    k = !hit;
                                },
                                Err(m) => {
                                    return Err(crate::error::TextconError::Pattern(m));
                                },
                            }
                        }
                    }
                    keep = k;
                } else {
                    let mut k = crate::paths::is_path_within(&pv, &rv);
                    if k {
                        let rel_root = crate::paths::relative_to(&pv, &rv);
                        let segs_root = crate::paths::split_segments(&rel_root);
                        proof {
                            assert(crate::paths::r_views(segs_root@) =~= entry_segs(pv@, root@));
                        }
                        k = segs_root.len() > 0 && !crate::exclude::any_hidden_exec(&segs_root);
                    }
                    if k {
                        if let Some(ps) = exclude {
                            proof {
                                assert(pats == Some(crate::text::string_views(ps@)));
                            }
                            let rel_base = crate::paths::relative_to(&pv, &bv);
                            let segs_base = crate::paths::split_segments(&rel_base);
                            proof {
                                assert(crate::paths::r_views(segs_base@)
                                    =~= crate::paths::segs_of(
                                    crate::paths::rel_to_base(pv@, bv@),
                                ));
                            }
                            match crate::exclude::is_entry_excluded(ps, &segs_base, skip, entry.1) {
                                Ok(hit) => {
                                    k = !hit;
                                },
                                Err(m) => {
                                    return Err(crate::error::TextconError::Pattern(m));
                                },
                            }
                        }
                    }
                    keep = k;
                }
                proof {
                    assert(keep == keeps_entry(
                        pv@,
                        entry.1,
                        root@,
                        base@,
                        pats,
                        max_depth,
                        use_gitignore,
                    ));
                }
                if keep {
                    let ghost before = kept@;
                    kept.push((entry.0.clone(), entry.1));
                    proof {
                        assert(entries@[i as int] matches Ok(e) && e.0@ == pv@ && e.1 == entry.1);
                        assert(kept@ =~= before.push((entry.0, entry.1)));
                        assert(kept@ =~= kept_of(
                            entries@.take(i as int + 1),
                            root@,
                            base@,
                            pats,
                            max_depth,
                            use_gitignore,
                        ));
                    }
                }
            },
        }
        i = i + 1;
    }
    proof {
        assert(entries@.take(entries@.len() as int) =~= entries@);
    }
    Ok(kept)
}

/// What holds of every successful entry a walk yielded for `root`: it lies
/// within the root; the manual walk also bounds its depth.
pub open spec fn walk_entry_facts(
    entries: Seq<Result<(String, bool), String>>,
    root: Seq<char>,
    max_depth: Option<usize>,
    use_gitignore: bool,
) -> bool {
    forall|i: int|
        0 <= i < entries.len() ==> (#[trigger] entries[i] matches Ok(e)
            ==> crate::paths::path_within(e.0@, root) && (!use_gitignore ==> 1 <= entry_segs(
            e.0@,
            root,
        ).len() <= eff_depth_of(max_depth)))
}

/// The result of building and rendering the tree of a kept-entry list: the
/// root marker, then the rendering of a well-formed tree holding exactly the
/// paths the kept entries trace.
pub open spec fn tree_result_of(s: Seq<char>, root: Seq<char>, kept: Seq<(String, bool)>) -> bool {
    exists|node: TreeNode|
        #[trigger] tree_wf(node) && s == seq!['.', '\n'] + render_children(
            node.children@,
            Seq::empty(),
        ) && built_from(node, root, kept)
}

/// The relation between a built tree and the entry list it was built from:
/// every in-root entry's path is present, and every present path leads along
/// some in-root entry's path.
pub open spec fn built_from(node: TreeNode, root: Seq<char>, kept: Seq<(String, bool)>) -> bool {
    &&& forall|k: int|
        0 <= k < kept.len() ==> {
            let p = (#[trigger] kept[k]).0@;
            crate::paths::path_within(p, root) && entry_segs(p, root).len() > 0 ==> tree_has_path(
                node,
                entry_segs(p, root),
                0,
            )
        }
    &&& forall|other: Seq<Seq<char>>|
        #[trigger] tree_has_path(node, other, 0) && other.len() > 0 ==> exists|k: int|
            0 <= k < kept.len() && seg_prefix_of(other, 0, entry_segs(kept[k].0@, root), 0)
    &&& forall|other: Seq<Seq<char>>, d: bool|
        #[trigger] tree_entry_at(node, other, 0, d) && other.len() > 0 ==> exists|k: int|
            0 <= k < kept.len() && crate::paths::path_within((#[trigger] kept[k]).0@, root) && ((
            other == entry_segs(kept[k].0@, root) && d == kept[k].1) || (seg_prefix_of(
                other,
                0,
                entry_segs(kept[k].0@, root),
                0,
            ) && other.len() < entry_segs(kept[k].0@, root).len() && d == true))
}

/// The full characterization of a tree rendering for a walk root: for some
/// walk outcome, the rendering of the tree of exactly the entries the filter
/// keeps (hidden, depth and exclusion rules, patterns matched relative to
/// the base).
pub open spec fn tree_rendering_of(
    s: Seq<char>,
    root: Seq<char>,
    pats: Option<Seq<Seq<char>>>,
    base: Seq<char>,
    max_depth: Option<usize>,
    use_gitignore: bool,
) -> bool {
    exists|entries: Seq<Result<(String, bool), String>>|
        #![trigger kept_of(entries, root, base, pats, max_depth, use_gitignore)]
        walk_entry_facts(entries, root, max_depth, use_gitignore) && tree_result_of(
            s,
            root,
            kept_of(entries, root, base, pats, max_depth, use_gitignore),
        )
}

/// Generates the tree-like rendering of a directory: the literal root marker
/// `.` on its own line, then one line per visible descendant. Entries within
/// a directory are ordered by name. `max_depth` bounds how many directory
/// levels below `path` are listed in either walk mode (unlimited when
/// absent). Exclusion patterns are matched against paths relative to
/// `base_dir`, which the configuration's invariant declares canonical. With
/// `use_gitignore` the walk honours ignore files and hidden entries follow
/// those rules; without it, hidden entries are always dropped.
pub fn generate_directory_tree(
    path: &str,
    max_depth: Option<usize>,
    exclude: &Option<Vec<String>>,
    base_dir: &str,
    use_gitignore: bool,
) -> (r: Result<String, crate::error::TextconError>)
    ensures
        r matches Ok(s) ==> rendered_tree(s@),
        r matches Ok(s) ==> tree_rendering_of(
            s@,
            path@,
            exclude_views(*exclude),
            base_dir@,
            max_depth,
            use_gitignore,
        ),
        r matches Ok(s) ==> s@.len() >= 2 && s@.subrange(0, 2) == seq!['.', '\n'],
        r matches Err(e) ==> e matches crate::error::TextconError::DirectoryNotFound { .. } || e
            matches crate::error::TextconError::Io(_) || e
            matches crate::error::TextconError::Pattern(_),
        r matches Err(crate::error::TextconError::DirectoryNotFound { path: q }) ==> q@ == path@,
{
    if !crate::fsio::path_is_dir(path) {
        return Err(
            crate::error::TextconError::DirectoryNotFound { path: String::from_str(path) },
        );
    }
    let eff_depth: usize = match max_depth {
        Some(d) => if d == 0 {
            1
        } else {
            d
        },
        None => usize::MAX,
    };
    let entries: Vec<Result<(String, bool), String>> = if use_gitignore {
        crate::fsio::walk_ignore_entries(path)
    } else {
        crate::fsio::walk_entries(path, eff_depth, true)
    };
    let kept = match filter_tree_entries(&entries, path, base_dir, exclude, max_depth, use_gitignore
    ) {
        Ok(k) => k,
        Err(e) => {
            return Err(e);
        },
    };
    let root_node = build_tree_from_paths(path, &kept);
    let mut out = String::new();
    out.append(".\n");
    print_tree(&root_node, "", &mut out);
    proof {
        reveal_strlit(".\n");
        reveal_strlit("");
        assert(out@.subrange(0, 2) =~= seq!['.', '\n']);
        assert(""@ =~= Seq::<char>::empty());
        assert(out@ =~= seq!['.', '\n'] + render_children(root_node.children@, Seq::empty()));
        assert(tree_wf(root_node));
        assert(built_from(root_node, path@, kept@));
        assert(tree_result_of(out@, path@, kept@));
        assert(walk_entry_facts(entries@, path@, max_depth, use_gitignore));
        assert(tree_rendering_of(
            out@,
            path@,
            exclude_views(*exclude),
            base_dir@,
            max_depth,
            use_gitignore,
        ));
    }
    Ok(out)
}

} // verus!
