//! Pure path string logic: cleaning reference strings, joining paths,
//! splitting into segments, the sandbox containment test, and relative-path
//! computation. Paths are plain strings of characters; `/` separates
//! segments. Nothing here touches the filesystem.

use vstd::prelude::*;

use crate::text::find_from;
use crate::text::lemma_find_from;
use crate::text::find_char;
use crate::text::sub_chars;
use crate::text::chars_eq;

verus! {

/// The sequence with every leading occurrence of `c` removed.
pub open spec fn strip_leading(s: Seq<char>, c: char) -> Seq<char>
    decreases s.len(),
{
    if s.len() > 0 && s[0] == c {
        strip_leading(s.skip(1), c)
    } else {
        s
    }
}

/// A reference string cleaned for resolution: every leading `@`, then every
/// leading `!`, then every leading `/`, then every leading `\` removed.
pub open spec fn cleaned_ref(r: Seq<char>) -> Seq<char> {
    strip_leading(strip_leading(strip_leading(strip_leading(r, '@'), '!'), '/'), '\\')
}

fn advance_over(v: &Vec<char>, from: usize, c: char) -> (r: usize)
    requires
        from <= v@.len(),
    ensures
        from <= r <= v@.len(),
        strip_leading(v@.skip(from as int), c) == v@.skip(r as int),
{
    let mut i: usize = from;
    while i < v.len() && v[i] == c
        invariant
            from <= i <= v@.len(),
            strip_leading(v@.skip(from as int), c) == strip_leading(v@.skip(i as int), c),
        decreases v@.len() - i,
    {
        proof {
            assert(v@.skip(i as int).skip(1) =~= v@.skip(i as int + 1));
        }
        i = i + 1;
    }
    proof {
        if i < v@.len() {
            assert(v@.skip(i as int)[0] == v@[i as int]);
        } else {
            assert(v@.skip(i as int) =~= Seq::<char>::empty());
        }
    }
    i
}

/// Strips the `@`/`!` markers and any leading separators from a reference.
pub fn clean_reference(v: &Vec<char>) -> (r: Vec<char>)
    ensures
        r@ == cleaned_ref(v@),
{
    proof {
        assert(v@.skip(0) =~= v@);
    }
    let a = advance_over(v, 0, '@');
    let b = advance_over(v, a, '!');
    let c = advance_over(v, b, '/');
    let d = advance_over(v, c, '\\');
    sub_chars(v, d, v.len())
}

/// Whether a path string is absolute (begins with `/`).
pub open spec fn is_abs(p: Seq<char>) -> bool {
    p.len() > 0 && p[0] == '/'
}

/// Joining a relative path onto a base, as paths join: an absolute right-hand
/// side replaces the base, an empty base disappears, and exactly one
/// separator stands between the two parts otherwise.
pub open spec fn joined_path(base: Seq<char>, rel: Seq<char>) -> Seq<char> {
    if is_abs(rel) || base.len() == 0 {
        rel
    } else if base[base.len() - 1] == '/' {
        base + rel
    } else {
        base + seq!['/'] + rel
    }
}

/// Joins `rel` onto `base`.
pub fn join_path(base: &Vec<char>, rel: &Vec<char>) -> (r: Vec<char>)
    ensures
        r@ == joined_path(base@, rel@),
{
    if (rel.len() > 0 && rel[0] == '/') || base.len() == 0 {
        let mut r: Vec<char> = Vec::new();
        let mut i: usize = 0;
        while i < rel.len()
            invariant
                i <= rel@.len(),
                r@ == rel@.subrange(0, i as int),
            decreases rel@.len() - i,
        {
            r.push(rel[i]);
            i = i + 1;
            proof {
                assert(r@ =~= rel@.subrange(0, i as int));
            }
        }
        proof {
            assert(r@ =~= rel@);
        }
        r
    } else {
        let mut r: Vec<char> = Vec::new();
        let mut i: usize = 0;
        while i < base.len()
            invariant
                i <= base@.len(),
                r@ == base@.subrange(0, i as int),
            decreases base@.len() - i,
        {
            r.push(base[i]);
            i = i + 1;
            proof {
                assert(r@ =~= base@.subrange(0, i as int));
            }
        }
        proof {
            assert(r@ =~= base@);
        }
        if base[base.len() - 1] != '/' {
            r.push('/');
        }
        let mut i: usize = 0;
        let ghost head = r@;
        while i < rel.len()
            invariant
                i <= rel@.len(),
                r@ == head + rel@.subrange(0, i as int),
            decreases rel@.len() - i,
        {
            r.push(rel[i]);
            i = i + 1;
            proof {
                assert(r@ =~= head + rel@.subrange(0, i as int));
            }
        }
        proof {
            assert(rel@.subrange(0, rel@.len() as int) =~= rel@);
            assert(r@ =~= joined_path(base@, rel@));
        }
        r
    }
}

/// The segments of a path: the maximal runs of non-`/` characters, in order.
pub open spec fn segs_of(p: Seq<char>) -> Seq<Seq<char>>
    decreases p.len() when true
    via segs_of_decreases
{
    if p.len() == 0 {
        Seq::empty()
    } else if p[0] == '/' {
        segs_of(p.skip(1))
    } else {
        seq![p.subrange(0, find_from(p, 0, '/'))] + segs_of(p.skip(find_from(p, 0, '/')))
    }
}

#[via_fn]
proof fn segs_of_decreases(p: Seq<char>) {
    if p.len() > 0 && p[0] != '/' {
        lemma_find_from(p, 0, '/');
    }
}

/// Splits a path into its segments.
pub fn split_segments(v: &Vec<char>) -> (r: Vec<Vec<char>>)
    ensures
        r@.len() == segs_of(v@).len(),
        forall|i: int| 0 <= i < r@.len() ==> (#[trigger] r@[i])@ == segs_of(v@)[i],
{
    let mut r: Vec<Vec<char>> = Vec::new();
    let mut i: usize = 0;
    proof {
        assert(v@.skip(0) =~= v@);
        assert(r_views(r@) + segs_of(v@) =~= segs_of(v@));
    }
    while i < v.len()
        invariant
            i <= v@.len(),
            segs_of(v@) == r_views(r@) + segs_of(v@.skip(i as int)),
            r@.len() == r_views(r@).len(),
            forall|k: int| 0 <= k < r@.len() ==> (#[trigger] r@[k])@ == r_views(r@)[k],
        decreases v@.len() - i,
    {
        if v[i] == '/' {
            proof {
                assert(v@.skip(i as int)[0] == '/');
                assert(v@.skip(i as int).skip(1) =~= v@.skip(i as int + 1));
            }
            i = i + 1;
        } else {
            let j = find_char(v, i, '/');
            proof {
                lemma_find_from(v@, i as int, '/');
                lemma_find_from_skip(v@, i as int, '/');
                assert(v@.skip(i as int).subrange(0, find_from(v@.skip(i as int), 0, '/'))
                    =~= v@.subrange(i as int, j as int));
                assert(v@.skip(i as int).skip(find_from(v@.skip(i as int), 0, '/'))
                    =~= v@.skip(j as int));
            }
            let seg = sub_chars(v, i, j);
            let ghost old_r = r@;
            r.push(seg);
            proof {
                assert(r_views(r@) =~= r_views(old_r).push(seg@));
                assert(r_views(r@) + segs_of(v@.skip(j as int))
                    =~= r_views(old_r) + (seq![seg@] + segs_of(v@.skip(j as int))));
            }
            i = j;
        }
    }
    proof {
        assert(v@.skip(i as int) =~= Seq::<char>::empty());
        assert(segs_of(Seq::<char>::empty()) =~= Seq::<Seq<char>>::empty());
        assert(segs_of(v@) =~= r_views(r@));
    }
    r
}

/// The views of a sequence of character vectors.
pub open spec fn r_views(s: Seq<Vec<char>>) -> Seq<Seq<char>> {
    s.map_values(|v: Vec<char>| v@)
}

proof fn lemma_find_from_skip(s: Seq<char>, i: int, c: char)
    requires
        0 <= i <= s.len(),
    ensures
        find_from(s, i, c) == i + find_from(s.skip(i), 0, c),
    decreases s.len() - i,
{
    lemma_find_from(s, i, c);
    lemma_find_from(s.skip(i), 0, c);
    let q = find_from(s, i, c);
    let q2 = find_from(s.skip(i), 0, c);
    assert(forall|m: int| 0 <= m < s.skip(i).len() ==> s.skip(i)[m] == s[i + m]);
    if q < s.len() {
        if i + q2 < q {
            assert(s.skip(i)[q2] == c);
            assert(s[i + q2] == c);
            assert(false);
        }
        if i + q2 > q {
            assert(s[q] == c);
            assert(s.skip(i)[q - i] == c);
            assert(false);
        }
    } else {
        if i + q2 < q {
            assert(s.skip(i)[q2] == c);
            assert(false);
        }
    }
}

/// The sandbox containment test: `p` lies within `b` when both have the same
/// absoluteness and the segments of `b` are a prefix of the segments of `p`.
pub open spec fn path_within(p: Seq<char>, b: Seq<char>) -> bool {
    is_abs(p) == is_abs(b) && segs_of(b).is_prefix_of(segs_of(p))
}

/// Decides the sandbox containment test.
pub fn is_path_within(p: &Vec<char>, b: &Vec<char>) -> (r: bool)
    ensures
        r == path_within(p@, b@),
{
    let p_abs = p.len() > 0 && p[0] == '/';
    let b_abs = b.len() > 0 && b[0] == '/';
    if p_abs != b_abs {
        return false;
    }
    let ps = split_segments(p);
    let bs = split_segments(b);
    if bs.len() > ps.len() {
        proof {
            assert(!segs_of(b@).is_prefix_of(segs_of(p@)));
        }
        return false;
    }
    let mut i: usize = 0;
    while i < bs.len()
        invariant
            i <= bs@.len() <= ps@.len(),
            bs@.len() == segs_of(b@).len(),
            ps@.len() == segs_of(p@).len(),
            forall|k: int| 0 <= k < bs@.len() ==> (#[trigger] bs@[k])@ == segs_of(b@)[k],
            forall|k: int| 0 <= k < ps@.len() ==> (#[trigger] ps@[k])@ == segs_of(p@)[k],
            forall|k: int| 0 <= k < i ==> segs_of(b@)[k] == segs_of(p@)[k],
        decreases bs@.len() - i,
    {
        if !chars_eq(&bs[i], &ps[i]) {
            proof {
                assert(segs_of(b@)[i as int] != segs_of(p@)[i as int]);
                assert(!segs_of(b@).is_prefix_of(segs_of(p@)));
            }
            return false;
        }
        i = i + 1;
    }
    proof {
        assert(segs_of(b@) =~= segs_of(p@).subrange(0, segs_of(b@).len() as int));
    }
    true
}

/// The segments joined back with single separators, without a leading one.
pub open spec fn join_segs(ss: Seq<Seq<char>>) -> Seq<char>
    decreases ss.len(),
{
    if ss.len() == 0 {
        Seq::empty()
    } else if ss.len() == 1 {
        ss[0]
    } else {
        ss[0] + seq!['/'] + join_segs(ss.skip(1))
    }
}

pub proof fn lemma_join_segs_push(ss: Seq<Seq<char>>, x: Seq<char>)
    ensures
        ss.len() == 0 ==> join_segs(ss.push(x)) == x,
        ss.len() > 0 ==> join_segs(ss.push(x)) == join_segs(ss) + seq!['/'] + x,
    decreases ss.len(),
{
    if ss.len() == 0 {
        assert(ss.push(x)[0] =~= x);
    } else if ss.len() == 1 {
        assert(ss.push(x).skip(1) =~= seq![x]);
        assert(ss.push(x)[0] == ss[0]);
        assert(join_segs(seq![x]) == x);
        assert(join_segs(ss.push(x)) == ss[0] + seq!['/'] + x);
    } else {
        assert(ss.push(x).skip(1) =~= ss.skip(1).push(x));
        lemma_join_segs_push(ss.skip(1), x);
    }
}

/// The path `p` made relative to the base `b`: the segments of `p` past those
/// of `b`, joined again; `p` itself when it does not lie within `b`.
pub open spec fn rel_to_base(p: Seq<char>, b: Seq<char>) -> Seq<char> {
    if path_within(p, b) {
        join_segs(segs_of(p).skip(segs_of(b).len() as int))
    } else {
        p
    }
}

/// Computes the path relative to a base.
pub fn relative_to(p: &Vec<char>, b: &Vec<char>) -> (r: Vec<char>)
    ensures
        r@ == rel_to_base(p@, b@),
{
    if !is_path_within(p, b) {
        return crate::text::copy_chars(p);
    }
    let ps = split_segments(p);
    let bs = split_segments(b);
    let mut r: Vec<char> = Vec::new();
    let mut i: usize = bs.len();
    proof {
        assert(segs_of(p@).subrange(bs@.len() as int, i as int) =~= Seq::<Seq<char>>::empty());
    }
    while i < ps.len()
        invariant
            bs@.len() <= i <= ps@.len(),
            bs@.len() == segs_of(b@).len(),
            ps@.len() == segs_of(p@).len(),
            forall|k: int| 0 <= k < ps@.len() ==> (#[trigger] ps@[k])@ == segs_of(p@)[k],
            r@ == join_segs(segs_of(p@).subrange(bs@.len() as int, i as int)),
        decreases ps@.len() - i,
    {
        proof {
            lemma_join_segs_push(
                segs_of(p@).subrange(bs@.len() as int, i as int),
                segs_of(p@)[i as int],
            );
            assert(segs_of(p@).subrange(bs@.len() as int, i as int + 1)
                =~= segs_of(p@).subrange(bs@.len() as int, i as int).push(segs_of(p@)[i as int]));
        }
        if i > bs.len() {
            r.push('/');
        }
        crate::text::append_chars(&mut r, &ps[i]);
        i = i + 1;
    }
    proof {
        assert(segs_of(p@).subrange(bs@.len() as int, ps@.len() as int)
            =~= segs_of(p@).skip(segs_of(b@).len() as int));
    }
    r
}

/// The last index holding `c`, or -1 when there is none.
pub open spec fn rfind(s: Seq<char>, c: char) -> int
    decreases s.len(),
{
    if s.len() == 0 {
        -1
    } else if s.last() == c {
        s.len() - 1
    } else {
        rfind(s.drop_last(), c)
    }
}

pub proof fn lemma_rfind(s: Seq<char>, c: char)
    ensures
        -1 <= rfind(s, c) < s.len(),
        rfind(s, c) >= 0 ==> s[rfind(s, c)] == c,
        forall|m: int| rfind(s, c) < m < s.len() ==> s[m] != c,
    decreases s.len(),
{
    if s.len() > 0 && s.last() != c {
        lemma_rfind(s.drop_last(), c);
        assert(forall|m: int| 0 <= m < s.len() - 1 ==> s.drop_last()[m] == s[m]);
    }
}

/// Finds the last occurrence of `c`, if any.
pub fn rfind_char(v: &Vec<char>, c: char) -> (r: Option<usize>)
    ensures
        match r {
            Some(i) => i == rfind(v@, c),
            None => rfind(v@, c) == -1,
        },
{
    let mut i: usize = v.len();
    proof {
        assert(v@.subrange(0, v@.len() as int) =~= v@);
    }
    while i > 0
        invariant
            i <= v@.len(),
            rfind(v@, c) == rfind(v@.subrange(0, i as int), c),
        decreases i,
    {
        proof {
            assert(v@.subrange(0, i as int).last() == v@[i - 1]);
            assert(v@.subrange(0, i as int).drop_last() =~= v@.subrange(0, i as int - 1));
        }
        if v[i - 1] == c {
            proof {
                lemma_rfind(v@, c);
            }
            return Some(i - 1);
        }
        i = i - 1;
    }
    proof {
        assert(v@.subrange(0, 0) =~= Seq::<char>::empty());
    }
    None
}

/// The path with trailing separators and trailing `.` segments removed, the
/// way path normalization drops them: repeated `/` and `/.` tails disappear.
pub open spec fn trim_dot_tails(p: Seq<char>) -> Seq<char>
    decreases p.len(),
{
    if p.len() > 1 && p.last() == '/' {
        trim_dot_tails(p.drop_last())
    } else if p.len() >= 2 && p.last() == '.' && p[p.len() - 2] == '/' {
        trim_dot_tails(p.drop_last())
    } else {
        p
    }
}

/// Removes trailing separators and trailing `.` segments.
pub fn trim_dot_tails_exec(v: &Vec<char>) -> (r: Vec<char>)
    ensures
        r@ == trim_dot_tails(v@),
{
    let mut end: usize = v.len();
    proof {
        assert(v@.subrange(0, v@.len() as int) =~= v@);
    }
    while (end > 1 && v[end - 1] == '/') || (end >= 2 && v[end - 1] == '.' && v[end - 2] == '/')
        invariant
            end <= v@.len(),
            trim_dot_tails(v@) == trim_dot_tails(v@.subrange(0, end as int)),
        decreases end,
    {
        proof {
            assert(v@.subrange(0, end as int).last() == v@[end - 1]);
            if end >= 2 {
                assert(v@.subrange(0, end as int)[end - 2] == v@[end - 2]);
            }
            assert(v@.subrange(0, end as int).drop_last() =~= v@.subrange(0, end as int - 1));
        }
        end = end - 1;
    }
    proof {
        assert(trim_dot_tails(v@.subrange(0, end as int)) =~= v@.subrange(0, end as int));
    }
    crate::text::sub_chars(v, 0, end)
}

pub proof fn lemma_trim_dot_tails_len(p: Seq<char>)
    ensures
        trim_dot_tails(p).len() <= p.len(),
    decreases p.len(),
{
    if p.len() > 1 && p.last() == '/' {
        lemma_trim_dot_tails_len(p.drop_last());
    } else if p.len() >= 2 && p.last() == '.' && p[p.len() - 2] == '/' {
        lemma_trim_dot_tails_len(p.drop_last());
    }
}

pub proof fn lemma_trim_trailing_len(p: Seq<char>)
    ensures
        trim_trailing(p).len() <= p.len(),
    decreases p.len(),
{
    if p.len() > 1 && p.last() == '/' {
        lemma_trim_trailing_len(p.drop_last());
    }
}

/// A split-off parent is strictly shorter than the path it came from.
pub proof fn lemma_parent_shorter(t: Seq<char>)
    requires
        parent_name_of(t) is Some,
    ensures
        parent_name_of(t)->Some_0.0.len() < t.len(),
{
    let tt = trim_trailing(t);
    lemma_trim_trailing_len(t);
    lemma_rfind(tt, '/');
    if rfind(tt, '/') == 0 {
        assert(tt[0] == '/');
        assert(tt != seq!['/']);
        assert(tt.len() >= 2) by {
            if tt.len() == 1 {
                assert(tt =~= seq!['/']);
            }
        }
    }
}

/// The path with trailing separators removed, keeping a bare root.
pub open spec fn trim_trailing(p: Seq<char>) -> Seq<char>
    decreases p.len(),
{
    if p.len() > 1 && p.last() == '/' {
        trim_trailing(p.drop_last())
    } else {
        p
    }
}

/// The parent path and final name of a path, textually: trailing separators
/// dropped, then split at the last separator. `None` for an empty path or the
/// bare root.
pub open spec fn parent_name_of(p: Seq<char>) -> Option<(Seq<char>, Seq<char>)> {
    let t = trim_trailing(p);
    if t.len() == 0 || t == seq!['/'] {
        None::<(Seq<char>, Seq<char>)>
    } else {
        let i = rfind(t, '/');
        if i == -1 {
            Some((Seq::empty(), t))
        } else if i == 0 {
            Some((seq!['/'], t.skip(1)))
        } else {
            Some((t.subrange(0, i), t.skip(i + 1)))
        }
    }
}

/// Splits a path into parent and final name.
pub fn split_parent(v: &Vec<char>) -> (r: Option<(Vec<char>, Vec<char>)>)
    ensures
        match r {
            Some(pn) => parent_name_of(v@) matches Some(s) && pn.0@ == s.0 && pn.1@ == s.1,
            None => parent_name_of(v@) is None,
        },
{
    let mut end: usize = v.len();
    proof {
        assert(v@.subrange(0, v@.len() as int) =~= v@);
    }
    while end > 1 && v[end - 1] == '/'
        invariant
            end <= v@.len(),
            trim_trailing(v@) == trim_trailing(v@.subrange(0, end as int)),
        decreases end,
    {
        proof {
            assert(v@.subrange(0, end as int).last() == v@[end - 1]);
            assert(v@.subrange(0, end as int).drop_last() =~= v@.subrange(0, end as int - 1));
        }
        end = end - 1;
    }
    proof {
        if end == v@.len() {
            assert(v@.subrange(0, end as int) =~= v@);
        }
        assert(trim_trailing(v@.subrange(0, end as int)) =~= v@.subrange(0, end as int));
    }
    let t = sub_chars(v, 0, end);
    if t.len() == 0 || (t.len() == 1 && t[0] == '/') {
        proof {
            if t@.len() == 1 && t@[0] == '/' {
                assert(t@ =~= seq!['/']);
            }
        }
        return None;
    }
    proof {
        assert(t@ != seq!['/']) by {
            if t@ == seq!['/'] {
                assert(t@.len() == 1 && t@[0] == '/');
            }
        }
        lemma_rfind(t@, '/');
    }
    match rfind_char(&t, '/') {
        None => Some((Vec::new(), t)),
        Some(i) => {
            if i == 0 {
                let mut root: Vec<char> = Vec::new();
                root.push('/');
                proof {
                    assert(root@ =~= seq!['/']);
                    assert(t@.subrange(1, t@.len() as int) =~= t@.skip(1));
                }
                let name = sub_chars(&t, 1, t.len());
                Some((root, name))
            } else {
                let parent = sub_chars(&t, 0, i);
                proof {
                    assert(t@.subrange(i as int + 1, t@.len() as int) =~= t@.skip(i as int + 1));
                }
                let name = sub_chars(&t, i + 1, t.len());
                Some((parent, name))
            }
        },
    }
}

/// The final name of a path for the force-syntax hint in the size error:
/// the last segment, or `file` when there is none usable.
pub open spec fn hint_name_of(p: Seq<char>) -> Seq<char> {
    match parent_name_of(p) {
        Some(pn) => {
            if pn.1 == seq!['.'] || pn.1 == seq!['.', '.'] || pn.1.len() == 0 {
                seq!['f', 'i', 'l', 'e']
            } else {
                pn.1
            }
        },
        None => seq!['f', 'i', 'l', 'e'],
    }
}

fn fallback_name() -> (f: Vec<char>)
    ensures
        f@ == seq!['f', 'i', 'l', 'e'],
{
    let mut f: Vec<char> = Vec::new();
    f.push('f');
    f.push('i');
    f.push('l');
    f.push('e');
    proof {
        assert(f@ =~= seq!['f', 'i', 'l', 'e']);
    }
    f
}

/// Computes the name used in the size-limit hint.
pub fn hint_name(v: &Vec<char>) -> (r: Vec<char>)
    ensures
        r@ == hint_name_of(v@),
{
    match split_parent(v) {
        Some(pn) => {
            let name = pn.1;
            let is_dot = name.len() == 1 && name[0] == '.';
            let is_dotdot = name.len() == 2 && name[0] == '.' && name[1] == '.';
            if is_dot || is_dotdot || name.len() == 0 {
                proof {
                    if name@.len() == 1 && name@[0] == '.' {
                        assert(name@ =~= seq!['.']);
                    }
                    if name@.len() == 2 && name@[0] == '.' && name@[1] == '.' {
                        assert(name@ =~= seq!['.', '.']);
                    }
                }
                fallback_name()
            } else {
                proof {
                    assert(name@ != seq!['.']) by {
                        if name@ == seq!['.'] {
                            assert(name@.len() == 1 && name@[0] == '.');
                        }
                    }
                    assert(name@ != seq!['.', '.']) by {
                        if name@ == seq!['.', '.'] {
                            assert(name@.len() == 2 && name@[0] == '.' && name@[1] == '.');
                        }
                    }
                }
                name
            }
        },
        None => fallback_name(),
    }
}

} // verus!
