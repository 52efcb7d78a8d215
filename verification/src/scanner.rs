//! The reference scanner: finds every `{{ @... }}` token in a template, left
//! to right, non-overlapping, with character offsets into the original text.
//!
//! A token is a double brace, optional whitespace, an `@`-prefixed run of
//! non-`}` characters (with trailing whitespace not part of the reference),
//! and a closing double brace. A `!` directly after the `@` marks a forced
//! reference. Malformed spans are simply not matched; scanning never fails.

use vstd::prelude::*;

use crate::error::TextconError;
use crate::text::find_from;
use crate::text::lemma_find_from;
use crate::text::find_char;
use crate::text::str_to_chars;
use crate::text::chars_to_string;
use crate::text::sub_chars;

verus! {

/// One reference token discovered in a template.
#[derive(Debug, Clone)]
pub struct TemplateReference {
    /// The verbatim matched span, braces included.
    pub full_match: String,
    /// The `@`-prefixed reference inside the braces, trimmed.
    pub reference: String,
    /// Offset of the first character of the match.
    pub start: usize,
    /// Offset one past the last character of the match.
    pub end: usize,
    /// Whether the reference begins with `@!`.
    pub force: bool,
}

impl PartialEq for TemplateReference {
    fn eq(&self, other: &TemplateReference) -> (r: bool) {
        self.full_match == other.full_match && self.reference == other.reference
            && self.start == other.start && self.end == other.end && self.force == other.force
    }
}

impl vstd::std_specs::cmp::PartialEqSpecImpl for TemplateReference {
    open spec fn obeys_eq_spec() -> bool {
        true
    }

    open spec fn eq_spec(&self, other: &TemplateReference) -> bool {
        self.full_match@ == other.full_match@ && self.reference@ == other.reference@
            && self.start == other.start && self.end == other.end && self.force == other.force
    }
}

/// The whitespace characters that may pad a reference inside its braces:
/// ASCII whitespace only; exotic spacing characters are not trimmed.
pub open spec fn is_space(c: char) -> bool {
    c == ' ' || c == '\t' || c == '\n' || c == '\r' || c == '\x0b' || c == '\x0c'
}

fn is_space_exec(c: char) -> (r: bool)
    ensures
        r == is_space(c),
{
    c == ' ' || c == '\t' || c == '\n' || c == '\r' || c == '\x0b' || c == '\x0c'
}

/// The first index at or after `i` holding a non-whitespace character, or the
/// length when there is none.
pub open spec fn skip_spaces(t: Seq<char>, i: int) -> int
    decreases t.len() - i when 0 <= i <= t.len()
{
    if i >= t.len() {
        i
    } else if is_space(t[i]) {
        skip_spaces(t, i + 1)
    } else {
        i
    }
}

pub proof fn lemma_skip_spaces(t: Seq<char>, i: int)
    requires
        0 <= i <= t.len(),
    ensures
        i <= skip_spaces(t, i) <= t.len(),
        skip_spaces(t, i) < t.len() ==> !is_space(t[skip_spaces(t, i)]),
        forall|m: int| i <= m < skip_spaces(t, i) ==> is_space(t[m]),
    decreases t.len() - i,
{
    if i < t.len() && is_space(t[i]) {
        lemma_skip_spaces(t, i + 1);
    }
}

fn skip_spaces_exec(t: &Vec<char>, i: usize) -> (r: usize)
    requires
        i <= t@.len(),
    ensures
        r == skip_spaces(t@, i as int),
{
    let mut j: usize = i;
    while j < t.len() && is_space_exec(t[j])
        invariant
            i <= j <= t@.len(),
            skip_spaces(t@, i as int) == skip_spaces(t@, j as int),
        decreases t@.len() - j,
    {
        j = j + 1;
    }
    j
}

/// The end of the captured reference: the first brace position `q` trimmed
/// back over whitespace, but never back past the marker; the part after the
/// marker may be empty (a bare `@` names the sandbox root).
pub open spec fn capture_end(t: Seq<char>, k: int, q: int) -> int
    decreases q - k when 0 <= k <= q <= t.len()
{
    if q - 1 >= k && is_space(t[q - 1]) {
        capture_end(t, k, q - 1)
    } else {
        q
    }
}

pub proof fn lemma_capture_end(t: Seq<char>, k: int, q: int)
    requires
        0 <= k <= q <= t.len(),
    ensures
        k <= capture_end(t, k, q) <= q,
        forall|m: int| capture_end(t, k, q) <= m < q ==> is_space(t[m]),
    decreases q - k,
{
    if q - 1 >= k && is_space(t[q - 1]) {
        lemma_capture_end(t, k, q - 1);
    }
}

fn capture_end_exec(t: &Vec<char>, k: usize, q: usize) -> (r: usize)
    requires
        k <= q <= t@.len(),
    ensures
        r == capture_end(t@, k as int, q as int),
{
    let mut e: usize = q;
    while e > k && is_space_exec(t[e - 1])
        invariant
            k <= e <= q <= t@.len(),
            capture_end(t@, k as int, q as int) == capture_end(t@, k as int, e as int),
        decreases e,
    {
        e = e - 1;
    }
    e
}

/// A match attempt at open position `s`: `Some((cap_start, cap_end, end))`
/// when a reference token begins exactly at `s`, where the captured reference
/// is `t[cap_start..cap_end]` and the whole match is `t[s..end]`.
pub open spec fn match_at(t: Seq<char>, s: int) -> Option<(int, int, int)> {
    if !(0 <= s && s + 2 <= t.len() && t[s] == '{' && t[s + 1] == '{') {
        None
    } else {
        let j = skip_spaces(t, s + 2);
        if j >= t.len() || t[j] != '@' {
            None
        } else {
            let k = if j + 1 < t.len() && t[j + 1] == '!' {
                j + 2
            } else {
                j + 1
            };
            let q = find_from(t, k, '}');
            if q + 1 >= t.len() || t[q + 1] != '}' {
                None
            } else {
                Some((j, capture_end(t, k, q), q + 2))
            }
        }
    }
}

/// What a successful match guarantees about its offsets.
pub proof fn lemma_match_at(t: Seq<char>, s: int)
    requires
        match_at(t, s) is Some,
    ensures
        ({
            let m = match_at(t, s)->Some_0;
            &&& 0 <= s
            &&& s + 2 <= m.0
            &&& m.0 < m.1
            &&& m.1 + 2 <= m.2
            &&& m.2 <= t.len()
            &&& t[m.0] == '@'
        }),
{
    let j = skip_spaces(t, s + 2);
    lemma_skip_spaces(t, s + 2);
    let k = if j + 1 < t.len() && t[j + 1] == '!' {
        j + 2
    } else {
        j + 1
    };
    let q = find_from(t, k, '}');
    lemma_find_from(t, k, '}');
    lemma_capture_end(t, k, q);
}

fn match_at_exec(t: &Vec<char>, s: usize) -> (r: Option<(usize, usize, usize)>)
    requires
        s < t@.len(),
    ensures
        match r {
            Some(m) => match_at(t@, s as int) == Some((m.0 as int, m.1 as int, m.2 as int)),
            None => match_at(t@, s as int) is None,
        },
{
    if t.len() - s < 2 || t[s] != '{' || t[s + 1] != '{' {
        return None;
    }
    let j = skip_spaces_exec(t, s + 2);
    proof {
        lemma_skip_spaces(t@, s as int + 2);
    }
    if j >= t.len() || t[j] != '@' {
        return None;
    }
    let k = if j < t.len() - 1 && t[j + 1] == '!' {
        j + 2
    } else {
        j + 1
    };
    let q = find_char(t, k, '}');
    proof {
        lemma_find_from(t@, k as int, '}');
    }
    if q >= t.len() - 1 || t[q + 1] != '}' {
        return None;
    }
    let e = capture_end_exec(t, k, q);
    Some((j, e, q + 2))
}

/// Every match of the token grammar in `t`, scanning from position `s`:
/// leftmost-first and non-overlapping. Each entry is
/// `(start, cap_start, cap_end, end)`.
pub open spec fn scan_from(t: Seq<char>, s: int) -> Seq<(int, int, int, int)>
    decreases t.len() - s when 0 <= s
    via scan_from_decreases
{
    if s >= t.len() {
        Seq::empty()
    } else {
        match match_at(t, s) {
            Some(m) => seq![(s, m.0, m.1, m.2)] + scan_from(t, m.2),
            None => scan_from(t, s + 1),
        }
    }
}

#[via_fn]
proof fn scan_from_decreases(t: Seq<char>, s: int) {
    if s < t.len() && match_at(t, s) is Some {
        lemma_match_at(t, s);
    }
}

/// The matches of the whole template.
pub open spec fn scan_spec(t: Seq<char>) -> Seq<(int, int, int, int)> {
    scan_from(t, 0)
}

/// Well-formedness of one scan entry `(start, cap_start, cap_end, end)`.
pub open spec fn scan_entry_wf(t: Seq<char>, s: int, m: (int, int, int, int)) -> bool {
    &&& s <= m.0
    &&& m.0 + 2 <= m.1
    &&& m.1 < m.2
    &&& m.2 + 2 <= m.3
    &&& m.3 <= t.len()
    &&& t[m.1] == '@'
}

/// Well-formedness of the scan: offsets ordered and in bounds, captures
/// beginning with `@`, consecutive matches non-overlapping.
pub proof fn lemma_scan_from_wf(t: Seq<char>, s: int)
    requires
        0 <= s,
    ensures
        forall|i: int|
            0 <= i < scan_from(t, s).len() ==> scan_entry_wf(t, s, #[trigger] scan_from(t, s)[i]),
        forall|i: int, j: int|
            0 <= i < j < scan_from(t, s).len() ==> (#[trigger] scan_from(t, s)[i]).3 <= (
            #[trigger] scan_from(t, s)[j]).0,
    decreases t.len() - s,
{
    if s < t.len() {
        let ms = scan_from(t, s);
        match match_at(t, s) {
            Some(m) => {
                lemma_match_at(t, s);
                lemma_scan_from_wf(t, m.2);
                let rec = (s, m.0, m.1, m.2);
                let rest = scan_from(t, m.2);
                assert(ms == seq![rec] + rest);
                assert(ms[0] == rec);
                assert forall|i: int| 1 <= i < ms.len() implies #[trigger] ms[i] == rest[i - 1] by {
                    assert(ms[i] == (seq![rec] + rest)[i]);
                }
                assert forall|i: int| 0 <= i < ms.len() implies scan_entry_wf(
                    t,
                    s,
                    #[trigger] ms[i],
                ) by {
                    if i >= 1 {
                        assert(scan_entry_wf(t, m.2, rest[i - 1]));
                    }
                }
                assert forall|i: int, j: int| 0 <= i < j < ms.len() implies (#[trigger] ms[i]).3
                    <= (#[trigger] ms[j]).0 by {
                    assert(scan_entry_wf(t, s, ms[i]));
                    if i >= 1 {
                        assert(ms[i] == rest[i - 1] && ms[j] == rest[j - 1]);
                    } else {
                        assert(scan_entry_wf(t, m.2, rest[j - 1]));
                        assert(ms[j] == rest[j - 1]);
                    }
                }
            },
            None => {
                lemma_scan_from_wf(t, s + 1);
                let next = scan_from(t, s + 1);
                assert(ms == next);
                assert forall|i: int| 0 <= i < ms.len() implies scan_entry_wf(
                    t,
                    s,
                    #[trigger] ms[i],
                ) by {
                    assert(ms[i] == next[i]);
                    assert(scan_entry_wf(t, s + 1, next[i]));
                }
                assert forall|i: int, j: int| 0 <= i < j < ms.len() implies (#[trigger] ms[i]).3
                    <= (#[trigger] ms[j]).0 by {
                    assert(ms[i] == next[i] && ms[j] == next[j]);
                }
            },
        }
    }
}

/// Whether one discovered reference faithfully presents one match.
pub open spec fn ref_of_match(t: Seq<char>, rf: TemplateReference, m: (int, int, int, int)) -> bool {
    &&& rf.start == m.0
    &&& rf.end == m.3
    &&& rf.full_match@ == t.subrange(m.0, m.3)
    &&& rf.reference@ == t.subrange(m.1, m.2)
    &&& rf.force == (m.1 + 1 < m.2 && t[m.1 + 1] == '!')
}

/// Whether a list of references presents exactly the scan of `t`.
pub open spec fn refs_of_scan(t: Seq<char>, refs: Seq<TemplateReference>) -> bool {
    let ms = scan_spec(t);
    &&& refs.len() == ms.len()
    &&& forall|i: int| 0 <= i < ms.len() ==> ref_of_match(t, #[trigger] refs[i], ms[i])
}

/// Finds all reference tokens in the template, in source order.
///
/// Never fails: malformed or unterminated tokens are simply not matched.
pub fn find_references(template: &str) -> (r: Result<Vec<TemplateReference>, TextconError>)
    ensures
        r is Ok,
        refs_of_scan(template@, r->Ok_0@),
        forall|i: int|
            0 <= i < r->Ok_0@.len() ==> {
                let rf = #[trigger] r->Ok_0@[i];
                &&& rf.start < rf.end <= template@.len()
                &&& rf.reference@.len() > 0
                &&& rf.reference@[0] == '@'
            },
        forall|i: int, j: int|
            0 <= i < j < r->Ok_0@.len() ==> (#[trigger] r->Ok_0@[i]).end <= (
            #[trigger] r->Ok_0@[j]).start,
{
    let t = str_to_chars(template);
    let ghost tv = t@;
    let mut refs: Vec<TemplateReference> = Vec::new();
    let ghost mut done: Seq<(int, int, int, int)> = Seq::empty();
    let mut s: usize = 0;
    proof {
        assert(done + scan_from(tv, 0) =~= scan_from(tv, 0));
    }
    while s < t.len()
        invariant
            tv == template@,
            t@ == tv,
            s <= tv.len(),
            scan_spec(tv) == done + scan_from(tv, s as int),
            refs@.len() == done.len(),
            forall|i: int| 0 <= i < done.len() ==> ref_of_match(tv, #[trigger] refs@[i], done[i]),
        decreases tv.len() - s,
    {
        match match_at_exec(&t, s) {
            Some(m) => {
                proof {
                    lemma_match_at(tv, s as int);
                }
                let (cs, ce, e) = m;
                let full = chars_to_string(&sub_chars(&t, s, e));
                let reference = chars_to_string(&sub_chars(&t, cs, ce));
                let force = cs + 1 < ce && t[cs + 1] == '!';
                let ghost old_done = done;
                let ghost rec = (s as int, cs as int, ce as int, e as int);
                refs.push(
                    TemplateReference { full_match: full, reference, start: s, end: e, force },
                );
                proof {
                    done = old_done.push(rec);
                    assert(scan_from(tv, s as int) =~= seq![rec] + scan_from(tv, e as int));
                    assert(done + scan_from(tv, e as int) =~= old_done + scan_from(tv, s as int));
                }
                s = e;
            },
            None => {
                proof {
                    assert(scan_from(tv, s as int) == scan_from(tv, s as int + 1));
                }
                s = s + 1;
            },
        }
    }
    proof {
        assert(scan_from(tv, s as int) =~= Seq::<(int, int, int, int)>::empty());
        assert(scan_spec(tv) =~= done);
        lemma_scan_from_wf(tv, 0);
        assert(forall|i: int|
            0 <= i < refs@.len() ==> ref_of_match(tv, #[trigger] refs@[i], scan_spec(tv)[i]));
    }
    Ok(refs)
}

} // verus!
