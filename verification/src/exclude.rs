//! The exclusion filter: decides whether a walked entry is hidden from tree
//! rendering. Hidden entries (a name beginning with `.`) are dropped from
//! manual walks; glob patterns are matched against the path relative to the
//! sandbox root, a directory also against a synthetic child, so that a
//! pattern may hide a directory either by its bare name or with an explicit
//! wildcard suffix. A bare pattern matches only the literal relative path,
//! not the same name at arbitrary depth.

use vstd::prelude::*;

use crate::fsio::glob_match;
use crate::fsio::glob_set_matches;
use crate::paths::join_segs;
use crate::paths::r_views;
use crate::text::string_views;
use crate::text::chars_to_string;
use crate::text::append_chars;

verus! {

/// The synthetic child name a directory is additionally tested with.
pub open spec fn dummy_child() -> Seq<char> {
    "__textcon_dummy__"@
}

/// Whether one path segment names a hidden entry.
pub open spec fn seg_hidden(s: Seq<char>) -> bool {
    s.len() > 0 && s[0] == '.'
}

/// Whether any segment of the path names a hidden entry.
pub open spec fn any_hidden(segs: Seq<Seq<char>>) -> bool {
    exists|i: int| 0 <= i < segs.len() && seg_hidden(#[trigger] segs[i])
}

/// Decides whether any segment is hidden.
pub fn any_hidden_exec(segs: &Vec<Vec<char>>) -> (r: bool)
    ensures
        r == any_hidden(r_views(segs@)),
{
    let mut i: usize = 0;
    while i < segs.len()
        invariant
            i <= segs@.len(),
            forall|k: int| 0 <= k < i ==> !seg_hidden(r_views(segs@)[k]),
        decreases segs@.len() - i,
    {
        if segs[i].len() > 0 && segs[i][0] == '.' {
            proof {
                assert(seg_hidden(r_views(segs@)[i as int]));
            }
            return true;
        }
        i = i + 1;
    }
    false
}

/// Whether the prefix of the first `l` segments is struck by a pattern:
/// either the joined prefix itself matches, or (for a directory — every
/// proper prefix is one) the prefix with the synthetic child appended does.
pub open spec fn prefix_excluded(
    pats: Seq<Seq<char>>,
    rel_segs: Seq<Seq<char>>,
    l: int,
    entry_is_dir: bool,
) -> bool {
    let rel = join_segs(rel_segs.take(l));
    ||| glob_match(pats, rel)
    ||| ((l < rel_segs.len() || entry_is_dir) && glob_match(
        pats,
        rel + seq!['/'] + dummy_child(),
    ))
}

/// Whether an entry is excluded: some ancestor-or-self prefix deeper than
/// the walk root is struck. `skip` is how many leading segments stand for the
/// walk root itself: the root and its ancestors are never tested, only the
/// entries the walk visits.
pub open spec fn entry_excluded(
    pats: Seq<Seq<char>>,
    rel_segs: Seq<Seq<char>>,
    skip: int,
    entry_is_dir: bool,
) -> bool {
    exists|l: int| skip < l <= rel_segs.len() && prefix_excluded(pats, rel_segs, l, entry_is_dir)
}

/// Decides whether the entry with the given base-relative segments is
/// excluded by the patterns; the first `skip` segments name the walk root and
/// are not themselves tested. `Err` carries the message of a pattern that
/// does not compile.
pub fn is_entry_excluded(
    patterns: &Vec<String>,
    rel_segs: &Vec<Vec<char>>,
    skip: usize,
    entry_is_dir: bool,
) -> (r: Result<bool, String>)
    ensures
        r matches Ok(b) ==> b == entry_excluded(
            string_views(patterns@),
            r_views(rel_segs@),
            skip as int,
            entry_is_dir,
        ),
{
    let ghost pats = string_views(patterns@);
    let ghost segs = r_views(rel_segs@);
    let mut joined: Vec<char> = Vec::new();
    let mut l: usize = 0;
    proof {
        assert(segs.take(0) =~= Seq::<Seq<char>>::empty());
    }
    while l < rel_segs.len()
        invariant
            l <= rel_segs@.len(),
            segs == r_views(rel_segs@),
            pats == string_views(patterns@),
            segs.len() == rel_segs@.len(),
            forall|k: int| 0 <= k < segs.len() ==> (#[trigger] rel_segs@[k])@ == segs[k],
            joined@ == join_segs(segs.take(l as int)),
            forall|k: int| skip < k <= l ==> !prefix_excluded(pats, segs, k, entry_is_dir),
        decreases rel_segs@.len() - l,
    {
        proof {
            crate::paths::lemma_join_segs_push(segs.take(l as int), segs[l as int]);
            assert(segs.take(l as int + 1) =~= segs.take(l as int).push(segs[l as int]));
        }
        let ghost joined_old = joined@;
        if l > 0 {
            joined.push('/');
        }
        append_chars(&mut joined, &rel_segs[l]);
        proof {
            if l == 0 {
                assert(joined_old =~= Seq::<char>::empty());
                assert(joined@ =~= segs[l as int]);
            } else {
                assert(joined@ =~= joined_old + seq!['/'] + segs[l as int]);
            }
            assert(joined@ == join_segs(segs.take(l as int + 1)));
        }
        l = l + 1;
        if l > skip {
            let rel_str = chars_to_string(&joined);
            let self_hit = match glob_set_matches(patterns, rel_str.as_str()) {
                Ok(b) => b,
                Err(m) => {
                    return Err(m);
                },
            };
            if self_hit {
                proof {
                    assert(prefix_excluded(pats, segs, l as int, entry_is_dir));
                }
                return Ok(true);
            }
            if l < rel_segs.len() || entry_is_dir {
                let mut with_dummy = crate::text::copy_chars(&joined);
                with_dummy.push('/');
                let dummy = dummy_child_exec();
                append_chars(&mut with_dummy, &dummy);
                proof {
                    assert(with_dummy@ =~= joined@ + seq!['/'] + dummy_child());
                }
                let dummy_str = chars_to_string(&with_dummy);
                let dummy_hit = match glob_set_matches(patterns, dummy_str.as_str()) {
                    Ok(b) => b,
                    Err(m) => {
                        return Err(m);
                    },
                };
                if dummy_hit {
                    proof {
                        assert(prefix_excluded(pats, segs, l as int, entry_is_dir));
                    }
                    return Ok(true);
                }
            }
        }
    }
    proof {
        assert(!entry_excluded(pats, segs, skip as int, entry_is_dir));
    }
    Ok(false)
}

fn dummy_child_exec() -> (r: Vec<char>)
    ensures
        r@ == dummy_child(),
{
    proof {
        reveal_strlit("__textcon_dummy__");
    }
    crate::text::str_to_chars("__textcon_dummy__")
}

} // verus!
