//! The file contents handed to the engine. The engine itself never opens a
//! file: whoever drives it reads the files and records, per path, either the
//! contents or the failure message of the attempted read. Expansion then
//! consumes these recorded outcomes.

use vstd::prelude::*;

use crate::text::str_to_chars;
use crate::text::chars_eq;

verus! {

/// Looks a path up in a sequence of recorded outcomes; the latest entry wins.
pub open spec fn lookup_in(
    s: Seq<(String, Result<String, String>)>,
    path: Seq<char>,
) -> Option<Result<Seq<char>, Seq<char>>>
    decreases s.len(),
{
    if s.len() == 0 {
        None
    } else if s.last().0@ == path {
        match s.last().1 {
            Ok(c) => Some(Ok(c@)),
            Err(m) => Some(Err(m@)),
        }
    } else {
        lookup_in(s.drop_last(), path)
    }
}

/// Recorded outcomes of file reads, keyed by path: the contents read, or the
/// message of the failure.
pub struct FileStore {
    entries: Vec<(String, Result<String, String>)>,
}

impl FileStore {
    /// What the store holds for a path, if anything.
    pub closed spec fn lookup(&self, path: Seq<char>) -> Option<Result<Seq<char>, Seq<char>>> {
        lookup_in(self.entries@, path)
    }

    /// An empty store.
    pub fn new() -> (r: FileStore)
        ensures
            forall|p: Seq<char>| r.lookup(p) is None,
    {
        FileStore { entries: Vec::new() }
    }

    /// Records contents successfully read for a path.
    pub fn insert(&mut self, path: String, contents: String)
        ensures
            final(self).lookup(path@) == Some(Ok::<Seq<char>, Seq<char>>(contents@)),
            forall|p: Seq<char>| p != path@ ==> final(self).lookup(p) == old(self).lookup(p),
    {
        let ghost before = self.entries@;
        self.entries.push((path, Ok(contents)));
        proof {
            assert(self.entries@.last() == self.entries@[before.len() as int]);
            assert(self.entries@.drop_last() =~= before);
        }
    }

    /// Records that reading a path failed, with the failure's message.
    pub fn insert_error(&mut self, path: String, message: String)
        ensures
            final(self).lookup(path@) == Some(Err::<Seq<char>, Seq<char>>(message@)),
            forall|p: Seq<char>| p != path@ ==> final(self).lookup(p) == old(self).lookup(p),
    {
        let ghost before = self.entries@;
        self.entries.push((path, Err(message)));
        proof {
            assert(self.entries@.last() == self.entries@[before.len() as int]);
            assert(self.entries@.drop_last() =~= before);
        }
    }

    /// Fetches the recorded outcome for a path, if any.
    pub fn get(&self, path: &str) -> (r: Option<Result<String, String>>)
        ensures
            match r {
                Some(Ok(c)) => self.lookup(path@) == Some(Ok::<Seq<char>, Seq<char>>(c@)),
                Some(Err(m)) => self.lookup(path@) == Some(Err::<Seq<char>, Seq<char>>(m@)),
                None => self.lookup(path@) is None,
            },
    {
        let pv = str_to_chars(path);
        let mut i: usize = self.entries.len();
        proof {
            assert(self.entries@.subrange(0, self.entries@.len() as int) =~= self.entries@);
        }
        while i > 0
            invariant
                i <= self.entries@.len(),
                pv@ == path@,
                lookup_in(self.entries@, path@) == lookup_in(
                    self.entries@.subrange(0, i as int),
                    path@,
                ),
            decreases i,
        {
            proof {
                assert(self.entries@.subrange(0, i as int).last() == self.entries@[i - 1]);
                assert(self.entries@.subrange(0, i as int).drop_last() =~= self.entries@.subrange(
                    0,
                    i as int - 1,
                ));
            }
            let key = str_to_chars(self.entries[i - 1].0.as_str());
            if chars_eq(&key, &pv) {
                return match &self.entries[i - 1].1 {
                    Ok(c) => Some(Ok(c.clone())),
                    Err(m) => Some(Err(m.clone())),
                };
            }
            i = i - 1;
        }
        proof {
            assert(self.entries@.subrange(0, 0) =~= Seq::<(String, Result<String, String>)>::empty());
        }
        None
    }
}

} // verus!
