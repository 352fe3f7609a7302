//! The known content hashes of messages, keyed by package and name.

use vstd::prelude::*;

verus! {

/// The hash recorded last for `(package, name)` among `s`, where later
/// records stand first.
pub open spec fn lookup(s: Seq<((String, String), String)>, package: Seq<char>, name: Seq<char>) -> Option<Seq<char>>
    decreases s.len(),
{
    if s.len() == 0 {
        None
    } else if s[0].0.0@ == package && s[0].0.1@ == name {
        Some(s[0].1@)
    } else {
        lookup(s.drop_first(), package, name)
    }
}

/// A table from `(package, name)` to the hex MD5 of that message.
#[derive(Debug)]
pub struct MsgHashes {
    entries: Vec<((String, String), String)>,
}

impl MsgHashes {
    /// The hash held for `(package, name)`, if any.
    pub closed spec fn spec_get(&self, package: Seq<char>, name: Seq<char>) -> Option<Seq<char>> {
        lookup(self.entries@, package, name)
    }

    /// An empty table.
    pub fn new() -> (r: MsgHashes)
        ensures
            forall|p: Seq<char>, n: Seq<char>| #[trigger] r.spec_get(p, n) is None,
    {
        MsgHashes { entries: Vec::new() }
    }

    /// Records `value` as the hash of `key`, replacing any earlier one.
    pub fn insert(&mut self, key: (String, String), value: String)
        ensures
            forall|p: Seq<char>, n: Seq<char>| #[trigger] final(self).spec_get(p, n)
                == if p == key.0@ && n == key.1@ {
                    Some(value@)
                } else {
                    old(self).spec_get(p, n)
                },
    {
        let ghost before = self.entries@;
        self.entries.insert(0, (key, value));
        assert(self.entries@.drop_first() =~= before);
    }

    /// The hash held for `key`, if any.
    pub fn get(&self, key: &(String, String)) -> (r: Option<&String>)
        ensures
            match r {
                Some(h) => self.spec_get(key.0@, key.1@) == Some(h@),
                None => self.spec_get(key.0@, key.1@) is None,
            },
    {
        let mut i: usize = 0;
        assert(self.entries@.subrange(0, self.entries@.len() as int) =~= self.entries@);
        while i < self.entries.len()
            invariant
                i <= self.entries@.len(),
                lookup(self.entries@, key.0@, key.1@) == lookup(
                    self.entries@.subrange(i as int, self.entries@.len() as int),
                    key.0@,
                    key.1@,
                ),
            decreases self.entries@.len() - i,
        {
            let e = &self.entries[i];
            let ghost rest = self.entries@.subrange(i as int, self.entries@.len() as int);
            assert(rest[0] == self.entries@[i as int]);
            if e.0.0 == key.0 && e.0.1 == key.1 {
                return Some(&e.1);
            }
            assert(rest.drop_first() =~= self.entries@.subrange(i + 1, self.entries@.len() as int));
            i = i + 1;
        }
        None
    }
}

} // verus!
