//! The persistent key-value store's in-memory half: a mapping from string
//! keys to string values, decoded from and re-encoded to the tab-delimited
//! line format of the backing file. The file itself is read and written by
//! the surrounding program; everything here works on plain contents.

use vstd::prelude::*;
use vstd::string::*;
use crate::codec::{
    encode_entries, entry_line, excluding, lemma_encode_entries_push, lemma_find_char_is,
    lemma_map_of_entries_absent, lemma_map_of_entries_lookup, lemma_map_of_entries_push,
    lemma_map_of_entries_remove, map_of_entries, parse_entries, parse_store, unique_keys,
};

verus! {

/// Why decoding the backing file failed: some non-empty line has no tab
/// delimiter between key and value.
pub enum StoreError {
    CorruptStore,
}

/// The record sequence a vector of string pairs denotes.
pub open spec fn pairs_view(es: Seq<(String, String)>) -> Seq<(Seq<char>, Seq<char>)> {
    es.map_values(|e: (String, String)| (e.0@, e.1@))
}

/// The set of key views a vector of key strings denotes.
pub open spec fn str_set(ks: Seq<String>) -> Set<Seq<char>> {
    Set::new(|k: Seq<char>| exists|i: int| 0 <= i < ks.len() && (#[trigger] ks[i])@ == k)
}

/// Character-for-character string equality, stated over the views.
fn str_eq(a: &str, b: &str) -> (r: bool)
    ensures
        r == (a@ == b@),
{
    let an = a.unicode_len();
    let bn = b.unicode_len();
    if an != bn {
        return false;
    }
    let mut i: usize = 0;
    while i < an
        invariant
            i <= an,
            an == a@.len(),
            an == b@.len(),
            forall|k: int| 0 <= k < i ==> a@[k] == b@[k],
        decreases an - i,
    {
        if a.get_char(i) != b.get_char(i) {
            return false;
        }
        i += 1;
    }
    proof {
        assert(a@ =~= b@);
    }
    true
}

/// The in-memory store: an association list of records with unique keys.
pub struct Database {
    entries: Vec<(String, String)>,
}

impl View for Database {
    type V = Map<Seq<char>, Seq<char>>;

    closed spec fn view(&self) -> Map<Seq<char>, Seq<char>> {
        map_of_entries(self.entries_seq())
    }
}

impl Database {
    /// The records as view pairs, in storage order.
    pub closed spec fn entries_seq(&self) -> Seq<(Seq<char>, Seq<char>)> {
        pairs_view(self.entries@)
    }

    /// Well-formed: no two records share a key.
    pub closed spec fn wf(&self) -> bool {
        unique_keys(self.entries_seq())
    }

    /// Creates an empty store.
    pub fn new() -> (r: Database)
        ensures
            r.wf(),
            r@ == Map::<Seq<char>, Seq<char>>::empty(),
    {
        let r = Database { entries: Vec::new() };
        proof {
            assert(r.entries_seq() =~= Seq::<(Seq<char>, Seq<char>)>::empty());
        }
        r
    }

    /// Index of the record holding `key`, if any.
    fn find_index(&self, key: &str) -> (r: Option<usize>)
        ensures
            match r {
                Some(i) => i < self.entries_seq().len() && self.entries_seq()[i as int].0 == key@,
                None => forall|i: int|
                    0 <= i < self.entries_seq().len() ==> (#[trigger] self.entries_seq()[i]).0
                        != key@,
            },
    {
        let mut i: usize = 0;
        while i < self.entries.len()
            invariant
                i <= self.entries@.len(),
                forall|m: int|
                    0 <= m < i ==> (#[trigger] self.entries_seq()[m]).0 != key@,
            decreases self.entries@.len() - i,
        {
            if str_eq(self.entries[i].0.as_str(), key) {
                return Some(i);
            }
            i += 1;
        }
        None
    }

    /// Pure lookup, no side effects.
    pub fn lookup(&self, key: &str) -> (r: Option<&String>)
        requires
            self.wf(),
        ensures
            match r {
                Some(v) => self@.contains_key(key@) && v@ == self@[key@],
                None => !self@.contains_key(key@),
            },
    {
        match self.find_index(key) {
            Some(i) => {
                proof {
                    lemma_map_of_entries_lookup(self.entries_seq(), i as int);
                }
                Some(&self.entries[i].1)
            },
            None => {
                proof {
                    lemma_map_of_entries_absent(self.entries_seq(), key@);
                }
                None
            },
        }
    }

    /// Pure lookup of a key's stored value.
    pub fn get(&self, key: &String) -> (r: Option<&String>)
        requires
            self.wf(),
        ensures
            match r {
                Some(v) => self@.contains_key(key@) && v@ == self@[key@],
                None => !self@.contains_key(key@),
            },
    {
        self.lookup(key.as_str())
    }

    /// Deletes the record holding `key`; no-op when the key is absent.
    pub fn remove_key(&mut self, key: &str)
        requires
            old(self).wf(),
        ensures
            final(self).wf(),
            final(self)@ == old(self)@.remove(key@),
            forall|i: int|
                0 <= i < final(self).entries_seq().len()
                    ==> (#[trigger] final(self).entries_seq()[i]).0 != key@,
    {
        match self.find_index(key) {
            Some(i) => {
                proof {
                    lemma_map_of_entries_remove(self.entries_seq(), i as int);
                }
                let ghost before = self.entries@;
                self.entries.remove(i);
                proof {
                    assert(self.entries_seq() =~= pairs_view(before).remove(i as int));
                    assert(forall|m: int|
                        0 <= m < i ==> #[trigger] pairs_view(before).remove(i as int)[m]
                            == pairs_view(before)[m]);
                    assert(forall|m: int|
                        i <= m < pairs_view(before).remove(i as int).len()
                            ==> #[trigger] pairs_view(before).remove(i as int)[m] == pairs_view(
                            before,
                        )[m + 1]);
                }
            },
            None => {
                proof {
                    lemma_map_of_entries_absent(self.entries_seq(), key@);
                    assert(old(self)@.remove(key@) =~= old(self)@);
                }
            },
        }
    }

    /// Deletes the record holding `key`; no-op when the key is absent.
    pub fn remove(&mut self, key: &String)
        requires
            old(self).wf(),
        ensures
            final(self).wf(),
            final(self)@ == old(self)@.remove(key@),
    {
        self.remove_key(key.as_str());
    }

    /// Stores `value` under `key`, overwriting any existing value.
    pub fn insert(&mut self, key: String, value: String)
        requires
            old(self).wf(),
        ensures
            final(self).wf(),
            final(self)@ == old(self)@.insert(key@, value@),
    {
        self.remove_key(key.as_str());
        let ghost mid = *self;
        proof {
            lemma_map_of_entries_push(self.entries_seq(), key@, value@);
        }
        self.entries.push((key, value));
        proof {
            assert(self.entries_seq() =~= mid.entries_seq().push((key@, value@)));
            assert(old(self)@.remove(key@).insert(key@, value@) =~= old(self)@.insert(
                key@,
                value@,
            ));
        }
    }

    /// Serializes the whole store into backing-file contents.
    pub fn encode(&self) -> (r: String)
        ensures
            r@ == encode_entries(self.entries_seq()),
    {
        let mut r = String::new();
        let mut i: usize = 0;
        proof {
            assert(self.entries_seq().take(0) =~= Seq::<(Seq<char>, Seq<char>)>::empty());
        }
        while i < self.entries.len()
            invariant
                i <= self.entries@.len(),
                r@ == encode_entries(self.entries_seq().take(i as int)),
            decreases self.entries@.len() - i,
        {
            let ghost es = self.entries_seq();
            let ghost before = r@;
            r.append(self.entries[i].0.as_str());
            r.append("\t");
            r.append(self.entries[i].1.as_str());
            r.append("\n");
            proof {
                reveal_strlit("\t");
                reveal_strlit("\n");
                assert("\t"@ =~= seq!['\t']);
                assert("\n"@ =~= seq!['\n']);
                assert(es.take(i + 1) =~= es.take(i as int).push(es[i as int]));
                lemma_encode_entries_push(es.take(i as int), es[i as int].0, es[i as int].1);
                assert(r@ =~= before + entry_line(es[i as int].0, es[i as int].1));
            }
            i += 1;
        }
        proof {
            assert(self.entries_seq().take(self.entries@.len() as int) =~= self.entries_seq());
        }
        r
    }

    /// Decodes backing-file contents into a store; a later record for a
    /// key replaces an earlier one. Fails with `CorruptStore` when some
    /// non-empty line has no tab.
    pub fn from_contents(contents: &str) -> (r: Result<Database, StoreError>)
        ensures
            match r {
                Ok(db) => db.wf() && parse_store(contents@) == Some(db@),
                Err(_) => parse_store(contents@) is None,
            },
    {
        let n = contents.unicode_len();
        let mut i: usize = 0;
        let mut raw: Vec<(String, String)> = Vec::new();
        proof {
            assert(contents@.skip(0) =~= contents@);
            assert(pairs_view(raw@) =~= Seq::<(Seq<char>, Seq<char>)>::empty());
        }
        while i < n
            invariant
                i <= n,
                n == contents@.len(),
                match parse_entries(contents@.skip(i as int)) {
                    Some(tail) => parse_entries(contents@) == Some(pairs_view(raw@) + tail),
                    None => parse_entries(contents@) is None,
                },
            decreases n - i,
        {
            let ghost s = contents@;
            let ghost suffix = s.skip(i as int);
            let mut j = i;
            while j < n && contents.get_char(j) != '\n'
                invariant
                    i <= j <= n,
                    n == contents@.len(),
                    forall|k: int| i <= k < j ==> contents@[k] != '\n',
                decreases n - j,
            {
                j += 1;
            }
            proof {
                assert(forall|m: int| 0 <= m < suffix.len() ==> #[trigger] suffix[m] == s[i + m]);
                lemma_find_char_is(suffix, '\n', j - i);
            }
            let ghost line = suffix.take(j - i);
            let ghost rest = if j < n {
                s.skip(j + 1)
            } else {
                Seq::<char>::empty()
            };
            proof {
                if j < n {
                    assert(suffix.skip(j - i + 1) =~= s.skip(j + 1));
                } else {
                    assert(suffix.skip(j - i) =~= Seq::<char>::empty());
                }
            }
            if j == i {
                // empty line: skip it
                proof {
                    assert(line.len() == 0);
                    assert(parse_entries(suffix) == parse_entries(rest));
                }
                i = j + 1;
            } else {
                let mut t = i;
                while t < j && contents.get_char(t) != '\t'
                    invariant
                        i <= t <= j <= n,
                        n == contents@.len(),
                        forall|k: int| i <= k < t ==> contents@[k] != '\t',
                    decreases j - t,
                {
                    t += 1;
                }
                proof {
                    assert(forall|m: int|
                        0 <= m < line.len() ==> #[trigger] line[m] == s[i + m]);
                }
                if t == j {
                    // no tab in a non-empty line: the file is corrupt
                    proof {
                        lemma_find_char_is(line, '\t', line.len() as int);
                        assert(parse_entries(suffix) is None);
                    }
                    return Err(StoreError::CorruptStore);
                }
                proof {
                    lemma_find_char_is(line, '\t', t - i);
                }
                let key = contents.substring_char(i, t).to_owned();
                let value = contents.substring_char(t + 1, j).to_owned();
                proof {
                    assert(key@ =~= line.take(t - i));
                    assert(value@ =~= line.skip(t - i + 1));
                }
                let ghost raw_before = raw@;
                raw.push((key, value));
                proof {
                    assert(parse_entries(suffix) == (match parse_entries(rest) {
                        Some(es) => Some(seq![(line.take(t - i), line.skip(t - i + 1))] + es),
                        None => None::<Seq<(Seq<char>, Seq<char>)>>,
                    }));
                    assert(pairs_view(raw@) =~= pairs_view(raw_before).push((key@, value@)));
                    if parse_entries(rest) is Some {
                        let es = parse_entries(rest)->Some_0;
                        assert(pairs_view(raw_before) + (seq![(key@, value@)] + es) =~= pairs_view(
                            raw@,
                        ) + es);
                    }
                }
                if j < n {
                    i = j + 1;
                } else {
                    i = n;
                    proof {
                        assert(s.skip(n as int) =~= Seq::<char>::empty());
                    }
                }
            }
        }
        proof {
            assert(contents@.skip(n as int) =~= Seq::<char>::empty());
            assert(parse_entries(contents@) == Some(pairs_view(raw@)));
        }
        let mut db = Database::new();
        let mut k: usize = 0;
        proof {
            assert(pairs_view(raw@).take(0) =~= Seq::<(Seq<char>, Seq<char>)>::empty());
        }
        while k < raw.len()
            invariant
                k <= raw@.len(),
                db.wf(),
                db@ == map_of_entries(pairs_view(raw@).take(k as int)),
            decreases raw@.len() - k,
        {
            let key = raw[k].0.clone();
            let value = raw[k].1.clone();
            db.insert(key, value);
            proof {
                let es = pairs_view(raw@);
                assert(es.take(k + 1).drop_last() =~= es.take(k as int));
                assert(es.take(k + 1).last() == es[k as int]);
            }
            k += 1;
        }
        proof {
            assert(pairs_view(raw@).take(raw@.len() as int) =~= pairs_view(raw@));
        }
        Ok(db)
    }

    /// A copy of all records except those whose key is in `excluded`, in
    /// storage order.
    pub fn list_excluding(&self, excluded: &Vec<String>) -> (r: Vec<(String, String)>)
        ensures
            pairs_view(r@) == excluding(self.entries_seq(), str_set(excluded@)),
    {
        let ghost ks = str_set(excluded@);
        let mut r: Vec<(String, String)> = Vec::new();
        let mut i: usize = 0;
        proof {
            assert(self.entries_seq().take(0) =~= Seq::<(Seq<char>, Seq<char>)>::empty());
            assert(pairs_view(r@) =~= Seq::<(Seq<char>, Seq<char>)>::empty());
        }
        while i < self.entries.len()
            invariant
                i <= self.entries@.len(),
                pairs_view(r@) == excluding(self.entries_seq().take(i as int), ks),
                ks == str_set(excluded@),
            decreases self.entries@.len() - i,
        {
            let ghost es = self.entries_seq();
            let mut found = false;
            let mut j: usize = 0;
            while j < excluded.len()
                invariant
                    j <= excluded@.len(),
                    found == exists|m: int|
                        0 <= m < j && (#[trigger] excluded@[m])@ == es[i as int].0,
                    i < es.len(),
                    es == self.entries_seq(),
                decreases excluded@.len() - j,
            {
                if str_eq(excluded[j].as_str(), self.entries[i].0.as_str()) {
                    found = true;
                }
                j += 1;
            }
            proof {
                assert(found == ks.contains(es[i as int].0));
                assert(es.take(i + 1).drop_last() =~= es.take(i as int));
                assert(es.take(i + 1).last() == es[i as int]);
            }
            let ghost r_before = r@;
            if !found {
                r.push((self.entries[i].0.clone(), self.entries[i].1.clone()));
                proof {
                    assert(pairs_view(r@) =~= pairs_view(r_before).push(es[i as int]));
                }
            }
            i += 1;
        }
        proof {
            assert(self.entries_seq().take(self.entries@.len() as int) =~= self.entries_seq());
        }
        r
    }

    /// All records except the reserved session token and list id, for
    /// auxiliary display.
    pub fn list(&self) -> (r: Vec<(String, String)>)
        ensures
            pairs_view(r@) == excluding(
                self.entries_seq(),
                set!["auth_token"@, "list_uuid"@],
            ),
    {
        let mut excluded: Vec<String> = Vec::new();
        excluded.push(String::from_str("auth_token"));
        excluded.push(String::from_str("list_uuid"));
        let r = self.list_excluding(&excluded);
        proof {
            assert(str_set(excluded@) =~= set!["auth_token"@, "list_uuid"@]) by {
                assert(excluded@[0]@ == "auth_token"@);
                assert(excluded@[1]@ == "list_uuid"@);
            }
        }
        r
    }
}

} // verus!
