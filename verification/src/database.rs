//! The application's database: the key-value store of `kv` exposed as
//! the storage capability the session manager consumes, with a listing
//! that hides every reserved session field.

use vstd::prelude::*;
use vstd::string::*;
use crate::codec::{encode_entries, excluding, parse_store};
use crate::kv;
use crate::kv::{pairs_view, str_set, StoreError};
use crate::users::Storage;

verus! {

/// The durable store behind the session manager.
pub struct Database {
    store: kv::Database,
}

impl View for Database {
    type V = Map<Seq<char>, Seq<char>>;

    closed spec fn view(&self) -> Map<Seq<char>, Seq<char>> {
        self.store@
    }
}

impl Database {
    /// The records as view pairs, in storage order.
    pub closed spec fn entries_seq(&self) -> Seq<(Seq<char>, Seq<char>)> {
        self.store.entries_seq()
    }

    /// Well-formed: no two records share a key.
    pub closed spec fn wf(&self) -> bool {
        self.store.wf()
    }

    /// Creates an empty store, as opening a missing backing file does.
    pub fn new() -> (r: Database)
        ensures
            r.wf(),
            r@ == Map::<Seq<char>, Seq<char>>::empty(),
    {
        Database { store: kv::Database::new() }
    }

    /// Decodes backing-file contents into a store; fails with
    /// `CorruptStore` when some non-empty line has no tab.
    pub fn from_contents(contents: &str) -> (r: Result<Database, StoreError>)
        ensures
            match r {
                Ok(db) => db.wf() && parse_store(contents@) == Some(db@),
                Err(_) => parse_store(contents@) is None,
            },
    {
        match kv::Database::from_contents(contents) {
            Ok(store) => Ok(Database { store }),
            Err(e) => Err(e),
        }
    }

    /// Serializes the whole store into backing-file contents, ready to
    /// overwrite the prior file.
    pub fn encode(&self) -> (r: String)
        ensures
            r@ == encode_entries(self.entries_seq()),
    {
        self.store.encode()
    }

    /// A copy of all records except the reserved session fields, for
    /// auxiliary display.
    pub fn list(&self) -> (r: Vec<(String, String)>)
        ensures
            pairs_view(r@) == excluding(
                self.entries_seq(),
                set!["auth_token"@, "list_uuid"@, "expiration_timestamp"@],
            ),
    {
        let mut excluded: Vec<String> = Vec::new();
        excluded.push(String::from_str("auth_token"));
        excluded.push(String::from_str("list_uuid"));
        excluded.push(String::from_str("expiration_timestamp"));
        let r = self.store.list_excluding(&excluded);
        proof {
            assert(str_set(excluded@) =~= set![
                "auth_token"@,
                "list_uuid"@,
                "expiration_timestamp"@,
            ]) by {
                assert(excluded@[0]@ == "auth_token"@);
                assert(excluded@[1]@ == "list_uuid"@);
                assert(excluded@[2]@ == "expiration_timestamp"@);
            }
        }
        r
    }
}

impl Storage for Database {
    open spec fn contents(&self) -> Map<Seq<char>, Seq<char>> {
        self@
    }

    open spec fn inv(&self) -> bool {
        self.wf()
    }

    fn insert(&mut self, key: String, value: String) {
        self.store.insert(key, value);
    }

    fn get(&self, key: &str) -> (r: Option<&String>) {
        self.store.lookup(key)
    }

    fn remove(&mut self, key: &str) {
        self.store.remove_key(key);
    }
}

} // verus!
