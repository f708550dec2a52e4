//! RecordStore: the wrapper around the persistent ordered key-value
//! engine. The engine itself is trusted; its contents are modelled as a
//! map from byte keys to byte values, and each primitive states over that
//! map what the engine's own documentation and source promise.

use vstd::prelude::*;

use crate::byteseq::lex_lt;

verus! {

#[verifier::external_type_specification]
#[verifier::external_body]
pub struct ExDb(sled::Db);

#[verifier::external_type_specification]
#[verifier::external_body]
pub struct ExSledError(sled::Error);

/// Name for what the ordered key-value engine holds: the map from byte
/// keys to byte values behind a database handle.
pub uninterp spec fn db_contents(db: sled::Db) -> Map<Seq<u8>, Seq<u8>>;

/// Owner of the on-disk handle for the process lifetime. All reads and
/// writes of persisted records go through it.
pub struct RecordStore {
    pub db: sled::Db,
}

impl View for RecordStore {
    type V = Map<Seq<u8>, Seq<u8>>;

    open spec fn view(&self) -> Map<Seq<u8>, Seq<u8>> {
        db_contents(self.db)
    }
}

/// What a successful prefix scan returns, over the store's contents: the
/// pairs are exactly the entries whose key starts with the prefix, each
/// once, in ascending key order.
pub open spec fn scan_post(
    m: Map<Seq<u8>, Seq<u8>>,
    p: Seq<u8>,
    pairs: Seq<(Seq<u8>, Seq<u8>)>,
) -> bool {
    &&& forall|i: int|
        0 <= i < pairs.len() ==> m.contains_key(#[trigger] pairs[i].0) && m[pairs[i].0]
            == pairs[i].1 && p.is_prefix_of(pairs[i].0)
    &&& forall|k: Seq<u8>|
        #[trigger] m.contains_key(k) && p.is_prefix_of(k) ==> exists|i: int|
            0 <= i < pairs.len() && (#[trigger] pairs[i].0) == k
    &&& forall|i: int, j: int| 0 <= i < j < pairs.len() ==> lex_lt(pairs[i].0, pairs[j].0)
}

/// The byte-sequence view of a vector of key-value pairs.
pub open spec fn pairs_view(v: Seq<(Vec<u8>, Vec<u8>)>) -> Seq<(Seq<u8>, Seq<u8>)> {
    v.map_values(|q: (Vec<u8>, Vec<u8>)| (q.0@, q.1@))
}

impl RecordStore {
    /// Wraps an already-opened database handle.
    pub fn from_db(db: sled::Db) -> (r: RecordStore)
        ensures
            r.db == db,
    {
        RecordStore { db }
    }

    /// Relies on `sled::open`: opens (creating if absent) the store at
    /// the given path. Nothing is assumed about what it already holds.
    #[verifier::external_body]
    pub fn open(path: &str) -> Result<RecordStore, sled::Error> {
        match sled::open(path) {
            Ok(db) => Ok(RecordStore { db }),
            Err(e) => Err(e),
        }
    }

    /// Relies on `sled::Tree::get`: returns the value stored under the
    /// key, if any; an error reports an engine failure.
    #[verifier::external_body]
    pub fn get_raw(&self, key: &Vec<u8>) -> (r: Result<Option<Vec<u8>>, sled::Error>)
        ensures
            r matches Ok(Option::Some(v)) ==> db_contents(self.db).contains_key(key@)
                && db_contents(self.db)[key@] == v@,
            r matches Ok(Option::None) ==> !db_contents(self.db).contains_key(key@),
    {
        match self.db.get(key.as_slice()) {
            Ok(Some(iv)) => Ok(Some(iv.to_vec())),
            Ok(None) => Ok(None),
            Err(e) => Err(e),
        }
    }

    /// Relies on `sled::Tree::insert`: maps the key to the value. On an
    /// error the single-key write either took effect or left the tree as
    /// it was.
    #[verifier::external_body]
    pub fn put_raw(&mut self, key: &Vec<u8>, val: &Vec<u8>) -> (r: Result<(), sled::Error>)
        ensures
            r is Ok ==> db_contents(final(self).db) == db_contents(old(self).db).insert(
                key@,
                val@,
            ),
            r is Err ==> db_contents(final(self).db) == db_contents(old(self).db) || db_contents(
                final(self).db,
            ) == db_contents(old(self).db).insert(key@, val@),
    {
        match self.db.insert(key.as_slice(), val.as_slice()) {
            Ok(_) => Ok(()),
            Err(e) => Err(e),
        }
    }

    /// Relies on `sled::Tree::scan_prefix`: iterates, in ascending key
    /// order, exactly the entries whose key starts with the prefix. An
    /// error on any step reports an engine failure.
    #[verifier::external_body]
    pub fn scan_raw(&self, prefix: &Vec<u8>) -> (r: Result<Vec<(Vec<u8>, Vec<u8>)>, sled::Error>)
        ensures
            r matches Ok(v) ==> scan_post(db_contents(self.db), prefix@, pairs_view(v@)),
    {
        let mut out = Vec::new();
        for item in self.db.scan_prefix(prefix.as_slice()) {
            match item {
                Ok((k, v)) => out.push((k.to_vec(), v.to_vec())),
                Err(e) => return Err(e),
            }
        }
        Ok(out)
    }
}

/// Relies on `chrono::Utc::now`: the current unix timestamp, whatever
/// the clock says. `Utc::now` itself aborts on a system clock set before
/// 1970; that condition is a property of the machine, not of any
/// argument, so no precondition can exclude it here.
#[verifier::external_body]
pub fn current_timestamp() -> i64 {
    chrono::Utc::now().timestamp()
}

} // verus!
