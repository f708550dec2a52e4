//! Id allocation: the next identifier for a scope is the count of keys
//! already under that scope's prefix, plus one. No counter is persisted.
//!
//! This count-then-increment scheme is not atomic: two concurrent
//! allocations against the same observed contents derive the same id and
//! the later write silently overwrites the earlier record. That race is
//! inherited deliberately from the scheme itself; nothing here serializes
//! callers. A boundary that serializes its calls (one handle behind a
//! lock) will not observe it in-process, but the scheme stays non-atomic:
//! any two unserialized callers of the same store can still collide.

use vstd::prelude::*;

use crate::byteseq::lemma_lex_lt_irrefl;
use crate::keys::reply_prefix;
use crate::keys::reply_prefix_exec;
use crate::keys::thread_prefix;
use crate::keys::thread_scan_prefix_exec;
use crate::model::RepoError;
use crate::store::RecordStore;
use crate::store::pairs_view;
use crate::store::scan_post;

verus! {

/// The keys of `m` that carry the prefix `p`.
pub open spec fn matching_keys(m: Map<Seq<u8>, Seq<u8>>, p: Seq<u8>) -> Set<Seq<u8>> {
    m.dom().filter(|k: Seq<u8>| p.is_prefix_of(k))
}

/// How many thread records the store holds (malformed ones included,
/// exactly as the allocation scheme counts them).
pub open spec fn thread_count(m: Map<Seq<u8>, Seq<u8>>) -> nat {
    matching_keys(m, thread_prefix()).len()
}

/// How many reply records the store holds under one parent's scope.
pub open spec fn reply_count(m: Map<Seq<u8>, Seq<u8>>, parent: int) -> nat {
    matching_keys(m, reply_prefix(parent)).len()
}

/// A successful prefix scan enumerates the matching key set exactly: the
/// set is finite and its cardinality is the scan's length.
pub proof fn lemma_scan_count(
    m: Map<Seq<u8>, Seq<u8>>,
    p: Seq<u8>,
    pairs: Seq<(Seq<u8>, Seq<u8>)>,
)
    requires
        scan_post(m, p, pairs),
    ensures
        matching_keys(m, p).finite(),
        matching_keys(m, p).len() == pairs.len(),
{
    broadcast use vstd::seq_lib::seq_to_set_is_finite;

    let keys = pairs.map_values(|q: (Seq<u8>, Seq<u8>)| q.0);
    assert(keys.no_duplicates()) by {
        assert forall|i: int, j: int|
            0 <= i < keys.len() && 0 <= j < keys.len() && i != j implies keys[i] != keys[j] by {
            if i < j {
                lemma_lex_lt_irrefl(pairs[i].0);
            } else {
                lemma_lex_lt_irrefl(pairs[j].0);
            }
        }
    }
    assert(keys.to_set() =~= matching_keys(m, p)) by {
        assert forall|k: Seq<u8>| keys.to_set().contains(k) implies matching_keys(m, p).contains(
            k,
        ) by {
            let i = choose|i: int| 0 <= i < keys.len() && keys[i] == k;
            assert(m.contains_key(pairs[i].0));
        }
        assert forall|k: Seq<u8>| matching_keys(m, p).contains(k) implies keys.to_set().contains(
            k,
        ) by {
            assert(m.contains_key(k) && p.is_prefix_of(k));
            let i = choose|i: int| 0 <= i < pairs.len() && pairs[i].0 == k;
            assert(keys[i] == k);
        }
    }
    keys.unique_seq_to_set();
}

/// Derives the id for a new thread: the number of existing thread
/// records plus one.
pub fn next_thread_id(store: &RecordStore) -> (r: Result<i32, RepoError>)
    ensures
        r matches Ok(id) ==> 1 <= id && id as int == thread_count(store@) + 1,
        r == Err::<i32, RepoError>(RepoError::IdOverflow) ==> thread_count(store@) + 1
            > 0x7fffffff,
        r matches Err(e) ==> e == RepoError::Storage || e == RepoError::IdOverflow,
{
    let prefix = thread_scan_prefix_exec();
    match store.scan_raw(&prefix) {
        Ok(rows) => {
            proof {
                lemma_scan_count(store@, thread_prefix(), pairs_view(rows@));
            }
            if rows.len() >= 2147483647usize {
                Err(RepoError::IdOverflow)
            } else {
                Ok((rows.len() as i32) + 1)
            }
        },
        Err(_) => Err(RepoError::Storage),
    }
}

/// Derives the id for a new reply under a parent: the number of existing
/// replies in that parent's scope plus one.
pub fn next_reply_id(store: &RecordStore, parent_id: i32) -> (r: Result<i32, RepoError>)
    ensures
        r matches Ok(id) ==> 1 <= id && id as int == reply_count(store@, parent_id as int) + 1,
        r == Err::<i32, RepoError>(RepoError::IdOverflow) ==> reply_count(store@, parent_id as int)
            + 1 > 0x7fffffff,
        r matches Err(e) ==> e == RepoError::Storage || e == RepoError::IdOverflow,
{
    let prefix = reply_prefix_exec(parent_id);
    match store.scan_raw(&prefix) {
        Ok(rows) => {
            proof {
                lemma_scan_count(store@, reply_prefix(parent_id as int), pairs_view(rows@));
            }
            if rows.len() >= 2147483647usize {
                Err(RepoError::IdOverflow)
            } else {
                Ok((rows.len() as i32) + 1)
            }
        },
        Err(_) => Err(RepoError::Storage),
    }
}

} // verus!
