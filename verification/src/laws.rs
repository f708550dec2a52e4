//! The library's laws: properties that relate several operations,
//! stated over the spec-level models that the operations' own contracts
//! use, and proved once and for all.

use vstd::prelude::*;

use crate::codec::lemma_reply_round_trip;
use crate::codec::lemma_thread_round_trip;
use crate::codec::spec_decode_reply;
use crate::codec::spec_decode_thread;
use crate::codec::spec_enc_reply;
use crate::codec::spec_enc_thread;
use crate::ids::matching_keys;
use crate::ids::reply_count;
use crate::ids::thread_count;
use crate::keys::lemma_kind_prefixes_disjoint;
use crate::keys::lemma_reply_prefix_scoped;
use crate::keys::lemma_thread_key_has_prefix;
use crate::keys::lemma_thread_key_injective;
use crate::keys::reply_key;
use crate::keys::reply_prefix;
use crate::keys::thread_key;
use crate::keys::thread_prefix;
use crate::model::Reply;
use crate::model::Thread;
use crate::model::ThreadModel;
use crate::pagination::le_act;
use crate::pagination::sorted_by_activity;
use crate::repo::created_reply;
use crate::repo::created_thread;
use crate::repo::touched;

verus! {

/// The keys of the thread records with ids `1..=n`.
pub open spec fn thread_key_range(n: int) -> Set<Seq<u8>> {
    Set::new(|k: Seq<u8>| exists|j: int| 1 <= j <= n && k == thread_key(j))
}

/// Inserting under a key that carries the prefix grows the matching set
/// by that key; inserting under any other key leaves it untouched.
proof fn lemma_matching_insert(m: Map<Seq<u8>, Seq<u8>>, p: Seq<u8>, k: Seq<u8>, v: Seq<u8>)
    ensures
        p.is_prefix_of(k) ==> matching_keys(m.insert(k, v), p) == matching_keys(m, p).insert(k),
        !p.is_prefix_of(k) ==> matching_keys(m.insert(k, v), p) == matching_keys(m, p),
{
    if p.is_prefix_of(k) {
        assert(matching_keys(m.insert(k, v), p) =~= matching_keys(m, p).insert(k));
    } else {
        assert(matching_keys(m.insert(k, v), p) =~= matching_keys(m, p));
    }
}

/// The range `1..=n` of thread keys, peeled at the top.
proof fn lemma_thread_key_range_unfold(n: int)
    requires
        1 <= n,
    ensures
        thread_key_range(n) == thread_key_range(n - 1).insert(thread_key(n)),
{
    assert(thread_key_range(n) =~= thread_key_range(n - 1).insert(thread_key(n))) by {
        assert forall|k: Seq<u8>| thread_key_range(n).contains(k) implies thread_key_range(
            n - 1,
        ).insert(thread_key(n)).contains(k) by {
            let j = choose|j: int| 1 <= j <= n && k == thread_key(j);
            if j < n {
                assert(thread_key_range(n - 1).contains(k));
            }
        }
        assert forall|k: Seq<u8>| thread_key_range(n - 1).insert(thread_key(n)).contains(
            k,
        ) implies thread_key_range(n).contains(k) by {
            if thread_key_range(n - 1).contains(k) {
                let j = choose|j: int| 1 <= j <= n - 1 && k == thread_key(j);
                assert(1 <= j <= n && k == thread_key(j));
            } else {
                assert(k == thread_key(n));
            }
        }
    }
}

/// There are exactly `n` thread keys with ids `1..=n`.
proof fn lemma_thread_key_range_card(n: int)
    requires
        0 <= n,
    ensures
        thread_key_range(n).finite(),
        thread_key_range(n).len() == n,
    decreases n,
{
    broadcast use vstd::set::group_set_axioms;

    if n == 0 {
        assert(thread_key_range(0) =~= Set::<Seq<u8>>::empty());
    } else {
        lemma_thread_key_range_card(n - 1);
        lemma_thread_key_range_unfold(n);
        assert(!thread_key_range(n - 1).contains(thread_key(n))) by {
            if thread_key_range(n - 1).contains(thread_key(n)) {
                let j = choose|j: int| 1 <= j <= n - 1 && thread_key(n) == thread_key(j);
                lemma_thread_key_injective(n, j);
            }
        }
    }
}

/// Law: a freshly created thread is immediately readable back. Writing
/// the record that `create` builds into the store and looking it up by
/// its key yields a present record with id above zero and exactly the
/// trimmed title and message.
pub proof fn lemma_create_then_get(
    m: Map<Seq<u8>, Seq<u8>>,
    title: Seq<char>,
    message: Seq<char>,
    image_url: Option<Seq<char>>,
    now: int,
)
    requires
        thread_count(m) + 1 <= 0x7fffffff,
        -0x8000000000000000 <= now <= 0x7fffffffffffffff,
    ensures
        ({
            let t = created_thread(m, title, message, image_url, now);
            let m1 = m.insert(thread_key(t.id), spec_enc_thread(t));
            &&& t.id > 0
            &&& m1.contains_key(thread_key(t.id))
            &&& spec_decode_thread(m1[thread_key(t.id)]) == Option::Some(t)
            &&& t.title == crate::model::trim_of(title)
            &&& t.message == crate::model::trim_of(message)
        }),
{
    let t = created_thread(m, title, message, image_url, now);
    lemma_thread_round_trip(t);
}

/// Law: sequential, non-concurrent creates number threads `1..=N` with
/// no gaps or repeats. If the store's thread records are exactly those
/// with ids `1..=n`, the next create observes count `n`, takes id
/// `n + 1`, and leaves the records at exactly `1..=n+1`.
pub proof fn lemma_sequential_thread_ids(m: Map<Seq<u8>, Seq<u8>>, n: int, v: Seq<u8>)
    requires
        0 <= n,
        matching_keys(m, thread_prefix()) == thread_key_range(n),
    ensures
        thread_count(m) == n,
        matching_keys(m.insert(thread_key(n + 1), v), thread_prefix()) == thread_key_range(n + 1),
{
    lemma_thread_key_range_card(n);
    lemma_thread_key_has_prefix(n + 1);
    lemma_matching_insert(m, thread_prefix(), thread_key(n + 1), v);
    lemma_thread_key_range_unfold(n + 1);
}

/// Law: reply scopes are independent. Writing a reply under one parent
/// never changes another parent's reply count, so each scope numbers its
/// replies from 1 on its own.
pub proof fn lemma_reply_scopes_independent(
    m: Map<Seq<u8>, Seq<u8>>,
    p1: int,
    p2: int,
    id: int,
    v: Seq<u8>,
)
    requires
        p1 != p2,
    ensures
        reply_count(m.insert(reply_key(p1, id), v), p2) == reply_count(m, p2),
{
    assert(!reply_prefix(p2).is_prefix_of(reply_key(p1, id))) by {
        if reply_prefix(p2).is_prefix_of(reply_key(p1, id)) {
            lemma_reply_prefix_scoped(p1, p2, id);
        }
    }
    lemma_matching_insert(m, reply_prefix(p2), reply_key(p1, id), v);
}

/// Law: thread records and reply records never shadow one another. A
/// thread write leaves every reply count alone, and a reply write leaves
/// the thread count alone.
pub proof fn lemma_kinds_independent(
    m: Map<Seq<u8>, Seq<u8>>,
    tid: int,
    p: int,
    id: int,
    v: Seq<u8>,
)
    ensures
        reply_count(m.insert(thread_key(tid), v), p) == reply_count(m, p),
        thread_count(m.insert(reply_key(p, id), v)) == thread_count(m),
{
    lemma_kind_prefixes_disjoint(p, id, tid);
    lemma_matching_insert(m, reply_prefix(p), thread_key(tid), v);
    lemma_matching_insert(m, thread_prefix(), reply_key(p, id), v);
}

/// Law: a scope with no replies yet numbers its first reply 1.
pub proof fn lemma_fresh_scope_first_id(m: Map<Seq<u8>, Seq<u8>>, p: int, message: Seq<char>)
    requires
        matching_keys(m, reply_prefix(p)) == Set::<Seq<u8>>::empty(),
    ensures
        created_reply(m, p, message).id == 1,
{
    broadcast use vstd::set::group_set_axioms;

    assert(matching_keys(m, reply_prefix(p)).len() == 0);
}

/// Law: a touch pins the activity stamp to the given time and changes
/// nothing else; with time moving forward it never decreases the stamp.
pub proof fn lemma_touch_monotonic(m0: ThreadModel, now: int)
    requires
        m0.last_updated <= now,
    ensures
        touched(m0, now).last_updated >= m0.last_updated,
        touched(m0, now).last_updated == now,
        touched(m0, now).id == m0.id,
        touched(m0, now).title == m0.title,
        touched(m0, now).message == m0.message,
        touched(m0, now).image_url == m0.image_url,
{
}

/// Law: in display order the most recently active thread stands first,
/// so the thread with the freshest reply leads the listing.
pub proof fn lemma_most_recent_first(s: Seq<ThreadModel>)
    requires
        sorted_by_activity(s),
        s.len() > 0,
    ensures
        forall|i: int| 0 <= i < s.len() ==> s[0].last_updated >= #[trigger] s[i].last_updated,
{
    assert forall|i: int| 0 <= i < s.len() implies s[0].last_updated >= #[trigger] s[
        i
    ].last_updated by {
        if i > 0 {
            assert(le_act(s[0], s[i]));
        }
    }
}

/// Law: every record round-trips losslessly through its serialized
/// form — serializing a thread or reply and deserializing the bytes
/// yields a record equal in all fields.
pub proof fn lemma_record_round_trip(t: Thread, rp: Reply)
    ensures
        spec_decode_thread(spec_enc_thread(t@)) == Option::Some(t@),
        spec_decode_reply(spec_enc_reply(rp@)) == Option::Some(rp@),
{
    lemma_thread_round_trip(t@);
    lemma_reply_round_trip(rp@);
}

} // verus!
