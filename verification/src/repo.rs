//! The repositories: create, fetch, list and touch operations over
//! thread and reply records, built on the store, the key codec, the id
//! allocator and the record codec.

use vstd::prelude::*;

use crate::codec::decode_reply;
use crate::codec::decode_thread;
use crate::codec::encode_reply;
use crate::codec::encode_thread;
use crate::codec::spec_decode_reply;
use crate::codec::spec_decode_thread;
use crate::codec::spec_enc_reply;
use crate::codec::spec_enc_thread;
use crate::ids::next_reply_id;
use crate::ids::next_thread_id;
use crate::ids::reply_count;
use crate::ids::thread_count;
use crate::keys::reply_key;
use crate::keys::reply_key_exec;
use crate::keys::reply_prefix;
use crate::keys::reply_prefix_exec;
use crate::keys::thread_key;
use crate::keys::thread_key_exec;
use crate::keys::thread_prefix;
use crate::keys::thread_scan_prefix_exec;
use crate::model::RecordRead;
use crate::model::Reply;
use crate::model::ReplyModel;
use crate::model::RepoError;
use crate::model::Thread;
use crate::model::ThreadModel;
use crate::model::trim_of;
use crate::model::trim_string;
use crate::store::RecordStore;
use crate::store::current_timestamp;
use crate::store::pairs_view;
use crate::store::scan_post;

verus! {

/// View of an optional string argument.
pub open spec fn opt_str_view(o: Option<String>) -> Option<Seq<char>> {
    match o {
        Option::None => Option::None,
        Option::Some(u) => Option::Some(u@),
    }
}

/// The thread record that a create against contents `m` produces.
pub open spec fn created_thread(
    m: Map<Seq<u8>, Seq<u8>>,
    title: Seq<char>,
    message: Seq<char>,
    image_url: Option<Seq<char>>,
    now: int,
) -> ThreadModel {
    ThreadModel {
        id: thread_count(m) + 1 as int,
        title: trim_of(title),
        message: trim_of(message),
        last_updated: now,
        image_url,
    }
}

/// The reply record that a create against contents `m` produces.
pub open spec fn created_reply(m: Map<Seq<u8>, Seq<u8>>, parent: int, message: Seq<char>)
    -> ReplyModel {
    ReplyModel { id: reply_count(m, parent) + 1 as int, message: trim_of(message) }
}

/// The contents that a thread write against `m`, stamped `now`, leaves:
/// the one new record under its count-derived key.
pub open spec fn thread_write(
    m: Map<Seq<u8>, Seq<u8>>,
    title: Seq<char>,
    message: Seq<char>,
    image_url: Option<Seq<char>>,
    now: int,
) -> Map<Seq<u8>, Seq<u8>> {
    let t = created_thread(m, title, message, image_url, now);
    m.insert(thread_key(t.id), spec_enc_thread(t))
}

/// A record with its activity stamp refreshed.
pub open spec fn touched(m: ThreadModel, now: int) -> ThreadModel {
    ThreadModel { last_updated: now, ..m }
}

/// What a touch leaves behind, whatever the engine did: either the
/// contents are untouched (the parent was absent, malformed, or the
/// write failed cleanly), or the parent's record was decodable and now
/// carries the fresh stamp.
pub open spec fn touch_post(
    pre: Map<Seq<u8>, Seq<u8>>,
    parent: int,
    now: int,
    post: Map<Seq<u8>, Seq<u8>>,
) -> bool {
    post == pre || (pre.contains_key(thread_key(parent)) && (spec_decode_thread(
        pre[thread_key(parent)],
    ) matches Option::Some(m0) && post == pre.insert(
        thread_key(parent),
        spec_enc_thread(touched(m0, now)),
    )))
}

/// Creates a thread at the given timestamp: trims both fields, rejects
/// empty ones, allocates the next id by count, and writes the record.
pub fn create_thread_at(
    store: &mut RecordStore,
    title: &str,
    message: &str,
    image_url: Option<String>,
    now: i64,
) -> (r: Result<Thread, RepoError>)
    ensures
        r == Err::<Thread, RepoError>(RepoError::Validation) <==> (trim_of(title@).len() == 0
            || trim_of(message@).len() == 0),
        r == Err::<Thread, RepoError>(RepoError::Validation) ==> final(store)@ == old(store)@,
        r matches Ok(t) ==> {
            &&& t@ == created_thread(
                old(store)@,
                title@,
                message@,
                opt_str_view(image_url),
                now as int,
            )
            &&& 1 <= t@.id <= 0x7fffffff
            &&& final(store)@ == old(store)@.insert(thread_key(t@.id), spec_enc_thread(t@))
        },
        r == Err::<Thread, RepoError>(RepoError::IdOverflow) ==> thread_count(old(store)@) + 1
            > 0x7fffffff && final(store)@ == old(store)@,
        r == Err::<Thread, RepoError>(RepoError::Storage) ==> ({
            let t = created_thread(old(store)@, title@, message@, opt_str_view(image_url), now as int);
            final(store)@ == old(store)@ || final(store)@ == old(store)@.insert(
                thread_key(t.id),
                spec_enc_thread(t),
            )
        }),
{
    let tt = trim_string(title);
    let tm = trim_string(message);
    if tt.as_str().is_empty() || tm.as_str().is_empty() {
        return Err(RepoError::Validation);
    }
    let id = match next_thread_id(store) {
        Ok(i) => i,
        Err(e) => {
            return Err(e);
        },
    };
    let t = Thread { id, title: tt, message: tm, last_updated: now, image_url };
    let key = thread_key_exec(id);
    let val = encode_thread(&t);
    match store.put_raw(&key, &val) {
        Ok(_) => Ok(t),
        Err(_) => Err(RepoError::Storage),
    }
}

/// Creates a thread stamped with the current clock reading.
pub fn create_thread(
    store: &mut RecordStore,
    title: &str,
    message: &str,
    image_url: Option<String>,
) -> (r: Result<Thread, RepoError>)
    ensures
        r == Err::<Thread, RepoError>(RepoError::Validation) <==> (trim_of(title@).len() == 0
            || trim_of(message@).len() == 0),
        r == Err::<Thread, RepoError>(RepoError::Validation) ==> final(store)@ == old(store)@,
        r matches Ok(t) ==> t@ == created_thread(
            old(store)@,
            title@,
            message@,
            opt_str_view(image_url),
            t@.last_updated,
        ) && final(store)@ == old(store)@.insert(thread_key(t@.id), spec_enc_thread(t@)),
        r == Err::<Thread, RepoError>(RepoError::IdOverflow) ==> thread_count(old(store)@) + 1
            > 0x7fffffff && final(store)@ == old(store)@,
        r == Err::<Thread, RepoError>(RepoError::Storage) ==> (final(store)@ == old(store)@
            || exists|n: int|
            final(store)@ == #[trigger] thread_write(
                old(store)@,
                title@,
                message@,
                opt_str_view(image_url),
                n,
            )),
{
    let now = current_timestamp();
    let r = create_thread_at(store, title, message, image_url, now);
    proof {
        let t = created_thread(old(store)@, title@, message@, opt_str_view(image_url), now as int);
        if store@ == old(store)@.insert(thread_key(t.id), spec_enc_thread(t)) {
            assert(store@ == thread_write(
                old(store)@,
                title@,
                message@,
                opt_str_view(image_url),
                now as int,
            ));
        }
    }
    r
}

/// Reads one thread record and says exactly what it found: the record,
/// its absence, or bytes that no longer decode. An engine failure is
/// reported, not folded into absence.
pub fn read_thread(store: &RecordStore, id: i32) -> (r: Result<RecordRead<Thread>, RepoError>)
    ensures
        r matches Ok(RecordRead::Found(t)) ==> store@.contains_key(thread_key(id as int))
            && spec_decode_thread(store@[thread_key(id as int)]) == Option::Some(t@),
        r matches Ok(rr) && rr is Absent ==> !store@.contains_key(thread_key(id as int)),
        r matches Ok(rr) && rr is Corrupt ==> store@.contains_key(thread_key(id as int))
            && spec_decode_thread(store@[thread_key(id as int)]) is None,
        r matches Err(e) ==> e == RepoError::Storage,
{
    let key = thread_key_exec(id);
    match store.get_raw(&key) {
        Ok(Some(bytes)) => match decode_thread(&bytes) {
            Some(t) => Ok(RecordRead::Found(t)),
            None => Ok(RecordRead::Corrupt),
        },
        Ok(None) => Ok(RecordRead::Absent),
        Err(_) => Err(RepoError::Storage),
    }
}

/// Fetches a thread by id, treating a missing record, a malformed record
/// and an engine failure all as "not found", as the boundary does.
pub fn get_thread_by_id(store: &RecordStore, id: i32) -> (r: Option<Thread>)
    ensures
        r matches Option::Some(t) ==> store@.contains_key(thread_key(id as int))
            && spec_decode_thread(store@[thread_key(id as int)]) == Option::Some(t@),
{
    match read_thread(store, id) {
        Ok(RecordRead::Found(t)) => Option::Some(t),
        _ => Option::None,
    }
}

/// Re-stamps a thread's last activity: reads the record, rewrites it
/// with the new timestamp. A missing or malformed record is a silent
/// no-op (`Ok(None)`); a failed write is reported.
pub fn touch_thread(store: &mut RecordStore, id: i32, now: i64) -> (r: Result<
    Option<Thread>,
    RepoError,
>)
    ensures
        touch_post(old(store)@, id as int, now as int, final(store)@),
        r matches Ok(Option::Some(t)) ==> {
            &&& old(store)@.contains_key(thread_key(id as int))
            &&& spec_decode_thread(old(store)@[thread_key(id as int)]) matches Option::Some(m0)
                && t@ == touched(m0, now as int)
            &&& final(store)@ == old(store)@.insert(thread_key(id as int), spec_enc_thread(t@))
        },
        r matches Ok(o) && o is None ==> final(store)@ == old(store)@ && (!old(
            store,
        )@.contains_key(thread_key(id as int)) || spec_decode_thread(
            old(store)@[thread_key(id as int)],
        ) is None),
        r matches Err(e) ==> e == RepoError::Storage,
{
    match read_thread(store, id) {
        Ok(RecordRead::Found(t)) => {
            let t2 = Thread { last_updated: now, ..t };
            let key = thread_key_exec(id);
            let val = encode_thread(&t2);
            match store.put_raw(&key, &val) {
                Ok(_) => Ok(Option::Some(t2)),
                Err(_) => Err(RepoError::Storage),
            }
        },
        Ok(_) => Ok(Option::None),
        Err(e) => Err(e),
    }
}

/// Creates a reply at the given timestamp: trims the message, rejects an
/// empty one, allocates the id inside the parent's scope, writes the
/// record, then refreshes the parent's activity stamp best-effort: a
/// missing or malformed parent does not undo the reply.
pub fn create_reply_at(store: &mut RecordStore, parent_id: i32, message: &str, now: i64) -> (r:
    Result<Reply, RepoError>)
    ensures
        r == Err::<Reply, RepoError>(RepoError::Validation) <==> trim_of(message@).len() == 0,
        r == Err::<Reply, RepoError>(RepoError::Validation) ==> final(store)@ == old(store)@,
        r matches Ok(rp) ==> {
            &&& rp@ == created_reply(old(store)@, parent_id as int, message@)
            &&& 1 <= rp@.id <= 0x7fffffff
            &&& touch_post(
                old(store)@.insert(
                    reply_key(parent_id as int, rp@.id),
                    spec_enc_reply(rp@),
                ),
                parent_id as int,
                now as int,
                final(store)@,
            )
        },
        r == Err::<Reply, RepoError>(RepoError::IdOverflow) ==> reply_count(
            old(store)@,
            parent_id as int,
        ) + 1 > 0x7fffffff && final(store)@ == old(store)@,
        r == Err::<Reply, RepoError>(RepoError::Storage) ==> ({
            let rp = created_reply(old(store)@, parent_id as int, message@);
            final(store)@ == old(store)@ || final(store)@ == old(store)@.insert(
                reply_key(parent_id as int, rp.id),
                spec_enc_reply(rp),
            )
        }),
{
    let tm = trim_string(message);
    if tm.as_str().is_empty() {
        return Err(RepoError::Validation);
    }
    let id = match next_reply_id(store, parent_id) {
        Ok(i) => i,
        Err(e) => {
            return Err(e);
        },
    };
    let rp = Reply { id, message: tm };
    let key = reply_key_exec(parent_id, id);
    let val = encode_reply(&rp);
    match store.put_raw(&key, &val) {
        Ok(_) => {
            let _touched = touch_thread(store, parent_id, now);
            Ok(rp)
        },
        Err(_) => Err(RepoError::Storage),
    }
}

/// Creates a reply stamped with the current clock reading.
pub fn create_reply(store: &mut RecordStore, parent_id: i32, message: &str) -> (r: Result<
    Reply,
    RepoError,
>)
    ensures
        r == Err::<Reply, RepoError>(RepoError::Validation) <==> trim_of(message@).len() == 0,
        r == Err::<Reply, RepoError>(RepoError::Validation) ==> final(store)@ == old(store)@,
        r matches Ok(rp) ==> rp@ == created_reply(old(store)@, parent_id as int, message@)
            && exists|n: int|
            #[trigger] touch_post(
                old(store)@.insert(reply_key(parent_id as int, rp@.id), spec_enc_reply(rp@)),
                parent_id as int,
                n,
                final(store)@,
            ),
        r == Err::<Reply, RepoError>(RepoError::IdOverflow) ==> reply_count(
            old(store)@,
            parent_id as int,
        ) + 1 > 0x7fffffff && final(store)@ == old(store)@,
        r == Err::<Reply, RepoError>(RepoError::Storage) ==> ({
            let rp = created_reply(old(store)@, parent_id as int, message@);
            final(store)@ == old(store)@ || final(store)@ == old(store)@.insert(
                reply_key(parent_id as int, rp.id),
                spec_enc_reply(rp),
            )
        }),
{
    let now = current_timestamp();
    create_reply_at(store, parent_id, message, now)
}

/// The thread records among scanned pairs, in scan order, malformed ones
/// skipped.
pub open spec fn decoded_threads(pairs: Seq<(Seq<u8>, Seq<u8>)>) -> Seq<ThreadModel>
    decreases pairs.len(),
{
    if pairs.len() == 0 {
        Seq::empty()
    } else {
        let rest = decoded_threads(pairs.drop_last());
        match spec_decode_thread(pairs.last().1) {
            Option::Some(m) => rest.push(m),
            Option::None => rest,
        }
    }
}

/// The reply records among scanned pairs, in scan order, malformed ones
/// skipped.
pub open spec fn decoded_replies(pairs: Seq<(Seq<u8>, Seq<u8>)>) -> Seq<ReplyModel>
    decreases pairs.len(),
{
    if pairs.len() == 0 {
        Seq::empty()
    } else {
        let rest = decoded_replies(pairs.drop_last());
        match spec_decode_reply(pairs.last().1) {
            Option::Some(m) => rest.push(m),
            Option::None => rest,
        }
    }
}

/// The models of a vector of threads.
pub open spec fn thread_models(s: Seq<Thread>) -> Seq<ThreadModel> {
    s.map_values(|t: Thread| t@)
}

/// The models of a vector of replies.
pub open spec fn reply_models(s: Seq<Reply>) -> Seq<ReplyModel> {
    s.map_values(|rp: Reply| rp@)
}

/// Lists every well-formed thread record, in scan order; malformed
/// records are skipped, never propagated. An engine failure is reported.
pub fn list_all_threads(store: &RecordStore) -> (r: Result<Vec<Thread>, RepoError>)
    ensures
        r matches Ok(v) ==> exists|pairs: Seq<(Seq<u8>, Seq<u8>)>|
            #[trigger] scan_post(store@, thread_prefix(), pairs) && thread_models(v@)
                == decoded_threads(pairs),
        r matches Err(e) ==> e == RepoError::Storage,
{
    let prefix = thread_scan_prefix_exec();
    let rows = match store.scan_raw(&prefix) {
        Ok(rows) => rows,
        Err(_) => {
            return Err(RepoError::Storage);
        },
    };
    let ghost pairs = pairs_view(rows@);
    let mut out: Vec<Thread> = Vec::new();
    let mut i: usize = 0;
    while i < rows.len()
        invariant
            i <= rows.len(),
            pairs == pairs_view(rows@),
            thread_models(out@) == decoded_threads(pairs.subrange(0, i as int)),
        decreases rows.len() - i,
    {
        let ghost pre = pairs.subrange(0, i as int);
        match decode_thread(&rows[i].1) {
            Some(t) => {
                let ghost t0 = t@;
                out.push(t);
                proof {
                    assert(thread_models(out@) =~= thread_models(out@.drop_last()).push(t0));
                }
            },
            None => {},
        }
        proof {
            assert(pairs.subrange(0, i + 1).drop_last() =~= pre);
            assert(pairs.subrange(0, i + 1).last() == pairs[i as int]);
            assert(pairs[i as int].1 == rows@[i as int].1@);
        }
        i += 1;
    }
    proof {
        assert(pairs.subrange(0, rows@.len() as int) =~= pairs);
        assert(scan_post(store@, thread_prefix(), pairs));
        assert(thread_models(out@) == decoded_threads(pairs));
    }
    Ok(out)
}

/// Lists every well-formed reply under one parent, in scan order;
/// malformed records are skipped. An engine failure is reported.
pub fn list_replies_for_thread(store: &RecordStore, parent_id: i32) -> (r: Result<
    Vec<Reply>,
    RepoError,
>)
    ensures
        r matches Ok(v) ==> exists|pairs: Seq<(Seq<u8>, Seq<u8>)>|
            #[trigger] scan_post(store@, reply_prefix(parent_id as int), pairs) && reply_models(v@)
                == decoded_replies(pairs),
        r matches Err(e) ==> e == RepoError::Storage,
{
    let prefix = reply_prefix_exec(parent_id);
    let rows = match store.scan_raw(&prefix) {
        Ok(rows) => rows,
        Err(_) => {
            return Err(RepoError::Storage);
        },
    };
    let ghost pairs = pairs_view(rows@);
    let mut out: Vec<Reply> = Vec::new();
    let mut i: usize = 0;
    while i < rows.len()
        invariant
            i <= rows.len(),
            pairs == pairs_view(rows@),
            reply_models(out@) == decoded_replies(pairs.subrange(0, i as int)),
        decreases rows.len() - i,
    {
        let ghost pre = pairs.subrange(0, i as int);
        match decode_reply(&rows[i].1) {
            Some(rp) => {
                let ghost r0 = rp@;
                out.push(rp);
                proof {
                    assert(reply_models(out@) =~= reply_models(out@.drop_last()).push(r0));
                }
            },
            None => {},
        }
        proof {
            assert(pairs.subrange(0, i + 1).drop_last() =~= pre);
            assert(pairs.subrange(0, i + 1).last() == pairs[i as int]);
            assert(pairs[i as int].1 == rows@[i as int].1@);
        }
        i += 1;
    }
    proof {
        assert(pairs.subrange(0, rows@.len() as int) =~= pairs);
        assert(scan_post(store@, reply_prefix(parent_id as int), pairs));
        assert(reply_models(out@) == decoded_replies(pairs));
    }
    Ok(out)
}

} // verus!
