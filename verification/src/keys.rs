//! Key codec: maps entity kinds and ids to the sortable byte keys of the
//! store. Thread records live under `thread_<id>`, reply records under
//! `reply_<parentId>_<id>`; reply scans are scoped by the full
//! `reply_<parentId>_` prefix, so distinct parents never share a scope.

use vstd::prelude::*;

use crate::byteseq::lemma_concat_cancel_left;
use crate::byteseq::lemma_prefix_of_concat;
use crate::byteseq::lemma_prefix_cancel_left;
use crate::decimal::all_digits;
use crate::decimal::dec_int;
use crate::decimal::is_digit;
use crate::decimal::lemma_dec_int_bytes;
use crate::decimal::lemma_dec_int_injective;
use crate::decimal::push_decimal_i64;

verus! {

/// The bytes of `"thread_"`, the scan prefix for all thread records.
pub open spec fn thread_prefix() -> Seq<u8> {
    seq![116u8, 104u8, 114u8, 101u8, 97u8, 100u8, 95u8]
}

/// The bytes of `"reply_"`.
pub open spec fn reply_lit() -> Seq<u8> {
    seq![114u8, 101u8, 112u8, 108u8, 121u8, 95u8]
}

/// The key of the thread record with the given id: `thread_<id>`.
pub open spec fn thread_key(id: int) -> Seq<u8> {
    thread_prefix() + dec_int(id)
}

/// The scan prefix of a parent's reply scope: `reply_<parentId>_`.
pub open spec fn reply_prefix(parent: int) -> Seq<u8> {
    reply_lit() + dec_int(parent) + seq![95u8]
}

/// The key of a reply record: `reply_<parentId>_<id>`.
pub open spec fn reply_key(parent: int, id: int) -> Seq<u8> {
    reply_prefix(parent) + dec_int(id)
}

/// Thread keys are injective in the id.
pub proof fn lemma_thread_key_injective(a: int, b: int)
    requires
        thread_key(a) == thread_key(b),
    ensures
        a == b,
{
    lemma_concat_cancel_left(thread_prefix(), dec_int(a), dec_int(b));
    lemma_dec_int_injective(a, b);
}

/// Every thread key carries the thread scan prefix.
pub proof fn lemma_thread_key_has_prefix(id: int)
    ensures
        thread_prefix().is_prefix_of(thread_key(id)),
{
    lemma_prefix_of_concat(thread_prefix(), dec_int(id));
}

/// A decimal rendering followed by `'_'` determines the rendering: if
/// `dec(a) + "_"` starts `dec(b) + "_" + rest`, the two renderings agree.
proof fn lemma_dec_underscore_prefix(a: int, b: int, rest: Seq<u8>)
    requires
        (dec_int(a) + seq![95u8]).is_prefix_of(dec_int(b) + seq![95u8] + rest),
    ensures
        a == b,
{
    lemma_dec_int_bytes(a);
    lemma_dec_int_bytes(b);
    let da = dec_int(a);
    let db = dec_int(b);
    let lhs = da + seq![95u8];
    let rhs = db + seq![95u8] + rest;
    if da.len() < db.len() {
        assert(lhs[da.len() as int] == 95u8);
        assert(rhs[da.len() as int] == db[da.len() as int]);
        assert(false);
    } else if da.len() > db.len() {
        assert(lhs[db.len() as int] == da[db.len() as int]);
        assert(rhs[db.len() as int] == 95u8);
        assert(false);
    } else {
        assert(da =~= lhs.subrange(0, da.len() as int));
        assert(db =~= rhs.subrange(0, da.len() as int));
        assert(da =~= db);
        lemma_dec_int_injective(a, b);
    }
}

/// Every reply key carries its own parent's reply scope prefix.
pub proof fn lemma_reply_key_has_prefix(parent: int, id: int)
    ensures
        reply_prefix(parent).is_prefix_of(reply_key(parent, id)),
{
    lemma_prefix_of_concat(reply_prefix(parent), dec_int(id));
}

/// Reply scopes are disjoint: a reply key never carries the scope prefix
/// of a different parent.
pub proof fn lemma_reply_prefix_scoped(p1: int, p2: int, id: int)
    requires
        reply_prefix(p2).is_prefix_of(reply_key(p1, id)),
    ensures
        p1 == p2,
{
    assert(reply_prefix(p2) =~= reply_lit() + (dec_int(p2) + seq![95u8]));
    assert(reply_key(p1, id) =~= reply_lit() + (dec_int(p1) + seq![95u8] + dec_int(id)));
    lemma_prefix_cancel_left(
        reply_lit(),
        dec_int(p2) + seq![95u8],
        dec_int(p1) + seq![95u8] + dec_int(id),
    );
    lemma_dec_underscore_prefix(p2, p1, dec_int(id));
}

/// Reply keys are injective in the pair (parent, id).
pub proof fn lemma_reply_key_injective(p1: int, i1: int, p2: int, i2: int)
    requires
        reply_key(p1, i1) == reply_key(p2, i2),
    ensures
        p1 == p2,
        i1 == i2,
{
    lemma_reply_key_has_prefix(p1, i1);
    lemma_reply_prefix_scoped(p1, p2, i1);
    lemma_concat_cancel_left(reply_prefix(p1), dec_int(i1), dec_int(i2));
    lemma_dec_int_injective(i1, i2);
}

/// A thread key never carries a reply scope prefix, and a reply key never
/// carries the thread scan prefix: the literals differ in the first byte.
pub proof fn lemma_kind_prefixes_disjoint(p: int, id: int, tid: int)
    ensures
        !thread_prefix().is_prefix_of(reply_key(p, id)),
        !reply_prefix(p).is_prefix_of(thread_key(tid)),
{
    assert(reply_key(p, id)[0] == 114u8);
    assert(thread_key(tid)[0] == 116u8);
    assert(thread_prefix().is_prefix_of(reply_key(p, id)) ==> reply_key(p, id)[0] == 116u8);
    assert(reply_prefix(p).is_prefix_of(thread_key(tid)) ==> thread_key(tid)[0] == 114u8);
}

/// Builds the byte key `thread_<id>`.
pub fn thread_key_exec(id: i32) -> (r: Vec<u8>)
    ensures
        r@ == thread_key(id as int),
{
    let mut v = thread_scan_prefix_exec();
    push_decimal_i64(&mut v, id as i64);
    v
}

/// Builds the scan prefix `thread_` that covers every thread record.
pub fn thread_scan_prefix_exec() -> (r: Vec<u8>)
    ensures
        r@ == thread_prefix(),
{
    let mut v: Vec<u8> = Vec::new();
    v.push(116);
    v.push(104);
    v.push(114);
    v.push(101);
    v.push(97);
    v.push(100);
    v.push(95);
    assert(v@ =~= thread_prefix());
    v
}

/// Builds the scan prefix `reply_<parentId>_` of one parent's reply scope.
pub fn reply_prefix_exec(parent: i32) -> (r: Vec<u8>)
    ensures
        r@ == reply_prefix(parent as int),
{
    let mut v: Vec<u8> = Vec::new();
    v.push(114);
    v.push(101);
    v.push(112);
    v.push(108);
    v.push(121);
    v.push(95);
    assert(v@ =~= reply_lit());
    push_decimal_i64(&mut v, parent as i64);
    v.push(95);
    assert(v@ =~= reply_prefix(parent as int));
    v
}

/// Builds the byte key `reply_<parentId>_<id>`.
pub fn reply_key_exec(parent: i32, id: i32) -> (r: Vec<u8>)
    ensures
        r@ == reply_key(parent as int, id as int),
{
    let mut v = reply_prefix_exec(parent);
    push_decimal_i64(&mut v, id as i64);
    v
}

} // verus!
