//! Record codec: the canonical JSON form of thread and reply records, a
//! strict decoder for it, and the proof that every record round-trips
//! losslessly through its serialized form.

use vstd::prelude::*;
use vstd::utf8::decode_utf8;
use vstd::utf8::encode_utf8;
use vstd::utf8::valid_utf8;

use crate::decimal::dec_int;
use crate::decimal::push_decimal_i64;
use crate::json::json_str;
use crate::json::match_lit;
use crate::json::match_lit_exec;
use crate::json::parse_int_exec;
use crate::json::parse_str_exec;
use crate::json::push_json_str_bytes;
use crate::json::spec_parse_int;
use crate::json::spec_parse_str_body;
use crate::model::Reply;
use crate::model::ReplyModel;
use crate::model::Thread;
use crate::model::ThreadModel;
use crate::model::string_from_utf8;

verus! {

/// The bytes of `{"id":`.
pub open spec fn lit_obj_id() -> Seq<u8> {
    seq![123u8, 34u8, 105u8, 100u8, 34u8, 58u8]
}

/// The bytes of `,"title":`.
pub open spec fn lit_title() -> Seq<u8> {
    seq![44u8, 34u8, 116u8, 105u8, 116u8, 108u8, 101u8, 34u8, 58u8]
}

/// The bytes of `,"message":`.
pub open spec fn lit_message() -> Seq<u8> {
    seq![44u8, 34u8, 109u8, 101u8, 115u8, 115u8, 97u8, 103u8, 101u8, 34u8, 58u8]
}

/// The bytes of `,"last_updated":`.
pub open spec fn lit_last_updated() -> Seq<u8> {
    seq![
        44u8,
        34u8,
        108u8,
        97u8,
        115u8,
        116u8,
        95u8,
        117u8,
        112u8,
        100u8,
        97u8,
        116u8,
        101u8,
        100u8,
        34u8,
        58u8,
    ]
}

/// The bytes of `,"image_url":`.
pub open spec fn lit_image_url() -> Seq<u8> {
    seq![44u8, 34u8, 105u8, 109u8, 97u8, 103u8, 101u8, 95u8, 117u8, 114u8, 108u8, 34u8, 58u8]
}

/// The bytes of `null`.
pub open spec fn lit_null() -> Seq<u8> {
    seq![110u8, 117u8, 108u8, 108u8]
}

/// Canonical serialized form of a thread record.
pub open spec fn spec_enc_thread(m: ThreadModel) -> Seq<u8> {
    lit_obj_id() + dec_int(m.id) + lit_title() + json_str(encode_utf8(m.title)) + lit_message()
        + json_str(encode_utf8(m.message)) + lit_last_updated() + dec_int(m.last_updated)
        + lit_image_url() + (match m.image_url {
        Option::None => lit_null(),
        Option::Some(u) => json_str(encode_utf8(u)),
    }) + seq![125u8]
}

/// Canonical serialized form of a reply record.
pub open spec fn spec_enc_reply(m: ReplyModel) -> Seq<u8> {
    lit_obj_id() + dec_int(m.id) + lit_message() + json_str(encode_utf8(m.message)) + seq![125u8]
}

/// Strict decode of a thread record: accepts exactly the canonical form
/// (which is also what the common serializers emit for this field order),
/// with ids in 32-bit range, timestamps in 64-bit range, and UTF-8 string
/// content. Anything else is malformed.
pub open spec fn spec_decode_thread(b: Seq<u8>) -> Option<ThreadModel> {
    if !match_lit(b, 0, lit_obj_id()) {
        Option::None
    } else {
        match spec_parse_int(b, lit_obj_id().len() as int) {
            Option::None => Option::None,
            Option::Some((id, q1)) => if !(-0x80000000 <= id <= 0x7fffffff) || !match_lit(
                b,
                q1,
                lit_title(),
            ) {
                Option::None
            } else {
                let q2 = q1 + lit_title().len();
                if !(q2 < b.len() && b[q2] == 34) {
                    Option::None
                } else {
                    match spec_parse_str_body(b, q2 + 1) {
                        Option::None => Option::None,
                        Option::Some((tb, q3)) => if !match_lit(b, q3, lit_message()) {
                            Option::None
                        } else {
                            let q4 = q3 + lit_message().len();
                            if !(q4 < b.len() && b[q4] == 34) {
                                Option::None
                            } else {
                                match spec_parse_str_body(b, q4 + 1) {
                                    Option::None => Option::None,
                                    Option::Some((mb, q5)) => if !match_lit(
                                        b,
                                        q5,
                                        lit_last_updated(),
                                    ) {
                                        Option::None
                                    } else {
                                        match spec_parse_int(b, q5 + lit_last_updated().len()) {
                                            Option::None => Option::None,
                                            Option::Some((lu, q6)) => if !(-0x8000000000000000
                                                <= lu <= 0x7fffffffffffffff) || !match_lit(
                                                b,
                                                q6,
                                                lit_image_url(),
                                            ) {
                                                Option::None
                                            } else {
                                                let q7 = q6 + lit_image_url().len();
                                                spec_decode_thread_tail(b, q7, id, tb, mb, lu)
                                            },
                                        }
                                    },
                                }
                            }
                        },
                    }
                }
            },
        }
    }
}

/// Tail of the thread decoder: the `image_url` value and the closing
/// brace, then the UTF-8 checks on the collected string contents.
pub open spec fn spec_decode_thread_tail(
    b: Seq<u8>,
    q7: int,
    id: int,
    tb: Seq<u8>,
    mb: Seq<u8>,
    lu: int,
) -> Option<ThreadModel> {
    if match_lit(b, q7, lit_null()) {
        let q8 = q7 + lit_null().len();
        if q8 + 1 == b.len() && b[q8] == 125 && valid_utf8(tb) && valid_utf8(mb) {
            Option::Some(
                ThreadModel {
                    id,
                    title: decode_utf8(tb),
                    message: decode_utf8(mb),
                    last_updated: lu,
                    image_url: Option::None,
                },
            )
        } else {
            Option::None
        }
    } else if q7 < b.len() && b[q7] == 34 {
        match spec_parse_str_body(b, q7 + 1) {
            Option::None => Option::None,
            Option::Some((ub, q8)) => if q8 + 1 == b.len() && b[q8] == 125 && valid_utf8(tb)
                && valid_utf8(mb) && valid_utf8(ub) {
                Option::Some(
                    ThreadModel {
                        id,
                        title: decode_utf8(tb),
                        message: decode_utf8(mb),
                        last_updated: lu,
                        image_url: Option::Some(decode_utf8(ub)),
                    },
                )
            } else {
                Option::None
            },
        }
    } else {
        Option::None
    }
}

/// Strict decode of a reply record, as for threads.
pub open spec fn spec_decode_reply(b: Seq<u8>) -> Option<ReplyModel> {
    if !match_lit(b, 0, lit_obj_id()) {
        Option::None
    } else {
        match spec_parse_int(b, lit_obj_id().len() as int) {
            Option::None => Option::None,
            Option::Some((id, q1)) => if !(-0x80000000 <= id <= 0x7fffffff) || !match_lit(
                b,
                q1,
                lit_message(),
            ) {
                Option::None
            } else {
                let q2 = q1 + lit_message().len();
                if !(q2 < b.len() && b[q2] == 34) {
                    Option::None
                } else {
                    match spec_parse_str_body(b, q2 + 1) {
                        Option::None => Option::None,
                        Option::Some((mb, q3)) => if q3 + 1 == b.len() && b[q3] == 125
                            && valid_utf8(mb) {
                            Option::Some(ReplyModel { id, message: decode_utf8(mb) })
                        } else {
                            Option::None
                        },
                    }
                }
            },
        }
    }
}

/// Where a JSON string literal for content `s` spans `[p, e)` of `b`, the
/// string parser entered just after its opening quote recovers `s`.
proof fn lemma_parse_json_str_at(b: Seq<u8>, p: int, e: int, s: Seq<u8>)
    requires
        0 <= p,
        p + json_str(s).len() == e,
        e <= b.len(),
        b.subrange(p, e) == json_str(s),
    ensures
        b[p] == 34,
        spec_parse_str_body(b, p + 1) == Option::Some((s, e)),
{
    let js = json_str(s);
    let esc = crate::json::esc_bytes(s);
    assert(js.len() == esc.len() + 2);
    assert(b[p] == js[0]) by {
        assert(b.subrange(p, e)[0] == b[p]);
    }
    assert(js[0] == 34);
    assert(b[e - 1] == js[js.len() - 1]) by {
        assert(b.subrange(p, e)[js.len() - 1] == b[e - 1]);
    }
    assert(js[js.len() - 1] == 34);
    assert(b.subrange(p + 1, e - 1) =~= esc) by {
        assert forall|j: int| 0 <= j < esc.len() implies b.subrange(p + 1, e - 1)[j] == esc[j] by {
            assert(b.subrange(p + 1, e - 1)[j] == b[p + 1 + j]);
            assert(b[p + 1 + j] == b.subrange(p, e)[1 + j]);
            assert(js[1 + j] == esc[j]);
        }
    }
    crate::json::lemma_parse_str_of_esc(b, p + 1, e - 1, s);
}

/// A serialized thread record decodes back to the very record: nothing is
/// lost in a round trip through the store.
#[verifier::rlimit(100)]
#[verifier::spinoff_prover]
pub proof fn lemma_thread_round_trip(m: ThreadModel)
    requires
        -0x80000000 <= m.id <= 0x7fffffff,
        -0x8000000000000000 <= m.last_updated <= 0x7fffffffffffffff,
    ensures
        spec_decode_thread(spec_enc_thread(m)) == Option::Some(m),
{
    let b = spec_enc_thread(m);
    let t1 = lit_obj_id();
    let d1 = dec_int(m.id);
    let t2 = lit_title();
    let s1 = json_str(encode_utf8(m.title));
    let t3 = lit_message();
    let s2 = json_str(encode_utf8(m.message));
    let t4 = lit_last_updated();
    let d2 = dec_int(m.last_updated);
    let t5 = lit_image_url();
    let tail = (match m.image_url {
        Option::None => lit_null(),
        Option::Some(u) => json_str(encode_utf8(u)),
    });
    let p2 = 6 + d1.len() as int;
    let p3 = p2 + 9;
    let p4 = p3 + s1.len() as int;
    let p5 = p4 + 11;
    let p6 = p5 + s2.len() as int;
    let p7 = p6 + 16;
    let p8 = p7 + d2.len() as int;
    let p9 = p8 + 13;
    let p10 = p9 + tail.len() as int;
    assert(b.len() == p10 + 1);
    assert(b.subrange(0, 6) =~= t1);
    assert(b.subrange(6, p2) =~= d1);
    assert(b.subrange(p2, p3) =~= t2);
    assert(b.subrange(p3, p4) =~= s1);
    assert(b.subrange(p4, p5) =~= t3);
    assert(b.subrange(p5, p6) =~= s2);
    assert(b.subrange(p6, p7) =~= t4);
    assert(b.subrange(p7, p8) =~= d2);
    assert(b.subrange(p8, p9) =~= t5);
    assert(b.subrange(p9, p10) =~= tail);
    assert(b[p10] == 125);
    assert(match_lit(b, 0, t1));
    assert(b[p2] == 44) by {
        assert(b.subrange(p2, p3)[0] == b[p2]);
    }
    crate::json::lemma_parse_int_of_dec(b, 6, p2, m.id);
    assert(match_lit(b, p2, t2));
    lemma_parse_json_str_at(b, p3, p4, encode_utf8(m.title));
    assert(match_lit(b, p4, t3));
    lemma_parse_json_str_at(b, p5, p6, encode_utf8(m.message));
    assert(match_lit(b, p6, t4));
    assert(b[p8] == 44) by {
        assert(b.subrange(p8, p9)[0] == b[p8]);
    }
    crate::json::lemma_parse_int_of_dec(b, p7, p8, m.last_updated);
    assert(match_lit(b, p8, t5));
    vstd::utf8::encode_utf8_valid_utf8(m.title);
    vstd::utf8::encode_utf8_valid_utf8(m.message);
    vstd::utf8::encode_utf8_decode_utf8(m.title);
    vstd::utf8::encode_utf8_decode_utf8(m.message);
    match m.image_url {
        Option::None => {
            assert(match_lit(b, p9, lit_null()));
            assert(spec_decode_thread_tail(b, p9, m.id, encode_utf8(m.title), encode_utf8(m.message), m.last_updated)
                matches Option::Some(r) && r =~= m);
        },
        Option::Some(u) => {
            assert(b[p9] == 34) by {
                assert(b.subrange(p9, p10)[0] == b[p9]);
            }
            assert(!match_lit(b, p9, lit_null())) by {
                if match_lit(b, p9, lit_null()) {
                    assert(b.subrange(p9, p9 + 4)[0] == b[p9]);
                }
            }
            lemma_parse_json_str_at(b, p9, p10, encode_utf8(u));
            vstd::utf8::encode_utf8_valid_utf8(u);
            vstd::utf8::encode_utf8_decode_utf8(u);
            assert(spec_decode_thread_tail(b, p9, m.id, encode_utf8(m.title), encode_utf8(m.message), m.last_updated)
                matches Option::Some(r) && r =~= m);
        },
    }
}

/// A serialized reply record decodes back to the very record.
pub proof fn lemma_reply_round_trip(m: ReplyModel)
    requires
        -0x80000000 <= m.id <= 0x7fffffff,
    ensures
        spec_decode_reply(spec_enc_reply(m)) == Option::Some(m),
{
    let b = spec_enc_reply(m);
    let t1 = lit_obj_id();
    let d1 = dec_int(m.id);
    let t3 = lit_message();
    let s2 = json_str(encode_utf8(m.message));
    let p2 = 6 + d1.len() as int;
    let p3 = p2 + 11;
    let p4 = p3 + s2.len() as int;
    assert(b.len() == p4 + 1);
    assert(b.subrange(0, 6) =~= t1);
    assert(b.subrange(6, p2) =~= d1);
    assert(b.subrange(p2, p3) =~= t3);
    assert(b.subrange(p3, p4) =~= s2);
    assert(b[p4] == 125);
    assert(match_lit(b, 0, t1));
    assert(b[p2] == 44) by {
        assert(b.subrange(p2, p3)[0] == b[p2]);
    }
    crate::json::lemma_parse_int_of_dec(b, 6, p2, m.id);
    assert(match_lit(b, p2, t3));
    lemma_parse_json_str_at(b, p3, p4, encode_utf8(m.message));
    vstd::utf8::encode_utf8_valid_utf8(m.message);
    vstd::utf8::encode_utf8_decode_utf8(m.message);
    assert(spec_decode_reply(b) matches Option::Some(r) && r =~= m);
}

/// The UTF-8 bytes of a string.
fn str_bytes(s: &str) -> (r: Vec<u8>)
    ensures
        r@ == encode_utf8(s@),
{
    let sl = s.as_bytes();
    vstd::slice::slice_to_vec(sl)
}

/// Builds `{"id":`.
fn lit_obj_id_exec() -> (r: Vec<u8>)
    ensures
        r@ == lit_obj_id(),
{
    let mut v: Vec<u8> = Vec::new();
    v.push(123);
    v.push(34);
    v.push(105);
    v.push(100);
    v.push(34);
    v.push(58);
    assert(v@ =~= lit_obj_id());
    v
}

/// Builds `,"title":`.
fn lit_title_exec() -> (r: Vec<u8>)
    ensures
        r@ == lit_title(),
{
    let mut v: Vec<u8> = Vec::new();
    v.push(44);
    v.push(34);
    v.push(116);
    v.push(105);
    v.push(116);
    v.push(108);
    v.push(101);
    v.push(34);
    v.push(58);
    assert(v@ =~= lit_title());
    v
}

/// Builds `,"message":`.
fn lit_message_exec() -> (r: Vec<u8>)
    ensures
        r@ == lit_message(),
{
    let mut v: Vec<u8> = Vec::new();
    v.push(44);
    v.push(34);
    v.push(109);
    v.push(101);
    v.push(115);
    v.push(115);
    v.push(97);
    v.push(103);
    v.push(101);
    v.push(34);
    v.push(58);
    assert(v@ =~= lit_message());
    v
}

/// Builds `,"last_updated":`.
fn lit_last_updated_exec() -> (r: Vec<u8>)
    ensures
        r@ == lit_last_updated(),
{
    let mut v: Vec<u8> = Vec::new();
    v.push(44);
    v.push(34);
    v.push(108);
    v.push(97);
    v.push(115);
    v.push(116);
    v.push(95);
    v.push(117);
    v.push(112);
    v.push(100);
    v.push(97);
    v.push(116);
    v.push(101);
    v.push(100);
    v.push(34);
    v.push(58);
    assert(v@ =~= lit_last_updated());
    v
}

/// Builds `,"image_url":`.
fn lit_image_url_exec() -> (r: Vec<u8>)
    ensures
        r@ == lit_image_url(),
{
    let mut v: Vec<u8> = Vec::new();
    v.push(44);
    v.push(34);
    v.push(105);
    v.push(109);
    v.push(97);
    v.push(103);
    v.push(101);
    v.push(95);
    v.push(117);
    v.push(114);
    v.push(108);
    v.push(34);
    v.push(58);
    assert(v@ =~= lit_image_url());
    v
}

/// Builds `null`.
fn lit_null_exec() -> (r: Vec<u8>)
    ensures
        r@ == lit_null(),
{
    let mut v: Vec<u8> = Vec::new();
    v.push(110);
    v.push(117);
    v.push(108);
    v.push(108);
    assert(v@ =~= lit_null());
    v
}

/// Appends the bytes of `lit` to `out`.
fn push_all(out: &mut Vec<u8>, lit: &Vec<u8>)
    ensures
        final(out)@ == old(out)@ + lit@,
{
    let mut i: usize = 0;
    while i < lit.len()
        invariant
            i <= lit.len(),
            out@ == old(out)@ + lit@.subrange(0, i as int),
        decreases lit.len() - i,
    {
        out.push(lit[i]);
        assert(out@ =~= old(out)@ + lit@.subrange(0, i + 1));
        i += 1;
    }
    assert(lit@.subrange(0, lit@.len() as int) =~= lit@);
}

/// Serializes a thread record into its canonical byte form.
pub fn encode_thread(t: &Thread) -> (r: Vec<u8>)
    ensures
        r@ == spec_enc_thread(t@),
{
    let tb = str_bytes(t.title.as_str());
    let mb = str_bytes(t.message.as_str());
    let mut v = lit_obj_id_exec();
    push_decimal_i64(&mut v, t.id as i64);
    let l2 = lit_title_exec();
    push_all(&mut v, &l2);
    push_json_str_bytes(&mut v, &tb);
    let l3 = lit_message_exec();
    push_all(&mut v, &l3);
    push_json_str_bytes(&mut v, &mb);
    let l4 = lit_last_updated_exec();
    push_all(&mut v, &l4);
    push_decimal_i64(&mut v, t.last_updated);
    let l5 = lit_image_url_exec();
    push_all(&mut v, &l5);
    match &t.image_url {
        Option::None => {
            let ln = lit_null_exec();
            push_all(&mut v, &ln);
        },
        Option::Some(u) => {
            let ub = str_bytes(u.as_str());
            push_json_str_bytes(&mut v, &ub);
        },
    }
    v.push(125);
    assert(v@ =~= spec_enc_thread(t@));
    v
}

/// Serializes a reply record into its canonical byte form.
pub fn encode_reply(rp: &Reply) -> (r: Vec<u8>)
    ensures
        r@ == spec_enc_reply(rp@),
{
    let mb = str_bytes(rp.message.as_str());
    let mut v = lit_obj_id_exec();
    push_decimal_i64(&mut v, rp.id as i64);
    let l3 = lit_message_exec();
    push_all(&mut v, &l3);
    push_json_str_bytes(&mut v, &mb);
    v.push(125);
    assert(v@ =~= spec_enc_reply(rp@));
    v
}

/// Deserializes a thread record; returns nothing on any malformed input.
#[verifier::rlimit(100)]
pub fn decode_thread(b: &Vec<u8>) -> (r: Option<Thread>)
    ensures
        match r {
            Option::Some(t) => spec_decode_thread(b@) == Option::Some(t@),
            Option::None => spec_decode_thread(b@) == Option::<ThreadModel>::None,
        },
{
    let n = b.len();
    let l1 = lit_obj_id_exec();
    if !match_lit_exec(b, 0, &l1) {
        return Option::None;
    }
    let pid = parse_int_exec(b, 6);
    if pid.is_none() {
        return Option::None;
    }
    let (idv, q1) = pid.unwrap();
    if idv < -2147483648i64 || idv > 2147483647i64 {
        return Option::None;
    }
    let l2 = lit_title_exec();
    if !match_lit_exec(b, q1, &l2) {
        return Option::None;
    }
    let q2 = q1 + 9;
    if !(q2 < n && b[q2] == 34) {
        return Option::None;
    }
    let pt = parse_str_exec(b, q2 + 1);
    if pt.is_none() {
        return Option::None;
    }
    let (tb, q3) = pt.unwrap();
    let l3 = lit_message_exec();
    if !match_lit_exec(b, q3, &l3) {
        return Option::None;
    }
    let q4 = q3 + 11;
    if !(q4 < n && b[q4] == 34) {
        return Option::None;
    }
    let pm = parse_str_exec(b, q4 + 1);
    if pm.is_none() {
        return Option::None;
    }
    let (mb, q5) = pm.unwrap();
    let l4 = lit_last_updated_exec();
    if !match_lit_exec(b, q5, &l4) {
        return Option::None;
    }
    let plu = parse_int_exec(b, q5 + 16);
    if plu.is_none() {
        return Option::None;
    }
    let (lu, q6) = plu.unwrap();
    let l5 = lit_image_url_exec();
    if !match_lit_exec(b, q6, &l5) {
        return Option::None;
    }
    let q7 = q6 + 13;
    let ln = lit_null_exec();
    if match_lit_exec(b, q7, &ln) {
        let q8 = q7 + 4;
        if !(q8 < b.len() && q8 + 1 == b.len() && b[q8] == 125) {
            return Option::None;
        }
        let title = string_from_utf8(tb);
        if title.is_none() {
            return Option::None;
        }
        let message = string_from_utf8(mb);
        if message.is_none() {
            return Option::None;
        }
        let t = Thread {
            id: idv as i32,
            title: title.unwrap(),
            message: message.unwrap(),
            last_updated: lu,
            image_url: Option::None,
        };
        proof {
            vstd::utf8::encode_utf8_decode_utf8(t.title@);
            vstd::utf8::encode_utf8_decode_utf8(t.message@);
            vstd::utf8::encode_utf8_valid_utf8(t.title@);
            vstd::utf8::encode_utf8_valid_utf8(t.message@);
            assert(spec_decode_thread(b@) == Option::Some(t@));
        }
        Option::Some(t)
    } else if q7 < b.len() && b[q7] == 34 {
        let pu = parse_str_exec(b, q7 + 1);
        if pu.is_none() {
            return Option::None;
        }
        let (ub, q8) = pu.unwrap();
        if !(q8 < b.len() && q8 + 1 == b.len() && b[q8] == 125) {
            return Option::None;
        }
        let title = string_from_utf8(tb);
        if title.is_none() {
            return Option::None;
        }
        let message = string_from_utf8(mb);
        if message.is_none() {
            return Option::None;
        }
        let url = string_from_utf8(ub);
        if url.is_none() {
            return Option::None;
        }
        let t = Thread {
            id: idv as i32,
            title: title.unwrap(),
            message: message.unwrap(),
            last_updated: lu,
            image_url: Option::Some(url.unwrap()),
        };
        proof {
            vstd::utf8::encode_utf8_decode_utf8(t.title@);
            vstd::utf8::encode_utf8_decode_utf8(t.message@);
            vstd::utf8::encode_utf8_decode_utf8(t.image_url->Some_0@);
            vstd::utf8::encode_utf8_valid_utf8(t.title@);
            vstd::utf8::encode_utf8_valid_utf8(t.message@);
            vstd::utf8::encode_utf8_valid_utf8(t.image_url->Some_0@);
            assert(spec_decode_thread(b@) == Option::Some(t@));
        }
        Option::Some(t)
    } else {
        Option::None
    }
}

/// Deserializes a reply record; returns nothing on any malformed input.
pub fn decode_reply(b: &Vec<u8>) -> (r: Option<Reply>)
    ensures
        match r {
            Option::Some(rp) => spec_decode_reply(b@) == Option::Some(rp@),
            Option::None => spec_decode_reply(b@) == Option::<ReplyModel>::None,
        },
{
    let n = b.len();
    let l1 = lit_obj_id_exec();
    if !match_lit_exec(b, 0, &l1) {
        return Option::None;
    }
    let pid = parse_int_exec(b, 6);
    if pid.is_none() {
        return Option::None;
    }
    let (idv, q1) = pid.unwrap();
    if idv < -2147483648i64 || idv > 2147483647i64 {
        return Option::None;
    }
    let l3 = lit_message_exec();
    if !match_lit_exec(b, q1, &l3) {
        return Option::None;
    }
    let q2 = q1 + 11;
    if !(q2 < n && b[q2] == 34) {
        return Option::None;
    }
    let pm = parse_str_exec(b, q2 + 1);
    if pm.is_none() {
        return Option::None;
    }
    let (mb, q3) = pm.unwrap();
    if !(q3 < b.len() && q3 + 1 == b.len() && b[q3] == 125) {
        return Option::None;
    }
    let message = string_from_utf8(mb);
    if message.is_none() {
        return Option::None;
    }
    let rp = Reply { id: idv as i32, message: message.unwrap() };
    proof {
        vstd::utf8::encode_utf8_decode_utf8(rp.message@);
        vstd::utf8::encode_utf8_valid_utf8(rp.message@);
        assert(spec_decode_reply(b@) == Option::Some(rp@));
    }
    Option::Some(rp)
}

} // verus!
