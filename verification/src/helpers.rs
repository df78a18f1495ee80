//! The reply serializer. A `Reply` is a freshly built value (owned bytes,
//! never a slice of the request); `Helper::build_resp` turns it into
//! exactly the canonical wire encoding of its model.

use vstd::prelude::*;
use crate::bytes_util::{push_all, push_decimal, dec_digits};
use crate::wire::{
    DsModel, CR, LF, PLUS, DOLLAR, STAR, wire_of, wire_of_list, wf_model, spec_parse,
    lemma_wire_of_list_push, lemma_parse_of_wire,
};

verus! {

/// A reply value mirroring the wire protocol's reply forms.
pub enum Reply {
    ReplyArray(Vec<Reply>),
    ReplyBulkString(Vec<u8>),
    ReplyString(Vec<u8>),
}

/// The model of a reply.
pub open spec fn reply_model(r: Reply) -> DsModel
    decreases r,
{
    match r {
        Reply::ReplyString(s) => DsModel::Simple(s@),
        Reply::ReplyBulkString(s) => DsModel::Bulk(s@),
        Reply::ReplyArray(rs) => DsModel::Arr(reply_models(rs@)),
    }
}

/// The models of a sequence of replies.
pub open spec fn reply_models(v: Seq<Reply>) -> Seq<DsModel>
    decreases v,
{
    if v.len() == 0 {
        Seq::empty()
    } else {
        seq![reply_model(v[0])] + reply_models(v.drop_first())
    }
}

pub proof fn lemma_reply_models_len(v: Seq<Reply>)
    ensures
        reply_models(v).len() == v.len(),
    decreases v.len(),
{
    if v.len() > 0 {
        lemma_reply_models_len(v.drop_first());
    }
}

pub proof fn lemma_reply_models_index(v: Seq<Reply>, i: int)
    requires
        0 <= i < v.len(),
    ensures
        reply_models(v).len() == v.len(),
        reply_models(v)[i] == reply_model(v[i]),
    decreases i,
{
    lemma_reply_models_len(v);
    if i > 0 {
        lemma_reply_models_index(v.drop_first(), i - 1);
        lemma_reply_models_len(v.drop_first());
        assert(reply_models(v)[i] == reply_models(v.drop_first())[i - 1]);
    }
}

/// The models of a two-reply sequence, spelled out.
pub proof fn lemma_reply_models2(v: Seq<Reply>, a: Reply, b: Reply)
    requires
        v == seq![a, b],
    ensures
        reply_models(v) == seq![reply_model(a), reply_model(b)],
{
    assert(v.drop_first() =~= seq![b]);
    assert(seq![b].drop_first() =~= Seq::<Reply>::empty());
    assert(reply_models(Seq::<Reply>::empty()) =~= Seq::<DsModel>::empty());
    assert(reply_models(seq![b]) =~= seq![reply_model(b)]);
    assert(reply_models(v) =~= seq![reply_model(a), reply_model(b)]);
}

/// The models of a three-reply sequence, spelled out.
pub proof fn lemma_reply_models3(v: Seq<Reply>, a: Reply, b: Reply, c: Reply)
    requires
        v == seq![a, b, c],
    ensures
        reply_models(v) == seq![reply_model(a), reply_model(b), reply_model(c)],
{
    assert(v.drop_first() =~= seq![b, c]);
    lemma_reply_models2(seq![b, c], b, c);
    assert(reply_models(v) =~= seq![reply_model(a), reply_model(b), reply_model(c)]);
}

pub proof fn lemma_reply_models_push(v: Seq<Reply>, r: Reply)
    ensures
        reply_models(v.push(r)) == reply_models(v) + seq![reply_model(r)],
    decreases v.len(),
{
    if v.len() == 0 {
        assert(v.push(r)[0] == r);
        assert(v.push(r).drop_first() =~= Seq::<Reply>::empty());
        assert(reply_models(Seq::<Reply>::empty()) =~= Seq::<DsModel>::empty());
        assert(reply_models(v.push(r)) =~= reply_models(v) + seq![reply_model(r)]);
    } else {
        assert(v.push(r)[0] == v[0]);
        assert(v.push(r).drop_first() =~= v.drop_first().push(r));
        lemma_reply_models_push(v.drop_first(), r);
        assert(reply_models(v.push(r)) =~= reply_models(v) + seq![reply_model(r)]);
    }
}

pub struct Helper;

impl Helper {
    /// Serialization: the exact canonical encoding of the reply's model.
    pub fn build_resp(reply: &Reply) -> (r: Vec<u8>)
        ensures
            r@ == wire_of(reply_model(*reply)),
        decreases *reply,
    {
        match reply {
            Reply::ReplyString(s) => {
                let mut out: Vec<u8> = Vec::new();
                out.push(PLUS);
                push_all(&mut out, s);
                out.push(CR);
                out.push(LF);
                assert(out@ =~= wire_of(reply_model(*reply)));
                out
            },
            Reply::ReplyBulkString(s) => {
                let mut out: Vec<u8> = Vec::new();
                out.push(DOLLAR);
                proof {
                    assert(s.len() == s@.len());
                }
                push_decimal(&mut out, s.len() as u64);
                out.push(CR);
                out.push(LF);
                push_all(&mut out, s);
                out.push(CR);
                out.push(LF);
                assert(out@ =~= wire_of(reply_model(*reply)));
                out
            },
            Reply::ReplyArray(arr) => {
                let mut out: Vec<u8> = Vec::new();
                out.push(STAR);
                proof {
                    assert(arr.len() == arr@.len());
                }
                push_decimal(&mut out, arr.len() as u64);
                out.push(CR);
                out.push(LF);
                let ghost header = seq![STAR] + dec_digits(arr@.len()) + seq![CR, LF];
                assert(out@ =~= header + wire_of_list(reply_models(arr@.subrange(0, 0)))) by {
                    assert(reply_models(arr@.subrange(0, 0)) =~= Seq::<DsModel>::empty());
                }
                let mut i: usize = 0;
                while i < arr.len()
                    invariant
                        *reply == Reply::ReplyArray(*arr),
                        header == seq![STAR] + dec_digits(arr@.len()) + seq![CR, LF],
                        i <= arr@.len(),
                        out@ == header + wire_of_list(reply_models(arr@.subrange(0, i as int))),
                    decreases arr@.len() - i,
                {
                    proof {
                        assert(decreases_to!(*reply => reply->ReplyArray_0));
                        assert(decreases_to!(*reply => arr@[i as int]));
                    }
                    let piece = Helper::build_resp(&arr[i]);
                    push_all(&mut out, &piece);
                    proof {
                        let elem = arr@[i as int];
                        let pre = arr@.subrange(0, i as int);
                        let post = arr@.subrange(0, i as int + 1);
                        assert(piece@ == wire_of(reply_model(elem)));
                        assert(post =~= pre.push(elem));
                        lemma_reply_models_push(pre, elem);
                        lemma_wire_of_list_push(reply_models(pre), reply_model(elem));
                        assert(reply_models(pre) + seq![reply_model(elem)] =~= reply_models(
                            pre,
                        ).push(reply_model(elem)));
                        assert(wire_of_list(reply_models(post)) == wire_of_list(reply_models(pre))
                            + wire_of(reply_model(elem)));
                        assert(out@ =~= header + wire_of_list(reply_models(post)));
                    }
                    i = i + 1;
                }
                proof {
                    assert(arr@.subrange(0, arr@.len() as int) =~= arr@);
                    lemma_reply_models_len(arr@);
                    assert(reply_model(*reply) == DsModel::Arr(reply_models(arr@)));
                    assert(out@ =~= wire_of(reply_model(*reply)));
                }
                out
            },
        }
    }
}

/// A reply that can make the round trip: simple-string text carries no
/// carriage return, and every length fits the length limit.
pub open spec fn reply_wf(r: Reply) -> bool {
    wf_model(reply_model(r))
}

/// The round trip: parsing the serialized form of any well-formed reply
/// yields an equivalent structured value — the whole output is consumed
/// and the parsed model is the reply's model. (The other direction is not
/// claimed: a reply need not reproduce the bytes it was parsed from.)
pub proof fn lemma_serialize_then_parse(reply: Reply)
    requires
        reply_wf(reply),
    ensures
        spec_parse(wire_of(reply_model(reply)), 0) == Some(
            (reply_model(reply), wire_of(reply_model(reply)).len() as int),
        ),
{
    lemma_parse_of_wire(reply_model(reply));
}

} // verus!
