//! The executable protocol parser. Each parsing function is proved to
//! return exactly what the grammar's parsing function (`spec_parse` in
//! `wire`) says for its input, or an error exactly when the grammar
//! rejects it.

use vstd::prelude::*;
use crate::bytes_util::copy_range;
use crate::wire::{
    DsModel, CR, LF, PLUS, DOLLAR, STAR, LEN_LIMIT, crlf_at, is_digit, dec_value, digits_end,
    spec_parse, spec_parse_elems, spec_parse_len, lemma_dec_value_monotone,
    lemma_digits_end_exact, lemma_line_end_exact,
};

verus! {

/// A malformed or incomplete frame: the buffer does not start with a
/// recognized type marker, a declared length runs past the end, a length
/// field is unreadable, or a terminator is missing.
#[derive(Debug)]
pub struct ProtocolError;

/// A parsed protocol value holding owned copies of its bytes.
pub enum DS {
    RedArray(RedArray),
    SimpleString(Vec<u8>),
    BulkString(Vec<u8>),
}

/// An array value together with its declared element count.
pub struct RedArray {
    pub length: usize,
    pub value: Vec<DS>,
}

/// The model of a parsed value.
pub open spec fn ds_model(ds: DS) -> DsModel
    decreases ds,
{
    match ds {
        DS::SimpleString(b) => DsModel::Simple(b@),
        DS::BulkString(b) => DsModel::Bulk(b@),
        DS::RedArray(a) => DsModel::Arr(ds_models(a.value@)),
    }
}

/// The models of a sequence of parsed values.
pub open spec fn ds_models(v: Seq<DS>) -> Seq<DsModel>
    decreases v,
{
    if v.len() == 0 {
        Seq::empty()
    } else {
        seq![ds_model(v[0])] + ds_models(v.drop_first())
    }
}

/// Every array node's declared `length` equals its element count.
pub open spec fn ds_wf(ds: DS) -> bool
    decreases ds,
{
    match ds {
        DS::RedArray(a) => a.length == a.value@.len() && (forall|i: int|
            0 <= i < a.value@.len() ==> ds_wf(#[trigger] a.value@[i])),
        _ => true,
    }
}

pub proof fn lemma_ds_models_len(v: Seq<DS>)
    ensures
        ds_models(v).len() == v.len(),
    decreases v.len(),
{
    if v.len() > 0 {
        lemma_ds_models_len(v.drop_first());
    }
}

pub proof fn lemma_ds_models_index(v: Seq<DS>, i: int)
    requires
        0 <= i < v.len(),
    ensures
        ds_models(v).len() == v.len(),
        ds_models(v)[i] == ds_model(v[i]),
    decreases i,
{
    lemma_ds_models_len(v);
    if i > 0 {
        lemma_ds_models_index(v.drop_first(), i - 1);
        lemma_ds_models_len(v.drop_first());
        assert(ds_models(v)[i] == ds_models(v.drop_first())[i - 1]);
    }
}

pub proof fn lemma_ds_models_push(v: Seq<DS>, d: DS)
    ensures
        ds_models(v.push(d)) == ds_models(v) + seq![ds_model(d)],
    decreases v.len(),
{
    if v.len() == 0 {
        assert(v.push(d)[0] == d);
        assert(v.push(d).drop_first() =~= Seq::<DS>::empty());
        assert(ds_models(Seq::<DS>::empty()) =~= Seq::<DsModel>::empty());
        assert(ds_models(v.push(d)) =~= ds_models(v) + seq![ds_model(d)]);
    } else {
        assert(v.push(d).drop_first() =~= v.drop_first().push(d));
        lemma_ds_models_push(v.drop_first(), d);
        assert(v.push(d)[0] == v[0]);
        assert(ds_models(v.push(d)) =~= ds_models(v) + seq![ds_model(d)]);
    }
}

impl DS {
    /// The payload bytes of a string value; an array yields none.
    pub fn get_value(&self) -> (r: Vec<u8>)
        ensures
            match self {
                DS::SimpleString(b) => r@ == b@,
                DS::BulkString(b) => r@ == b@,
                DS::RedArray(_) => r@ == Seq::<u8>::empty(),
            },
    {
        match self {
            DS::SimpleString(b) => vstd::slice::slice_to_vec(b.as_slice()),
            DS::BulkString(b) => vstd::slice::slice_to_vec(b.as_slice()),
            DS::RedArray(_) => Vec::new(),
        }
    }

    /// Both string forms are `"string"`; an array is `"list"`.
    pub fn get_type(&self) -> (r: &'static str)
        ensures
            match self {
                DS::SimpleString(_) => r@ == "string"@,
                DS::BulkString(_) => r@ == "string"@,
                DS::RedArray(_) => r@ == "list"@,
            },
    {
        match self {
            DS::SimpleString(_) => "string",
            DS::BulkString(_) => "string",
            DS::RedArray(_) => "list",
        }
    }
}

fn byte_is_digit(b: u8) -> (r: bool)
    ensures
        r == is_digit(b),
{
    0x30 <= b && b <= 0x39
}

/// Reads a length field at `i`, exactly as `spec_parse_len` does.
fn parse_number(src: &Vec<u8>, i: usize) -> (r: Result<(u32, usize), ProtocolError>)
    requires
        i <= src@.len(),
    ensures
        match r {
            Ok((n, j)) => spec_parse_len(src@, i as int) == Some((n as nat, j as int))
                && i < j <= src@.len(),
            Err(_) => spec_parse_len(src@, i as int) is None,
        },
{
    let len = src.len();
    let mut e: usize = i;
    while e < len && byte_is_digit(src[e])
        invariant
            i <= e <= len,
            len == src@.len(),
            forall|j: int| i <= j < e ==> is_digit(src@[j]),
        decreases len - e,
    {
        e = e + 1;
    }
    proof {
        lemma_digits_end_exact(src@, i as int, e as int);
    }
    if e == i {
        return Err(ProtocolError);
    }
    let mut n: u64 = 0;
    let mut k: usize = i;
    while k < e
        invariant
            i <= k <= e <= len,
            len == src@.len(),
            e == digits_end(src@, i as int),
            forall|j: int| i <= j < e ==> is_digit(src@[j]),
            n as nat == dec_value(src@.subrange(i as int, k as int)),
            n < LEN_LIMIT,
        decreases e - k,
    {
        let b = src[k];
        assert(is_digit(src@[k as int]));
        let d = (b - 0x30) as u64;
        n = n * 10 + d;
        proof {
            let pre = src@.subrange(i as int, k as int);
            let post = src@.subrange(i as int, k as int + 1);
            assert(post.drop_last() =~= pre);
            assert(post.last() == src@[k as int]);
        }
        k = k + 1;
        if n >= LEN_LIMIT {
            proof {
                lemma_dec_value_monotone(src@, i as int, k as int, e as int);
            }
            return Err(ProtocolError);
        }
    }
    Ok((n as u32, e))
}

/// Consumes a CRLF pair at `i`.
fn advance(src: &Vec<u8>, i: usize) -> (r: Result<usize, ProtocolError>)
    requires
        i <= src@.len(),
    ensures
        match r {
            Ok(j) => crlf_at(src@, i as int) && j == i + 2,
            Err(_) => !crlf_at(src@, i as int),
        },
{
    if src.len() - i < 2 {
        return Err(ProtocolError);
    }
    if src[i] != CR {
        return Err(ProtocolError);
    }
    if src[i + 1] != LF {
        return Err(ProtocolError);
    }
    Ok(i + 2)
}

/// Parses `+<text>\r\n` at `i`.
fn parse_simple_string(src: &Vec<u8>, i: usize) -> (r: Result<(DS, usize), ProtocolError>)
    requires
        i < src@.len(),
        src@[i as int] == PLUS,
    ensures
        match r {
            Ok((ds, j)) => spec_parse(src@, i as int) == Some((ds_model(ds), j as int))
                && i < j <= src@.len() && ds_wf(ds),
            Err(_) => spec_parse(src@, i as int) is None,
        },
{
    let len = src.len();
    let start = i + 1;
    let mut e: usize = start;
    while e < len && src[e] != CR
        invariant
            start <= e <= len,
            len == src@.len(),
            forall|j: int| start <= j < e ==> src@[j] != CR,
        decreases len - e,
    {
        e = e + 1;
    }
    proof {
        lemma_line_end_exact(src@, start as int, e as int);
    }
    if e >= len {
        return Err(ProtocolError);
    }
    if len - e < 2 {
        return Err(ProtocolError);
    }
    if src[e + 1] != LF {
        return Err(ProtocolError);
    }
    let text = copy_range(src, start, e);
    Ok((DS::SimpleString(text), e + 2))
}

/// Parses `$<len>\r\n<bytes>\r\n` at `i`.
fn parse_string(src: &Vec<u8>, i: usize) -> (r: Result<(DS, usize), ProtocolError>)
    requires
        i < src@.len(),
        src@[i as int] == DOLLAR,
    ensures
        match r {
            Ok((ds, j)) => spec_parse(src@, i as int) == Some((ds_model(ds), j as int))
                && i < j <= src@.len() && ds_wf(ds),
            Err(_) => spec_parse(src@, i as int) is None,
        },
{
    proof {
        assert(src.len() == src@.len());
    }
    let (n, jn) = match parse_number(src, i + 1) {
        Ok(p) => p,
        Err(e) => {
            return Err(e);
        },
    };
    let body = match advance(src, jn) {
        Ok(h) => h,
        Err(e) => {
            return Err(e);
        },
    };
    let len = src.len();
    let rem = len - body;
    if rem < 2 {
        return Err(ProtocolError);
    }
    let n_us = n as usize;
    if n_us > rem - 2 {
        return Err(ProtocolError);
    }
    let data = copy_range(src, body, body + n_us);
    if src[body + n_us] != CR {
        return Err(ProtocolError);
    }
    if src[body + n_us + 1] != LF {
        return Err(ProtocolError);
    }
    Ok((DS::BulkString(data), body + n_us + 2))
}

/// Parses `*<count>\r\n` and then that many elements, at `i`.
fn parse_array(src: &Vec<u8>, i: usize) -> (r: Result<(DS, usize), ProtocolError>)
    requires
        i < src@.len(),
        src@[i as int] == STAR,
    ensures
        match r {
            Ok((ds, j)) => spec_parse(src@, i as int) == Some((ds_model(ds), j as int))
                && i < j <= src@.len() && ds_wf(ds),
            Err(_) => spec_parse(src@, i as int) is None,
        },
    decreases src@.len() - i, 0int,
{
    let ghost s = src@;
    proof {
        assert(src.len() == src@.len());
    }
    let (n, jn) = match parse_number(src, i + 1) {
        Ok(p) => p,
        Err(e) => {
            return Err(e);
        },
    };
    let hdr = match advance(src, jn) {
        Ok(h) => h,
        Err(e) => {
            return Err(e);
        },
    };
    let mut tokens: Vec<DS> = Vec::new();
    let mut cur = hdr;
    let mut k: u32 = 0;
    proof {
        assert(ds_models(Seq::<DS>::empty()) =~= Seq::<DsModel>::empty());
        match spec_parse_elems(s, hdr as int, n as nat) {
            None => {},
            Some((es, e)) => {
                assert(ds_models(tokens@) + es =~= es);
            },
        }
    }
    while k < n
        invariant
            src@ == s,
            src@[i as int] == STAR,
            spec_parse_len(s, i as int + 1) == Some((n as nat, jn as int)),
            crlf_at(s, jn as int),
            hdr == jn + 2,
            i < hdr <= cur <= s.len(),
            tokens@.len() == k as nat,
            k <= n,
            forall|j: int| 0 <= j < tokens@.len() ==> ds_wf(#[trigger] tokens@[j]),
            spec_parse_elems(s, hdr as int, n as nat) == (match spec_parse_elems(
                s,
                cur as int,
                (n - k) as nat,
            ) {
                None => None::<(Seq<DsModel>, int)>,
                Some((es, e)) => Some((ds_models(tokens@) + es, e)),
            }),
        decreases n - k,
    {
        let (d, nxt) = match parse_at(src, cur) {
            Ok(p) => p,
            Err(e) => {
                proof {
                    assert(spec_parse_elems(s, cur as int, (n - k) as nat) is None);
                }
                return Err(e);
            },
        };
        proof {
            lemma_ds_models_push(tokens@, d);
            assert(spec_parse_elems(s, cur as int, (n - k) as nat) == (match spec_parse_elems(
                s,
                nxt as int,
                ((n - k) - 1) as nat,
            ) {
                None => None::<(Seq<DsModel>, int)>,
                Some((es, e)) => Some((seq![ds_model(d)] + es, e)),
            }));
            match spec_parse_elems(s, nxt as int, ((n - k) - 1) as nat) {
                None => {},
                Some((es, e)) => {
                    assert(ds_models(tokens@.push(d)) + es =~= ds_models(tokens@) + (seq![
                        ds_model(d),
                    ] + es));
                },
            }
        }
        tokens.push(d);
        cur = nxt;
        k = k + 1;
    }
    proof {
        assert(spec_parse_elems(s, cur as int, (n - k) as nat) == Some((
            Seq::<DsModel>::empty(),
            cur as int,
        )));
        assert(ds_models(tokens@) + Seq::<DsModel>::empty() =~= ds_models(tokens@));
    }
    let count = tokens.len();
    let result = DS::RedArray(RedArray { length: count, value: tokens });
    proof {
        assert(ds_wf(result));
    }
    Ok((result, cur))
}

/// Parses one value at `i`: the executable counterpart of `spec_parse`.
fn parse_at(src: &Vec<u8>, i: usize) -> (r: Result<(DS, usize), ProtocolError>)
    requires
        i <= src@.len(),
    ensures
        match r {
            Ok((ds, j)) => spec_parse(src@, i as int) == Some((ds_model(ds), j as int))
                && i < j <= src@.len() && ds_wf(ds),
            Err(_) => spec_parse(src@, i as int) is None,
        },
    decreases src@.len() - i, 1int,
{
    if i >= src.len() {
        return Err(ProtocolError);
    }
    let b = src[i];
    if b == PLUS {
        parse_simple_string(src, i)
    } else if b == DOLLAR {
        parse_string(src, i)
    } else if b == STAR {
        parse_array(src, i)
    } else {
        Err(ProtocolError)
    }
}

/// The protocol parser: a registered input buffer and a cursor into it.
pub struct RESPParser {
    pub source_code: Vec<u8>,
    pub current_index: usize,
}

impl RESPParser {
    /// The cursor never leaves the buffer.
    pub open spec fn wf(&self) -> bool {
        self.current_index <= self.source_code@.len()
    }

    pub fn new() -> (r: RESPParser)
        ensures
            r.source_code@ == Seq::<u8>::empty(),
            r.current_index == 0,
            r.wf(),
    {
        RESPParser { source_code: Vec::new(), current_index: 0 }
    }

    /// Registers a fresh input buffer and rewinds the cursor.
    pub fn register(&mut self, source_code: &Vec<u8>)
        ensures
            final(self).source_code@ == source_code@,
            final(self).current_index == 0,
            final(self).wf(),
    {
        self.source_code = vstd::slice::slice_to_vec(source_code.as_slice());
        self.current_index = 0;
    }

    /// Parses one value at the cursor. On success the cursor stands just
    /// past the value; the grammar says exactly which value that is. On
    /// failure the input is not a wire-encoded value and the cursor is
    /// unmoved.
    pub fn parse(&mut self) -> (r: Result<DS, ProtocolError>)
        requires
            old(self).wf(),
        ensures
            final(self).wf(),
            final(self).source_code@ == old(self).source_code@,
            match r {
                Ok(ds) => spec_parse(old(self).source_code@, old(self).current_index as int)
                    == Some((ds_model(ds), final(self).current_index as int)) && ds_wf(ds),
                Err(_) => spec_parse(old(self).source_code@, old(self).current_index as int)
                    is None && final(self).current_index == old(self).current_index,
            },
    {
        match parse_at(&self.source_code, self.current_index) {
            Ok((ds, j)) => {
                self.current_index = j;
                Ok(ds)
            },
            Err(e) => Err(e),
        }
    }
}

} // verus!
