//! The wire grammar of the protocol, stated mathematically: a model of
//! parsed values, the canonical byte encoding of a value, and a parsing
//! function on byte sequences. The executable codec is specified against
//! these definitions, and the round trip (parsing a serialized value gives
//! the value back) is proved here.

use vstd::prelude::*;
use crate::bytes_util::dec_digits;

verus! {

pub const CR: u8 = 13;

pub const LF: u8 = 10;

/// `'+'`, the simple-string marker.
pub const PLUS: u8 = 0x2b;

/// `'$'`, the bulk-string marker.
pub const DOLLAR: u8 = 0x24;

/// `'*'`, the array marker.
pub const STAR: u8 = 0x2a;

/// Declared lengths must fit 32 bits.
pub const LEN_LIMIT: u64 = 0x1_0000_0000;

/// The model of a parsed protocol value: a simple string, a bulk string,
/// or an array of further values.
pub enum DsModel {
    Simple(Seq<u8>),
    Bulk(Seq<u8>),
    Arr(Seq<DsModel>),
}

/// The canonical encoding: `+<text>\r\n`, `$<len>\r\n<bytes>\r\n`,
/// `*<count>\r\n` followed by the encoded elements.
pub open spec fn wire_of(m: DsModel) -> Seq<u8>
    decreases m,
{
    match m {
        DsModel::Simple(s) => seq![PLUS] + s + seq![CR, LF],
        DsModel::Bulk(s) => seq![DOLLAR] + dec_digits(s.len()) + seq![CR, LF] + s + seq![CR, LF],
        DsModel::Arr(es) => seq![STAR] + dec_digits(es.len()) + seq![CR, LF] + wire_of_list(es),
    }
}

/// The concatenated encodings of a sequence of values.
pub open spec fn wire_of_list(es: Seq<DsModel>) -> Seq<u8>
    decreases es,
{
    if es.len() == 0 {
        Seq::empty()
    } else {
        wire_of(es[0]) + wire_of_list(es.drop_first())
    }
}

/// A value whose encoding parses back to itself: simple-string text holds
/// no carriage return (the encoding could not carry one), and every
/// declared length fits the length limit.
pub open spec fn wf_model(m: DsModel) -> bool
    decreases m,
{
    match m {
        DsModel::Simple(s) => forall|i: int| 0 <= i < s.len() ==> s[i] != CR,
        DsModel::Bulk(s) => s.len() < LEN_LIMIT,
        DsModel::Arr(es) => es.len() < LEN_LIMIT
            && forall|i: int| 0 <= i < es.len() ==> wf_model(#[trigger] es[i]),
    }
}

pub open spec fn is_digit(b: u8) -> bool {
    0x30 <= b <= 0x39
}

/// The first index at or after `i` holding a non-digit, or the end.
pub open spec fn digits_end(s: Seq<u8>, i: int) -> int
    decreases s.len() - i,
{
    if i < 0 || i >= s.len() || !is_digit(s[i]) {
        i
    } else {
        digits_end(s, i + 1)
    }
}

/// The numeric worth of one digit character.
pub open spec fn digit_val(b: u8) -> nat {
    if 0x30 <= b {
        (b - 0x30) as nat
    } else {
        0
    }
}

/// The number the digit characters spell, most significant first.
pub open spec fn dec_value(ds: Seq<u8>) -> nat
    decreases ds.len(),
{
    if ds.len() == 0 {
        0
    } else {
        dec_value(ds.drop_last()) * 10 + digit_val(ds.last())
    }
}

/// The first index at or after `i` holding a carriage return, or the end.
pub open spec fn line_end(s: Seq<u8>, i: int) -> int
    decreases s.len() - i,
{
    if i < 0 || i >= s.len() || s[i] == CR {
        i
    } else {
        line_end(s, i + 1)
    }
}

/// A CRLF pair sits at `i`.
pub open spec fn crlf_at(s: Seq<u8>, i: int) -> bool {
    i + 2 <= s.len() && s[i] == CR && s[i + 1] == LF
}

/// Parses a length field at `i`: a non-empty digit run whose value is
/// under the length limit. Returns the value and the index past the run.
pub open spec fn spec_parse_len(s: Seq<u8>, i: int) -> Option<(nat, int)> {
    let j = digits_end(s, i);
    if j <= i {
        None
    } else if dec_value(s.subrange(i, j)) >= LEN_LIMIT {
        None
    } else {
        Some((dec_value(s.subrange(i, j)), j))
    }
}

/// Parses one value at `i`, returning its model and the index past it.
pub open spec fn spec_parse(s: Seq<u8>, i: int) -> Option<(DsModel, int)>
    decreases s.len() - i, 0int, 0int,
{
    if i < 0 || i >= s.len() {
        None
    } else if s[i] == PLUS {
        let e = line_end(s, i + 1);
        if e + 2 <= s.len() && s[e + 1] == LF {
            Some((DsModel::Simple(s.subrange(i + 1, e)), e + 2))
        } else {
            None
        }
    } else if s[i] == DOLLAR {
        match spec_parse_len(s, i + 1) {
            None => None,
            Some((n, j)) => if j + 2 <= s.len() && s[j] == CR && s[j + 1] == LF {
                if j + 2 + n + 2 <= s.len() && s[j + 2 + n] == CR && s[j + 2 + n + 1] == LF {
                    Some((DsModel::Bulk(s.subrange(j + 2, j + 2 + n)), j + 2 + n + 2))
                } else {
                    None
                }
            } else {
                None
            },
        }
    } else if s[i] == STAR {
        match spec_parse_len(s, i + 1) {
            None => None,
            Some((n, j)) => if j + 2 <= s.len() && s[j] == CR && s[j + 1] == LF {
                match spec_parse_elems(s, j + 2, n) {
                    None => None,
                    Some((es, e)) => Some((DsModel::Arr(es), e)),
                }
            } else {
                None
            },
        }
    } else {
        None
    }
}

/// Parses `n` values one after the other, starting at `i`.
pub open spec fn spec_parse_elems(s: Seq<u8>, i: int, n: nat) -> Option<(Seq<DsModel>, int)>
    decreases s.len() - i, 1int, n,
{
    if n == 0 {
        Some((Seq::empty(), i))
    } else if i < 0 || i >= s.len() {
        None
    } else {
        match spec_parse(s, i) {
            None => None,
            Some((m, j)) => if j <= i || j > s.len() {
                None
            } else {
                match spec_parse_elems(s, j, (n - 1) as nat) {
                    None => None,
                    Some((es, e)) => Some((seq![m] + es, e)),
                }
            },
        }
    }
}

/// Appending one value appends its encoding.
pub proof fn lemma_wire_of_list_push(ms: Seq<DsModel>, m: DsModel)
    ensures
        wire_of_list(ms.push(m)) == wire_of_list(ms) + wire_of(m),
    decreases ms.len(),
{
    if ms.len() == 0 {
        assert(ms.push(m)[0] == m);
        assert(ms.push(m).drop_first() =~= Seq::<DsModel>::empty());
        assert(wire_of_list(Seq::<DsModel>::empty()) == Seq::<u8>::empty());
        assert(wire_of_list(ms.push(m)) =~= wire_of_list(ms) + wire_of(m));
    } else {
        assert(ms.push(m)[0] == ms[0]);
        assert(ms.push(m).drop_first() =~= ms.drop_first().push(m));
        lemma_wire_of_list_push(ms.drop_first(), m);
        assert(wire_of_list(ms.push(m)) =~= wire_of_list(ms) + wire_of(m));
    }
}

/// Decimal digit runs are non-empty, hold digits only, start with `'0'`
/// only for zero itself, and spell the number back.
pub proof fn lemma_dec_digits_wf(n: nat)
    ensures
        dec_digits(n).len() >= 1,
        forall|i: int| 0 <= i < dec_digits(n).len() ==> is_digit(#[trigger] dec_digits(n)[i]),
        dec_digits(n)[0] == 0x30 <==> n == 0,
        dec_value(dec_digits(n)) == n,
    decreases n,
{
    if n < 10 {
        assert(dec_digits(n) =~= seq![(0x30 + n) as u8]);
        assert(dec_digits(n).drop_last() =~= Seq::<u8>::empty());
        assert(dec_digits(n)[0] == (0x30 + n) as u8);
        assert(dec_value(Seq::<u8>::empty()) == 0);
        assert(dec_digits(n).last() == (0x30 + n) as u8);
        assert(digit_val((0x30 + n) as u8) == n);
    } else {
        assert(n / 10 >= 1 && n / 10 < n) by (nonlinear_arith)
            requires n >= 10;
        lemma_dec_digits_wf(n / 10);
        let a = dec_digits(n / 10);
        let d = (0x30 + n % 10) as u8;
        assert(dec_digits(n) == a + seq![d]);
        assert((a + seq![d]).drop_last() =~= a);
        assert((a + seq![d]).last() == d);
        assert((a + seq![d])[0] == a[0]);
        assert forall|i: int| 0 <= i < dec_digits(n).len()
            implies is_digit(#[trigger] dec_digits(n)[i]) by {
            if i < a.len() {
                assert(dec_digits(n)[i] == a[i]);
            } else {
                assert(dec_digits(n)[i] == d);
            }
        }
        assert(dec_value(dec_digits(n)) == dec_value(a) * 10 + digit_val(d));
        assert(digit_val(d) == n % 10);
        assert(dec_value(a) * 10 + digit_val(d) == n);
    }
}

/// One byte of a buffer region known to hold `w`.
proof fn lemma_byte_at(s: Seq<u8>, i: int, w: Seq<u8>, p: int)
    requires
        0 <= i,
        i + w.len() <= s.len(),
        s.subrange(i, i + w.len() as int) == w,
        i <= p < i + w.len(),
    ensures
        s[p] == w[p - i],
{
    assert(s.subrange(i, i + w.len() as int)[p - i] == s[p]);
}

/// Extending a digit run on the right never shrinks its value.
pub proof fn lemma_dec_value_monotone(s: Seq<u8>, a: int, i: int, e: int)
    requires
        0 <= a <= i <= e <= s.len(),
    ensures
        dec_value(s.subrange(a, i)) <= dec_value(s.subrange(a, e)),
    decreases e - i,
{
    if i < e {
        lemma_dec_value_monotone(s, a, i, e - 1);
        assert(s.subrange(a, e).drop_last() =~= s.subrange(a, e - 1));
    }
}

pub proof fn lemma_digits_end_exact(s: Seq<u8>, i: int, e: int)
    requires
        0 <= i <= e <= s.len(),
        forall|j: int| i <= j < e ==> is_digit(s[j]),
        e == s.len() || !is_digit(s[e]),
    ensures
        digits_end(s, i) == e,
    decreases e - i,
{
    if i < e {
        lemma_digits_end_exact(s, i + 1, e);
    }
}

pub proof fn lemma_line_end_exact(s: Seq<u8>, i: int, e: int)
    requires
        0 <= i <= e <= s.len(),
        forall|j: int| i <= j < e ==> s[j] != CR,
        e == s.len() || s[e] == CR,
    ensures
        line_end(s, i) == e,
    decreases e - i,
{
    if i < e {
        lemma_line_end_exact(s, i + 1, e);
    }
}

/// Every encoding starts with a marker and a terminator: at least three
/// bytes long.
pub proof fn lemma_wire_of_len(m: DsModel)
    ensures
        3 <= wire_of(m).len(),
{
    match m {
        DsModel::Simple(_) => {},
        DsModel::Bulk(s) => {
            lemma_dec_digits_wf(s.len());
        },
        DsModel::Arr(es) => {
            lemma_dec_digits_wf(es.len());
        },
    }
}

/// Parsing at the start of the canonical encoding of a well-formed value,
/// wherever it lies in a larger buffer, yields exactly that value and
/// stops exactly past it.
pub proof fn lemma_parse_of_wire_at(s: Seq<u8>, i: int, m: DsModel)
    requires
        wf_model(m),
        0 <= i,
        i + wire_of(m).len() <= s.len(),
        s.subrange(i, i + wire_of(m).len() as int) == wire_of(m),
    ensures
        spec_parse(s, i) == Some((m, i + wire_of(m).len() as int)),
    decreases m,
{
    let w = wire_of(m);
    let ln = w.len() as int;
    match m {
        DsModel::Simple(text) => {
            let tl = text.len() as int;
            let body = seq![PLUS] + text;
            assert(w == body + seq![CR, LF]);
            assert(ln == tl + 3);
            assert(s[i] == PLUS) by {
                lemma_byte_at(s, i, w, i);
                assert(w[0] == body[0]);
            }
            assert forall|p: int| i + 1 <= p < i + 1 + tl
                implies s[p] == text[p - i - 1] && s[p] != CR by {
                lemma_byte_at(s, i, w, p);
                assert(w[p - i] == body[p - i]);
                assert(body[p - i] == text[p - i - 1]);
            }
            assert(s[i + 1 + tl] == CR) by {
                lemma_byte_at(s, i, w, i + 1 + tl);
                assert(w[1 + tl] == seq![CR, LF][0]);
            }
            assert(s[i + 2 + tl] == LF) by {
                lemma_byte_at(s, i, w, i + 2 + tl);
                assert(w[2 + tl] == seq![CR, LF][1]);
            }
            lemma_line_end_exact(s, i + 1, i + 1 + tl);
            assert(s.subrange(i + 1, i + 1 + tl) =~= text);
        },
        DsModel::Bulk(data) => {
            let dl = data.len() as int;
            lemma_dec_digits_wf(data.len());
            let dd = dec_digits(data.len());
            let ddl = dd.len() as int;
            let p1 = seq![DOLLAR] + dd;
            let p2 = p1 + seq![CR, LF];
            let p3 = p2 + data;
            assert(w == p3 + seq![CR, LF]);
            assert(ln == 1 + ddl + 2 + dl + 2);
            let j = i + 1 + ddl;
            assert(s[i] == DOLLAR) by {
                lemma_byte_at(s, i, w, i);
                assert(w[0] == p3[0] && p3[0] == p2[0] && p2[0] == p1[0]);
            }
            assert forall|p: int| i + 1 <= p < j implies s[p] == dd[p - i - 1] by {
                lemma_byte_at(s, i, w, p);
                assert(w[p - i] == p3[p - i] && p3[p - i] == p2[p - i]
                    && p2[p - i] == p1[p - i] && p1[p - i] == dd[p - i - 1]);
            }
            assert(s[j] == CR && s[j + 1] == LF) by {
                lemma_byte_at(s, i, w, j);
                lemma_byte_at(s, i, w, j + 1);
                assert(w[j - i] == p3[j - i] && p3[j - i] == p2[j - i]
                    && p2[j - i] == seq![CR, LF][0]);
                assert(w[j + 1 - i] == p3[j + 1 - i] && p3[j + 1 - i] == p2[j + 1 - i]
                    && p2[j + 1 - i] == seq![CR, LF][1]);
            }
            assert forall|p: int| j + 2 <= p < j + 2 + dl implies s[p] == data[p - j - 2] by {
                lemma_byte_at(s, i, w, p);
                assert(w[p - i] == p3[p - i] && p3[p - i] == data[p - i - 3 - ddl]);
            }
            assert(s[j + 2 + dl] == CR && s[j + 2 + dl + 1] == LF) by {
                lemma_byte_at(s, i, w, j + 2 + dl);
                lemma_byte_at(s, i, w, j + 2 + dl + 1);
                assert(w[3 + ddl + dl] == seq![CR, LF][0]);
                assert(w[4 + ddl + dl] == seq![CR, LF][1]);
            }
            assert(!is_digit(CR));
            lemma_digits_end_exact(s, i + 1, j);
            assert(s.subrange(i + 1, j) =~= dd);
            assert(spec_parse_len(s, i + 1) == Some((data.len(), j)));
            assert(s.subrange(j + 2, j + 2 + dl) =~= data);
        },
        DsModel::Arr(es) => {
            lemma_dec_digits_wf(es.len());
            let dd = dec_digits(es.len());
            let ddl = dd.len() as int;
            let wl = wire_of_list(es);
            let wll = wl.len() as int;
            let p1 = seq![STAR] + dd;
            let p2 = p1 + seq![CR, LF];
            assert(w == p2 + wl);
            assert(ln == 1 + ddl + 2 + wll);
            let j = i + 1 + ddl;
            assert(s[i] == STAR) by {
                lemma_byte_at(s, i, w, i);
                assert(w[0] == p2[0] && p2[0] == p1[0]);
            }
            assert forall|p: int| i + 1 <= p < j implies s[p] == dd[p - i - 1] by {
                lemma_byte_at(s, i, w, p);
                assert(w[p - i] == p2[p - i] && p2[p - i] == p1[p - i]
                    && p1[p - i] == dd[p - i - 1]);
            }
            assert(s[j] == CR && s[j + 1] == LF) by {
                lemma_byte_at(s, i, w, j);
                lemma_byte_at(s, i, w, j + 1);
                assert(w[j - i] == p2[j - i] && p2[j - i] == seq![CR, LF][0]);
                assert(w[j + 1 - i] == p2[j + 1 - i] && p2[j + 1 - i] == seq![CR, LF][1]);
            }
            assert(!is_digit(CR));
            lemma_digits_end_exact(s, i + 1, j);
            assert(s.subrange(i + 1, j) =~= dd);
            assert(spec_parse_len(s, i + 1) == Some((es.len(), j)));
            assert(s.subrange(j + 2, j + 2 + wll) =~= wl) by {
                assert forall|k: int| 0 <= k < wll
                    implies s.subrange(j + 2, j + 2 + wll)[k] == wl[k] by {
                    lemma_byte_at(s, i, w, j + 2 + k);
                    assert(w[3 + ddl + k] == wl[k]);
                }
            }
            lemma_parse_elems_of_wire_at(s, j + 2, es);
        },
    }
}

/// Parsing element after element at the start of the concatenated
/// encodings yields exactly those values.
pub proof fn lemma_parse_elems_of_wire_at(s: Seq<u8>, i: int, es: Seq<DsModel>)
    requires
        forall|k: int| 0 <= k < es.len() ==> wf_model(#[trigger] es[k]),
        0 <= i,
        i + wire_of_list(es).len() <= s.len(),
        s.subrange(i, i + wire_of_list(es).len() as int) == wire_of_list(es),
    ensures
        spec_parse_elems(s, i, es.len()) == Some((es, i + wire_of_list(es).len() as int)),
    decreases es,
{
    if es.len() == 0 {
        assert(es =~= Seq::<DsModel>::empty());
    } else {
        let w0 = wire_of(es[0]);
        let w0l = w0.len() as int;
        let rest = wire_of_list(es.drop_first());
        let rl = rest.len() as int;
        let wl = wire_of_list(es);
        assert(wl == w0 + rest);
        lemma_wire_of_len(es[0]);
        assert(s.subrange(i, i + w0l) =~= w0) by {
            assert forall|k: int| 0 <= k < w0l implies s.subrange(i, i + w0l)[k] == w0[k] by {
                lemma_byte_at(s, i, wl, i + k);
                assert(wl[k] == w0[k]);
            }
        }
        lemma_parse_of_wire_at(s, i, es[0]);
        let j = i + w0l;
        assert(s.subrange(j, j + rl) =~= rest) by {
            assert forall|k: int| 0 <= k < rl implies s.subrange(j, j + rl)[k] == rest[k] by {
                lemma_byte_at(s, i, wl, j + k);
                assert(wl[w0l + k] == rest[k]);
            }
        }
        assert forall|k: int| 0 <= k < es.drop_first().len()
            implies wf_model(#[trigger] es.drop_first()[k]) by {
            assert(es.drop_first()[k] == es[k + 1]);
        }
        lemma_parse_elems_of_wire_at(s, j, es.drop_first());
        assert(seq![es[0]] + es.drop_first() =~= es);
        assert((es.len() - 1) as nat == es.drop_first().len());
    }
}

/// The round trip over the grammar: parsing the canonical encoding of a
/// well-formed value yields exactly that value and consumes the whole
/// encoding.
pub proof fn lemma_parse_of_wire(m: DsModel)
    requires
        wf_model(m),
    ensures
        spec_parse(wire_of(m), 0) == Some((m, wire_of(m).len() as int)),
{
    let w = wire_of(m);
    assert(w.subrange(0, w.len() as int) =~= w);
    lemma_parse_of_wire_at(w, 0, m);
}

} // verus!
