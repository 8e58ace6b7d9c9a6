//! The round-trip law and the determinism of serialization.
//!
//! The central theorem is `lemma_round_trip`: parsing the wire image of any
//! well-formed value that nests within the parser's recursion limit yields
//! exactly that value and consumes exactly its image.  The proof walks the
//! value tree, showing for each variant that the parser reads back what the
//! serializer wrote, and for sets and maps that re-canonicalizing an already
//! canonical run changes nothing.

use vstd::prelude::*;

use crate::canon::{canon_items, canon_pairs, lemma_canon_items_id, lemma_canon_pairs_id};
use crate::digits::{dec_i, dec_u, digits_val, is_digit, lemma_dec_u_props, strip_zeros};
use crate::errors::ParseError;
use crate::lexord::lex_cmp;
use crate::model::{
    attr_of, crlf, depth_items, depth_pairs, depth_value, ser_attr_opt, ser_double, ser_items,
    ser_pairs, ser_value, ser_verb_kind, sorted_items, sorted_pairs, valid_items, valid_pairs,
    valid_value, with_attr_of, DoubleV, PairsV, ValueV, CR, LF, SP, MINUS, DOT, COLON, D_ARRAY,
    D_ATTRIBUTE, D_BIG_NUMBER, D_BLOB_ERROR, D_BLOB_STRING, D_BOOLEAN, D_DOUBLE, D_MAP, D_NULL,
    D_NUMBER, D_SET, D_SIMPLE_ERROR, D_SIMPLE_STRING, D_VERBATIM_STRING, MAX_DEPTH,
};
use crate::parse::{
    lemma_digits_end_char, lemma_text_end_char, lemma_upper_end_char, sp_attr, sp_big,
    sp_big_number, sp_blob_error, sp_blob_string, sp_boolean, sp_core, sp_crlf, sp_digit_run,
    sp_double, sp_double_payload, sp_i64, sp_items, sp_length, sp_null, sp_number, sp_pairs,
    sp_simple_error, sp_simple_string, sp_value, sp_verbatim,
};
use crate::value::VerbKind;

verus! {

/// The bytes of `w` stand in `s` at position `i`.
pub open spec fn bytes_at(s: Seq<u8>, i: int, w: Seq<u8>) -> bool {
    &&& 0 <= i
    &&& i + w.len() <= s.len()
    &&& s.subrange(i, i + w.len()) == w
}

/// Splitting a concatenation splits where it stands.
proof fn lemma_bytes_at_split(s: Seq<u8>, i: int, a: Seq<u8>, b: Seq<u8>)
    requires
        bytes_at(s, i, a.add(b)),
    ensures
        bytes_at(s, i, a),
        bytes_at(s, i + a.len(), b),
{
    let ab = a.add(b);
    assert(s.subrange(i, i + a.len()) =~= a) by {
        assert forall|k: int| 0 <= k < a.len() implies s.subrange(i, i + a.len())[k]
            == a[k] by {
            assert(s.subrange(i, i + ab.len())[k] == ab[k]);
            assert(s.subrange(i, i + ab.len())[k] == s[i + k]);
            assert(s.subrange(i, i + a.len())[k] == s[i + k]);
        }
    }
    assert(s.subrange(i + a.len(), i + a.len() + b.len()) =~= b) by {
        assert forall|k: int| 0 <= k < b.len() implies s.subrange(
            i + a.len(),
            i + a.len() + b.len(),
        )[k] == b[k] by {
            assert(s.subrange(i, i + ab.len())[a.len() + k] == ab[a.len() + k]);
            assert(s.subrange(i, i + ab.len())[a.len() + k] == s[i + a.len() + k]);
            assert(s.subrange(i + a.len(), i + a.len() + b.len())[k] == s[i + a.len() + k]);
            assert(ab[a.len() + k] == b[k]);
        }
    }
}

/// The bytes of `w` stand at `i` byte for byte.
proof fn lemma_bytes_at_index(s: Seq<u8>, i: int, w: Seq<u8>)
    requires
        bytes_at(s, i, w),
    ensures
        forall|k: int| 0 <= k < w.len() ==> s[i + k] == #[trigger] w[k],
{
    assert forall|k: int| 0 <= k < w.len() implies s[i + k] == #[trigger] w[k] by {
        assert(s.subrange(i, i + w.len())[k] == w[k]);
        assert(s.subrange(i, i + w.len())[k] == s[i + k]);
    }
}

/// A delimiter written is a delimiter read.
proof fn lemma_rt_crlf(s: Seq<u8>, i: int)
    requires
        bytes_at(s, i, crlf()),
    ensures
        sp_crlf(s, i) == Ok::<int, ParseError>(i + 2),
{
    lemma_bytes_at_index(s, i, crlf());
    assert(crlf()[0] == CR && crlf()[1] == LF);
    assert(s[i] == CR && s[i + 1] == LF);
}

/// The canonical run of `m`, followed by a byte that is not a digit, reads
/// back as exactly `m`.
proof fn lemma_rt_digits(s: Seq<u8>, i: int, m: nat)
    requires
        bytes_at(s, i, dec_u(m)),
        i + dec_u(m).len() < s.len(),
        !is_digit(s[i + dec_u(m).len()]),
    ensures
        sp_digit_run(s, i) == Ok::<(Seq<u8>, int), ParseError>((dec_u(m), i + dec_u(m).len())),
        digits_val(dec_u(m)) == m,
{
    lemma_dec_u_props(m);
    lemma_bytes_at_index(s, i, dec_u(m));
    let e = i + dec_u(m).len();
    assert forall|w: int| i <= w < e implies is_digit(#[trigger] s[w]) by {
        assert(s[i + (w - i)] == dec_u(m)[w - i]);
    }
    lemma_digits_end_char(s, i, e);
    assert(s.subrange(i, e) =~= dec_u(m));
}


/// A nonempty digit run, followed by a byte that is not a digit, reads back
/// as exactly itself.
proof fn lemma_rt_run(s: Seq<u8>, i: int, run: Seq<u8>)
    requires
        run.len() >= 1,
        crate::digits::all_digits(run),
        bytes_at(s, i, run),
        i + run.len() < s.len(),
        !is_digit(s[i + run.len()]),
    ensures
        sp_digit_run(s, i) == Ok::<(Seq<u8>, int), ParseError>((run, i + run.len())),
{
    lemma_bytes_at_index(s, i, run);
    let e = i + run.len();
    assert forall|w: int| i <= w < e implies is_digit(#[trigger] s[w]) by {
        assert(s[i + (w - i)] == run[w - i]);
    }
    lemma_digits_end_char(s, i, e);
    assert(s.subrange(i, e) =~= run);
}

/// A null written is a null read.
proof fn lemma_rt_null(s: Seq<u8>, i: int, v: ValueV)
    requires
        v matches ValueV::Null { attr } && attr is None,
        bytes_at(s, i, ser_value(v)),
    ensures
        sp_null(s, i) == Ok::<(ValueV, int), ParseError>((v, i + ser_value(v).len())),
{
    let w = ser_value(v);
    assert(w =~= seq![D_NULL, CR, LF]);
    lemma_bytes_at_index(s, i, w);
    assert(s[i + 1] == CR && s[i + 2] == LF);
    assert(sp_crlf(s, i + 1) == Ok::<int, ParseError>(i + 3));
}

/// A boolean written is a boolean read.
proof fn lemma_rt_boolean(s: Seq<u8>, i: int, v: ValueV)
    requires
        v matches ValueV::Boolean { attr, .. } && attr is None,
        bytes_at(s, i, ser_value(v)),
    ensures
        sp_boolean(s, i) == Ok::<(ValueV, int), ParseError>((v, i + ser_value(v).len())),
{
    let w = ser_value(v);
    let b = v->Boolean_b;
    assert(w =~= seq![D_BOOLEAN, if b { 0x74u8 } else { 0x66u8 }, CR, LF]);
    lemma_bytes_at_index(s, i, w);
    assert(s[i + 1] == (if b { 0x74u8 } else { 0x66u8 }));
    assert(s[i + 2] == CR && s[i + 3] == LF);
    assert(sp_crlf(s, i + 2) == Ok::<int, ParseError>(i + 4));
}

/// A number written is a number read.
proof fn lemma_rt_number(s: Seq<u8>, i: int, v: ValueV)
    requires
        v matches ValueV::Number { attr, .. } && attr is None,
        bytes_at(s, i, ser_value(v)),
    ensures
        sp_number(s, i) == Ok::<(ValueV, int), ParseError>((v, i + ser_value(v).len())),
{
    let n = v->Number_n;
    let w = ser_value(v);
    assert(w == seq![D_NUMBER].add(dec_i(n as int)).add(crlf()));
    lemma_bytes_at_split(s, i, seq![D_NUMBER].add(dec_i(n as int)), crlf());
    lemma_bytes_at_split(s, i, seq![D_NUMBER], dec_i(n as int));
    let body = i + 1;
    let e = body + dec_i(n as int).len();
    lemma_rt_crlf(s, e);
    lemma_bytes_at_index(s, i, w);
    if n < 0 {
        let m = (-(n as int)) as nat;
        assert(dec_i(n as int) == seq![MINUS].add(dec_u(m)));
        lemma_bytes_at_split(s, body, seq![MINUS], dec_u(m));
        assert(s[body] == seq![MINUS].add(dec_u(m))[0]);
        assert(s[body] == MINUS);
        assert(crlf()[0] == CR);
        assert(s[e] == CR);
        lemma_rt_digits(s, body + 1, m);
        assert(m <= 0x8000_0000_0000_0000);
        assert(sp_i64(s, body) == Ok::<(i64, int), ParseError>((n, e)));
        assert(sp_crlf(s, e) == Ok::<int, ParseError>(e + 2));
    } else {
        let m = n as nat;
        assert(dec_i(n as int) == dec_u(m));
        lemma_dec_u_props(m);
        assert(s[body] == dec_u(m)[0]);
        assert(is_digit(dec_u(m)[0]));
        assert(s[body] != MINUS);
        assert(crlf()[0] == CR);
        assert(s[e] == CR);
        lemma_rt_digits(s, body, m);
        assert(m <= 0x7FFF_FFFF_FFFF_FFFF);
        assert(sp_i64(s, body) == Ok::<(i64, int), ParseError>((n, e)));
    }
}

/// A big number written is a big number read.
proof fn lemma_rt_big_number(s: Seq<u8>, i: int, v: ValueV)
    requires
        v matches ValueV::BigNumber { attr, .. } && attr is None,
        valid_value(v),
        bytes_at(s, i, ser_value(v)),
    ensures
        sp_big_number(s, i) == Ok::<(ValueV, int), ParseError>((v, i + ser_value(v).len())),
{
    let neg = v->BigNumber_neg;
    let ds = v->BigNumber_digits;
    let w = ser_value(v);
    let signpart: Seq<u8> = if neg {
        seq![MINUS]
    } else {
        Seq::empty()
    };
    assert(w == seq![D_BIG_NUMBER].add(signpart).add(ds).add(crlf()));
    lemma_bytes_at_split(s, i, seq![D_BIG_NUMBER].add(signpart).add(ds), crlf());
    lemma_bytes_at_split(s, i, seq![D_BIG_NUMBER].add(signpart), ds);
    lemma_bytes_at_split(s, i, seq![D_BIG_NUMBER], signpart);
    let body = i + 1;
    let dstart = body + signpart.len();
    let e = dstart + ds.len();
    lemma_rt_crlf(s, e);
    lemma_bytes_at_index(s, dstart, ds);
    lemma_bytes_at_index(s, e, crlf());
    // the digit run at dstart is exactly ds
    assert forall|q: int| dstart <= q < e implies is_digit(#[trigger] s[q]) by {
        assert(s[dstart + (q - dstart)] == ds[q - dstart]);
    }
    assert(crlf()[0] == CR);
    assert(s[e] == CR);
    assert(!is_digit(s[e]));
    lemma_digits_end_char(s, dstart, e);
    assert(s.subrange(dstart, e) =~= ds);
    if neg {
        lemma_bytes_at_index(s, body, signpart);
        assert(signpart[0] == MINUS);
        assert(s[body + 0] == signpart[0]);
        assert(s[body] == MINUS);
        assert(sp_digit_run(s, dstart) == Ok::<(Seq<u8>, int), ParseError>((ds, e)));
        assert(strip_zeros(ds) == ds);
        assert(ds[0] != 0x30);
        assert(sp_big(s, body) matches Ok(((rneg, rds), re)) && rneg == neg && rds == ds
            && re == e);
    } else {
        assert(ds[0] != MINUS);
        assert(s[dstart] == ds[0]);
        assert(strip_zeros(ds) == ds) by {
            if ds.len() > 1 && ds[0] == 0x30 {
                assert(false);
            }
        }
        if ds[0] == 0x30 {
            assert(ds.len() == 1);
        }
        assert(sp_big(s, body) matches Ok(((rneg, rds), re)) && rneg == false && rds == ds
            && re == e);
    }
}


/// A double written is a double read.
proof fn lemma_rt_double(s: Seq<u8>, i: int, v: ValueV)
    requires
        v matches ValueV::Double { attr, .. } && attr is None,
        valid_value(v),
        bytes_at(s, i, ser_value(v)),
    ensures
        sp_double(s, i) == Ok::<(ValueV, int), ParseError>((v, i + ser_value(v).len())),
{
    let dd = v->Double_d;
    let w = ser_value(v);
    assert(w == seq![D_DOUBLE].add(ser_double(dd)).add(crlf()));
    lemma_bytes_at_split(s, i, seq![D_DOUBLE].add(ser_double(dd)), crlf());
    lemma_bytes_at_split(s, i, seq![D_DOUBLE], ser_double(dd));
    let body = i + 1;
    let e = body + ser_double(dd).len();
    lemma_rt_crlf(s, e);
    lemma_bytes_at_index(s, e, crlf());
    assert(crlf()[0] == CR);
    assert(s[e] == CR);
    match dd {
        DoubleV::Inf(sign) => {
            if sign is Minus {
                assert(ser_double(dd) == seq![MINUS, 0x69u8, 0x6Eu8, 0x66u8]);
                lemma_bytes_at_index(s, body, ser_double(dd));
                assert(ser_double(dd)[0] == MINUS);
                assert(s[body + 0] == MINUS && s[body + 1] == 0x69 && s[body + 2] == 0x6E
                    && s[body + 3] == 0x66);
                assert(sp_double_payload(s, body) == Ok::<(DoubleV, int), ParseError>(
                    (dd, e),
                ));
            } else {
                assert(ser_double(dd) == seq![0x69u8, 0x6Eu8, 0x66u8]);
                lemma_bytes_at_index(s, body, ser_double(dd));
                assert(ser_double(dd)[0] == 0x69);
                assert(s[body + 0] == 0x69 && s[body + 1] == 0x6E && s[body + 2] == 0x66);
                assert(s[body] != MINUS);
                assert(sp_double_payload(s, body) == Ok::<(DoubleV, int), ParseError>(
                    (dd, e),
                ));
            }
        },
        DoubleV::Num(p) => {
            let signpart: Seq<u8> = if p.sign is Minus {
                seq![MINUS]
            } else {
                Seq::empty()
            };
            let fracpart: Seq<u8> = match p.frac {
                Option::Some(f) => seq![DOT].add(f),
                Option::None => Seq::empty(),
            };
            assert(ser_double(dd) == signpart.add(p.int).add(fracpart));
            lemma_bytes_at_split(s, body, signpart.add(p.int), fracpart);
            lemma_bytes_at_split(s, body, signpart, p.int);
            let dstart = body + signpart.len();
            let e1 = dstart + p.int.len();
            if p.sign is Minus {
                lemma_bytes_at_index(s, body, signpart);
                assert(signpart[0] == MINUS);
                assert(s[body + 0] == signpart[0]);
                assert(s[body] == MINUS);
            } else {
                lemma_bytes_at_index(s, dstart, p.int);
                assert(s[dstart + 0] == p.int[0]);
                assert(is_digit(s[body]));
                assert(s[body] != MINUS);
            }
            lemma_bytes_at_index(s, dstart, p.int);
            assert(s[dstart + 0] == p.int[0]);
            assert(is_digit(s[dstart]));
            assert(s[dstart] != 0x69);
            match p.frac {
                Option::Some(f) => {
                    lemma_bytes_at_split(s, e1, seq![DOT], f);
                    lemma_bytes_at_index(s, e1, seq![DOT]);
                    assert(s[e1 + 0] == seq![DOT][0]);
                    assert(s[e1] == DOT);
                    assert(!is_digit(s[e1]));
                    lemma_rt_run(s, dstart, p.int);
                    let fstart = e1 + 1;
                    assert(!is_digit(s[fstart + f.len()]));
                    lemma_rt_run(s, fstart, f);
                    assert(sp_double_payload(s, body) == Ok::<(DoubleV, int), ParseError>(
                        (dd, e),
                    ));
                },
                Option::None => {
                    assert(e1 == e);
                    assert(!is_digit(s[e1]));
                    lemma_rt_run(s, dstart, p.int);
                    assert(s[e1] != DOT);
                    assert(sp_double_payload(s, body) == Ok::<(DoubleV, int), ParseError>(
                        (dd, e),
                    ));
                },
            }
        },
    }
}

/// A simple string written is a simple string read.
proof fn lemma_rt_simple_string(s: Seq<u8>, i: int, v: ValueV)
    requires
        v matches ValueV::SimpleString { attr, .. } && attr is None,
        valid_value(v),
        bytes_at(s, i, ser_value(v)),
    ensures
        sp_simple_string(s, i) == Ok::<(ValueV, int), ParseError>((v, i + ser_value(v).len())),
{
    let data = v->SimpleString_data;
    let w = ser_value(v);
    assert(w == seq![D_SIMPLE_STRING].add(data).add(crlf()));
    lemma_bytes_at_split(s, i, seq![D_SIMPLE_STRING].add(data), crlf());
    lemma_bytes_at_split(s, i, seq![D_SIMPLE_STRING], data);
    let body = i + 1;
    let e = body + data.len();
    lemma_rt_crlf(s, e);
    lemma_bytes_at_index(s, e, crlf());
    assert(crlf()[0] == CR);
    assert(s[e] == CR);
    lemma_bytes_at_index(s, body, data);
    assert forall|q: int| body <= q < e implies #[trigger] s[q] != CR && s[q] != LF by {
        assert(s[body + (q - body)] == data[q - body]);
    }
    lemma_text_end_char(s, body, e);
    assert(s.subrange(body, e) =~= data);
}

/// A simple error written is a simple error read.
proof fn lemma_rt_simple_error(s: Seq<u8>, i: int, v: ValueV)
    requires
        v matches ValueV::SimpleError { attr, .. } && attr is None,
        valid_value(v),
        bytes_at(s, i, ser_value(v)),
    ensures
        sp_simple_error(s, i) == Ok::<(ValueV, int), ParseError>((v, i + ser_value(v).len())),
{
    let code = v->SimpleError_code;
    let msg = v->SimpleError_msg;
    let w = ser_value(v);
    assert(w == seq![D_SIMPLE_ERROR].add(code).add(seq![SP]).add(msg).add(crlf()));
    lemma_bytes_at_split(s, i, seq![D_SIMPLE_ERROR].add(code).add(seq![SP]).add(msg), crlf());
    lemma_bytes_at_split(s, i, seq![D_SIMPLE_ERROR].add(code).add(seq![SP]), msg);
    lemma_bytes_at_split(s, i, seq![D_SIMPLE_ERROR].add(code), seq![SP]);
    lemma_bytes_at_split(s, i, seq![D_SIMPLE_ERROR], code);
    let cstart = i + 1;
    let ce = cstart + code.len();
    let mstart = ce + 1;
    let me = mstart + msg.len();
    lemma_rt_crlf(s, me);
    lemma_bytes_at_index(s, me, crlf());
    assert(crlf()[0] == CR);
    assert(s[me] == CR);
    lemma_bytes_at_index(s, cstart, code);
    lemma_bytes_at_index(s, ce, seq![SP]);
    assert(s[ce + 0] == seq![SP][0]);
    assert(s[ce] == SP);
    lemma_bytes_at_index(s, mstart, msg);
    assert forall|q: int| cstart <= q < ce implies crate::model::is_upper(#[trigger] s[q]) by {
        assert(s[cstart + (q - cstart)] == code[q - cstart]);
    }
    assert(!crate::model::is_upper(s[ce]));
    lemma_upper_end_char(s, cstart, ce);
    assert forall|q: int| mstart <= q < me implies #[trigger] s[q] != CR && s[q] != LF by {
        assert(s[mstart + (q - mstart)] == msg[q - mstart]);
    }
    lemma_text_end_char(s, mstart, me);
    assert(s.subrange(cstart, ce) =~= code);
    assert(s.subrange(mstart, me) =~= msg);
}

/// A blob string written is a blob string read.
proof fn lemma_rt_blob_string(s: Seq<u8>, i: int, v: ValueV)
    requires
        v matches ValueV::BlobString { attr, .. } && attr is None,
        valid_value(v),
        bytes_at(s, i, ser_value(v)),
    ensures
        sp_blob_string(s, i) == Ok::<(ValueV, int), ParseError>((v, i + ser_value(v).len())),
{
    let data = v->BlobString_data;
    let n = data.len();
    let w = ser_value(v);
    assert(w == seq![D_BLOB_STRING].add(dec_u(n)).add(crlf()).add(data).add(crlf()));
    lemma_bytes_at_split(s, i, seq![D_BLOB_STRING].add(dec_u(n)).add(crlf()).add(data), crlf());
    lemma_bytes_at_split(s, i, seq![D_BLOB_STRING].add(dec_u(n)).add(crlf()), data);
    lemma_bytes_at_split(s, i, seq![D_BLOB_STRING].add(dec_u(n)), crlf());
    lemma_bytes_at_split(s, i, seq![D_BLOB_STRING], dec_u(n));
    let lstart = i + 1;
    let le = lstart + dec_u(n).len();
    let dstart = le + 2;
    let de = dstart + data.len();
    lemma_rt_crlf(s, le);
    lemma_rt_crlf(s, de);
    lemma_bytes_at_index(s, le, crlf());
    assert(crlf()[0] == CR);
    assert(s[le] == CR);
    assert(!is_digit(s[le]));
    lemma_rt_digits(s, lstart, n);
    assert(sp_length(s, lstart) == Ok::<(int, int), ParseError>((n as int, le)));
    assert(s.subrange(dstart, de) =~= data);
}

/// A blob error written is a blob error read.
proof fn lemma_rt_blob_error(s: Seq<u8>, i: int, v: ValueV)
    requires
        v matches ValueV::BlobError { attr, .. } && attr is None,
        valid_value(v),
        bytes_at(s, i, ser_value(v)),
    ensures
        sp_blob_error(s, i) == Ok::<(ValueV, int), ParseError>((v, i + ser_value(v).len())),
{
    let code = v->BlobError_code;
    let msg = v->BlobError_msg;
    let n = code.len() + 1 + msg.len();
    let w = ser_value(v);
    assert(w == seq![D_BLOB_ERROR].add(dec_u(n)).add(crlf()).add(code).add(seq![SP]).add(
        msg,
    ).add(crlf()));
    lemma_bytes_at_split(
        s,
        i,
        seq![D_BLOB_ERROR].add(dec_u(n)).add(crlf()).add(code).add(seq![SP]).add(msg),
        crlf(),
    );
    lemma_bytes_at_split(
        s,
        i,
        seq![D_BLOB_ERROR].add(dec_u(n)).add(crlf()).add(code).add(seq![SP]),
        msg,
    );
    lemma_bytes_at_split(s, i, seq![D_BLOB_ERROR].add(dec_u(n)).add(crlf()).add(code), seq![SP]);
    lemma_bytes_at_split(s, i, seq![D_BLOB_ERROR].add(dec_u(n)).add(crlf()), code);
    lemma_bytes_at_split(s, i, seq![D_BLOB_ERROR].add(dec_u(n)), crlf());
    lemma_bytes_at_split(s, i, seq![D_BLOB_ERROR], dec_u(n));
    let lstart = i + 1;
    let le = lstart + dec_u(n).len();
    let dstart = le + 2;
    let de = dstart + n;
    lemma_rt_crlf(s, le);
    lemma_rt_crlf(s, de);
    lemma_bytes_at_index(s, le, crlf());
    assert(crlf()[0] == CR);
    assert(s[le] == CR);
    assert(!is_digit(s[le]));
    lemma_rt_digits(s, lstart, n);
    assert(sp_length(s, lstart) == Ok::<(int, int), ParseError>((n as int, le)));
    let data = s.subrange(dstart, de);
    assert(data =~= code.add(seq![SP]).add(msg)) by {
        lemma_bytes_at_index(s, dstart, code);
        lemma_bytes_at_index(s, dstart + code.len(), seq![SP]);
        lemma_bytes_at_index(s, dstart + code.len() + 1, msg);
        assert forall|q: int| 0 <= q < n implies data[q] == code.add(seq![SP]).add(msg)[q] by {
            assert(data[q] == s[dstart + q]);
            if q < code.len() {
                assert(s[dstart + q] == code[q]);
            } else if q == code.len() {
                assert(s[dstart + code.len() + 0] == seq![SP][0]);
            } else {
                assert(s[dstart + code.len() + 1 + (q - code.len() - 1)] == msg[q - code.len()
                    - 1]);
            }
        }
    }
    let ce = code.len() as int;
    assert forall|q: int| 0 <= q < ce implies crate::model::is_upper(#[trigger] data[q]) by {
        assert(data[q] == code.add(seq![SP]).add(msg)[q]);
    }
    assert(data[ce] == SP);
    assert(!crate::model::is_upper(data[ce]));
    lemma_upper_end_char(data, 0, ce);
    assert(data.subrange(0, ce) =~= code);
    assert(data.subrange(ce + 1, data.len() as int) =~= msg);
}

/// A verbatim string written is a verbatim string read.
proof fn lemma_rt_verbatim(s: Seq<u8>, i: int, v: ValueV)
    requires
        v matches ValueV::VerbatimString { attr, .. } && attr is None,
        valid_value(v),
        bytes_at(s, i, ser_value(v)),
    ensures
        sp_verbatim(s, i) == Ok::<(ValueV, int), ParseError>((v, i + ser_value(v).len())),
{
    let kind = v->VerbatimString_kind;
    let data = v->VerbatimString_data;
    let n = data.len() + 4;
    let w = ser_value(v);
    assert(w == seq![D_VERBATIM_STRING].add(dec_u(n)).add(crlf()).add(ser_verb_kind(kind)).add(
        seq![COLON],
    ).add(data).add(crlf()));
    lemma_bytes_at_split(
        s,
        i,
        seq![D_VERBATIM_STRING].add(dec_u(n)).add(crlf()).add(ser_verb_kind(kind)).add(
            seq![COLON],
        ).add(data),
        crlf(),
    );
    lemma_bytes_at_split(
        s,
        i,
        seq![D_VERBATIM_STRING].add(dec_u(n)).add(crlf()).add(ser_verb_kind(kind)).add(
            seq![COLON],
        ),
        data,
    );
    lemma_bytes_at_split(
        s,
        i,
        seq![D_VERBATIM_STRING].add(dec_u(n)).add(crlf()).add(ser_verb_kind(kind)),
        seq![COLON],
    );
    lemma_bytes_at_split(
        s,
        i,
        seq![D_VERBATIM_STRING].add(dec_u(n)).add(crlf()),
        ser_verb_kind(kind),
    );
    lemma_bytes_at_split(s, i, seq![D_VERBATIM_STRING].add(dec_u(n)), crlf());
    lemma_bytes_at_split(s, i, seq![D_VERBATIM_STRING], dec_u(n));
    let lstart = i + 1;
    let le = lstart + dec_u(n).len();
    let j2 = le + 2;
    let de = j2 + n;
    lemma_rt_crlf(s, le);
    lemma_rt_crlf(s, de);
    lemma_bytes_at_index(s, le, crlf());
    assert(crlf()[0] == CR);
    assert(s[le] == CR);
    assert(!is_digit(s[le]));
    lemma_rt_digits(s, lstart, n);
    assert(sp_length(s, lstart) == Ok::<(int, int), ParseError>((n as int, le)));
    lemma_bytes_at_index(s, j2, ser_verb_kind(kind));
    lemma_bytes_at_index(s, j2 + 3, seq![COLON]);
    assert(s[j2 + 3 + 0] == seq![COLON][0]);
    assert(s[j2 + 3] == COLON);
    match kind {
        VerbKind::Txt => {
            assert(ser_verb_kind(kind) == seq![0x74u8, 0x78u8, 0x74u8]);
            assert(s[j2 + 0] == 0x74 && s[j2 + 1] == 0x78 && s[j2 + 2] == 0x74);
        },
        VerbKind::Mkd => {
            assert(ser_verb_kind(kind) == seq![0x6Du8, 0x6Bu8, 0x64u8]);
            assert(s[j2 + 0] == 0x6D && s[j2 + 1] == 0x6B && s[j2 + 2] == 0x64);
        },
    }
    assert(s.subrange(j2 + 4, j2 + n) =~= data);
}


/// Every value needs at least one level of nesting.
proof fn lemma_depth_pos(v: ValueV)
    ensures
        depth_value(v) >= 1,
{
    match v {
        ValueV::Array { .. } => {},
        ValueV::BigNumber { .. } => {},
        ValueV::BlobError { .. } => {},
        ValueV::BlobString { .. } => {},
        ValueV::Boolean { .. } => {},
        ValueV::Double { .. } => {},
        ValueV::ValueMap { .. } => {},
        ValueV::Null { .. } => {},
        ValueV::Number { .. } => {},
        ValueV::ValueSet { .. } => {},
        ValueV::SimpleError { .. } => {},
        ValueV::SimpleString { .. } => {},
        ValueV::VerbatimString { .. } => {},
    }
}

/// A value's wire image is its attribute prefix followed by the image of
/// the same value without an attribute.
#[verifier::rlimit(100)]
#[verifier::spinoff_prover]
proof fn lemma_attr_decompose(v: ValueV)
    ensures
        ser_value(v) == ser_attr_opt(attr_of(v)).add(ser_value(with_attr_of(v, Option::None))),
        attr_of(with_attr_of(v, Option::None)) is None,
        with_attr_of(with_attr_of(v, Option::None), attr_of(v)) == v,
{
    assert forall|x: Seq<u8>| #[trigger] Seq::<u8>::empty().add(x) == x by {
        assert(Seq::<u8>::empty().add(x) =~= x);
    }
    match v {
        ValueV::Array { items, attr } => {},
        ValueV::BigNumber { neg, digits, attr } => {},
        ValueV::BlobError { code, msg, attr } => {},
        ValueV::BlobString { data, attr } => {},
        ValueV::Boolean { b, attr } => {},
        ValueV::Double { d, attr } => {},
        ValueV::ValueMap { pairs, attr } => {},
        ValueV::Null { attr } => {},
        ValueV::Number { n, attr } => {},
        ValueV::ValueSet { items, attr } => {},
        ValueV::SimpleError { code, msg, attr } => {},
        ValueV::SimpleString { data, attr } => {},
        ValueV::VerbatimString { kind, data, attr } => {},
    }
}

/// Stripping the attribute keeps a value well formed and within the same
/// depth bound; attribute pairs sit one level deeper than the value.
#[verifier::rlimit(100)]
#[verifier::spinoff_prover]
proof fn lemma_attr_depth_valid(v: ValueV)
    requires
        valid_value(v),
    ensures
        valid_value(with_attr_of(v, Option::None)),
        depth_value(with_attr_of(v, Option::None)) <= depth_value(v),
        attr_of(v) matches Some(ps) ==> depth_pairs(ps) < depth_value(v) && valid_pairs(ps)
            && sorted_pairs(ps) && ps.len() <= usize::MAX,
{
    crate::model::lemma_with_attr_valid(v, Option::None);
    match v {
        ValueV::Array { items, attr } => {},
        ValueV::BigNumber { neg, digits, attr } => {},
        ValueV::BlobError { code, msg, attr } => {},
        ValueV::BlobString { data, attr } => {},
        ValueV::Boolean { b, attr } => {},
        ValueV::Double { d, attr } => {},
        ValueV::ValueMap { pairs, attr } => {},
        ValueV::Null { attr } => {},
        ValueV::Number { n, attr } => {},
        ValueV::ValueSet { items, attr } => {},
        ValueV::SimpleError { code, msg, attr } => {},
        ValueV::SimpleString { data, attr } => {},
        ValueV::VerbatimString { kind, data, attr } => {},
    }
}

/// A run of values written is the same run read.
proof fn lemma_rt_items(s: Seq<u8>, i: int, d: nat, vs: Seq<ValueV>)
    requires
        valid_items(vs),
        depth_items(vs) <= d,
        bytes_at(s, i, ser_items(vs)),
    ensures
        sp_items(s, i, vs.len() as int, d) == Ok::<(Seq<ValueV>, int), ParseError>(
            (vs, i + ser_items(vs).len()),
        ),
    decreases d, 4int, vs.len(),
{
    if vs.len() == 0 {
        assert(ser_items(vs) =~= Seq::<u8>::empty());
        assert(sp_items(s, i, 0, d) == Ok::<(Seq<ValueV>, int), ParseError>(
            (Seq::<ValueV>::empty(), i),
        ));
        assert(vs =~= Seq::<ValueV>::empty());
    } else {
        let v0 = vs[0];
        let rest = vs.drop_first();
        assert(ser_items(vs) == ser_value(v0).add(ser_items(rest)));
        lemma_bytes_at_split(s, i, ser_value(v0), ser_items(rest));
        lemma_rt_value(s, i, d, v0);
        let j = i + ser_value(v0).len();
        lemma_rt_items(s, j, d, rest);
        assert(seq![v0].add(rest) =~= vs);
        assert(rest.len() as int == vs.len() as int - 1);
    }
}

/// A run of pairs written is the same run read.
#[verifier::rlimit(100)]
#[verifier::spinoff_prover]
proof fn lemma_rt_pairs(s: Seq<u8>, i: int, d: nat, ps: PairsV)
    requires
        valid_pairs(ps),
        depth_pairs(ps) <= d,
        bytes_at(s, i, ser_pairs(ps)),
    ensures
        sp_pairs(s, i, ps.len() as int, d) == Ok::<(PairsV, int), ParseError>(
            (ps, i + ser_pairs(ps).len()),
        ),
    decreases d, 4int, ps.len(),
{
    if ps.len() == 0 {
        assert(ser_pairs(ps) =~= Seq::<u8>::empty());
        assert(sp_pairs(s, i, 0, d) == Ok::<(PairsV, int), ParseError>(
            (Seq::<(ValueV, ValueV)>::empty(), i),
        ));
        assert(ps =~= Seq::<(ValueV, ValueV)>::empty());
    } else {
        let k0 = ps[0].0;
        let v0 = ps[0].1;
        let rest = ps.drop_first();
        assert(ser_pairs(ps) == ser_value(k0).add(ser_value(v0)).add(ser_pairs(rest)));
        lemma_bytes_at_split(s, i, ser_value(k0).add(ser_value(v0)), ser_pairs(rest));
        lemma_bytes_at_split(s, i, ser_value(k0), ser_value(v0));
        lemma_rt_value(s, i, d, k0);
        let j1 = i + ser_value(k0).len();
        lemma_rt_value(s, j1, d, v0);
        let j2 = j1 + ser_value(v0).len();
        lemma_rt_pairs(s, j2, d, rest);
        assert(seq![(k0, v0)].add(rest) =~= ps);
        assert((k0, v0) == ps[0]);
        assert(rest.len() as int == ps.len() as int - 1);
    }
}

/// An attribute written is the same attribute read.
proof fn lemma_rt_attr(s: Seq<u8>, i: int, d: nat, ps: PairsV)
    requires
        valid_pairs(ps),
        sorted_pairs(ps),
        ps.len() <= usize::MAX,
        depth_pairs(ps) < d,
        bytes_at(s, i, ser_attr_opt(Some(ps))),
    ensures
        sp_attr(s, i, d) == Ok::<(PairsV, int), ParseError>(
            (ps, i + ser_attr_opt(Some(ps)).len()),
        ),
    decreases d, 2int, 0int,
{
    let n = ps.len();
    let w = ser_attr_opt(Some(ps));
    assert(w == seq![D_ATTRIBUTE].add(dec_u(n)).add(crlf()).add(ser_pairs(ps)));
    lemma_bytes_at_split(s, i, seq![D_ATTRIBUTE].add(dec_u(n)).add(crlf()), ser_pairs(ps));
    lemma_bytes_at_split(s, i, seq![D_ATTRIBUTE].add(dec_u(n)), crlf());
    lemma_bytes_at_split(s, i, seq![D_ATTRIBUTE], dec_u(n));
    let lstart = i + 1;
    let le = lstart + dec_u(n).len();
    let j2 = le + 2;
    lemma_rt_crlf(s, le);
    lemma_bytes_at_index(s, le, crlf());
    assert(crlf()[0] == CR);
    assert(s[le] == CR);
    assert(!is_digit(s[le]));
    lemma_rt_digits(s, lstart, n);
    assert(sp_length(s, lstart) == Ok::<(int, int), ParseError>((n as int, le)));
    lemma_rt_pairs(s, j2, (d - 1) as nat, ps);
    lemma_canon_pairs_id(ps);
}

/// A value without an attribute written is the same value read by the
/// dispatcher.
#[verifier::rlimit(100)]
#[verifier::spinoff_prover]
proof fn lemma_rt_core(s: Seq<u8>, i: int, d: nat, v: ValueV)
    requires
        valid_value(v),
        attr_of(v) is None,
        depth_value(v) <= d,
        d >= 1,
        bytes_at(s, i, ser_value(v)),
    ensures
        sp_core(s, i, d) == Ok::<(ValueV, int), ParseError>((v, i + ser_value(v).len())),
    decreases d, 2int, 1int,
{
    let w = ser_value(v);
    lemma_bytes_at_index(s, i, w);
    match v {
        ValueV::Null { attr } => {
            assert(w[0] == D_NULL);
            assert(s[i + 0] == w[0]);
            lemma_rt_null(s, i, v);
        },
        ValueV::Boolean { b, attr } => {
            assert(w[0] == D_BOOLEAN);
            assert(s[i + 0] == w[0]);
            lemma_rt_boolean(s, i, v);
        },
        ValueV::Number { n, attr } => {
            assert(w[0] == D_NUMBER);
            assert(s[i + 0] == w[0]);
            lemma_rt_number(s, i, v);
        },
        ValueV::BigNumber { neg, digits, attr } => {
            assert(w[0] == D_BIG_NUMBER);
            assert(s[i + 0] == w[0]);
            lemma_rt_big_number(s, i, v);
        },
        ValueV::Double { d: dd, attr } => {
            assert(w[0] == D_DOUBLE);
            assert(s[i + 0] == w[0]);
            lemma_rt_double(s, i, v);
        },
        ValueV::SimpleString { data, attr } => {
            assert(w[0] == D_SIMPLE_STRING);
            assert(s[i + 0] == w[0]);
            lemma_rt_simple_string(s, i, v);
        },
        ValueV::SimpleError { code, msg, attr } => {
            assert(w[0] == D_SIMPLE_ERROR);
            assert(s[i + 0] == w[0]);
            lemma_rt_simple_error(s, i, v);
        },
        ValueV::BlobString { data, attr } => {
            assert(w[0] == D_BLOB_STRING);
            assert(s[i + 0] == w[0]);
            lemma_rt_blob_string(s, i, v);
        },
        ValueV::BlobError { code, msg, attr } => {
            assert(w[0] == D_BLOB_ERROR);
            assert(s[i + 0] == w[0]);
            lemma_rt_blob_error(s, i, v);
        },
        ValueV::VerbatimString { kind, data, attr } => {
            assert(w[0] == D_VERBATIM_STRING);
            assert(s[i + 0] == w[0]);
            lemma_rt_verbatim(s, i, v);
        },
        ValueV::Array { items, attr } => {
            let n = items.len();
            assert(w == seq![D_ARRAY].add(dec_u(n)).add(crlf()).add(ser_items(items)));
            lemma_bytes_at_split(s, i, seq![D_ARRAY].add(dec_u(n)).add(crlf()), ser_items(items));
            lemma_bytes_at_split(s, i, seq![D_ARRAY].add(dec_u(n)), crlf());
            lemma_bytes_at_split(s, i, seq![D_ARRAY], dec_u(n));
            assert(w[0] == D_ARRAY);
            assert(s[i + 0] == w[0]);
            let lstart = i + 1;
            let le = lstart + dec_u(n).len();
            let j2 = le + 2;
            lemma_rt_crlf(s, le);
            lemma_bytes_at_index(s, le, crlf());
            assert(crlf()[0] == CR);
            assert(s[le] == CR);
            assert(!is_digit(s[le]));
            lemma_rt_digits(s, lstart, n);
            assert(sp_length(s, lstart) == Ok::<(int, int), ParseError>((n as int, le)));
            lemma_rt_items(s, j2, (d - 1) as nat, items);
        },
        ValueV::ValueSet { items, attr } => {
            let n = items.len();
            assert(w == seq![D_SET].add(dec_u(n)).add(crlf()).add(ser_items(items)));
            lemma_bytes_at_split(s, i, seq![D_SET].add(dec_u(n)).add(crlf()), ser_items(items));
            lemma_bytes_at_split(s, i, seq![D_SET].add(dec_u(n)), crlf());
            lemma_bytes_at_split(s, i, seq![D_SET], dec_u(n));
            assert(w[0] == D_SET);
            assert(s[i + 0] == w[0]);
            let lstart = i + 1;
            let le = lstart + dec_u(n).len();
            let j2 = le + 2;
            lemma_rt_crlf(s, le);
            lemma_bytes_at_index(s, le, crlf());
            assert(crlf()[0] == CR);
            assert(s[le] == CR);
            assert(!is_digit(s[le]));
            lemma_rt_digits(s, lstart, n);
            assert(sp_length(s, lstart) == Ok::<(int, int), ParseError>((n as int, le)));
            lemma_rt_items(s, j2, (d - 1) as nat, items);
            lemma_canon_items_id(items);
        },
        ValueV::ValueMap { pairs, attr } => {
            let n = pairs.len();
            assert(w == seq![D_MAP].add(dec_u(n)).add(crlf()).add(ser_pairs(pairs)));
            lemma_bytes_at_split(s, i, seq![D_MAP].add(dec_u(n)).add(crlf()), ser_pairs(pairs));
            lemma_bytes_at_split(s, i, seq![D_MAP].add(dec_u(n)), crlf());
            lemma_bytes_at_split(s, i, seq![D_MAP], dec_u(n));
            assert(w[0] == D_MAP);
            assert(s[i + 0] == w[0]);
            let lstart = i + 1;
            let le = lstart + dec_u(n).len();
            let j2 = le + 2;
            lemma_rt_crlf(s, le);
            lemma_bytes_at_index(s, le, crlf());
            assert(crlf()[0] == CR);
            assert(s[le] == CR);
            assert(!is_digit(s[le]));
            lemma_rt_digits(s, lstart, n);
            assert(sp_length(s, lstart) == Ok::<(int, int), ParseError>((n as int, le)));
            lemma_rt_pairs(s, j2, (d - 1) as nat, pairs);
            lemma_canon_pairs_id(pairs);
        },
    }
}

/// A value written is the same value read, attribute included.
#[verifier::rlimit(100)]
#[verifier::spinoff_prover]
proof fn lemma_rt_value(s: Seq<u8>, i: int, d: nat, v: ValueV)
    requires
        valid_value(v),
        depth_value(v) <= d,
        bytes_at(s, i, ser_value(v)),
    ensures
        sp_value(s, i, d) == Ok::<(ValueV, int), ParseError>((v, i + ser_value(v).len())),
    decreases d, 3int, 0int,
{
    lemma_depth_pos(v);
    lemma_attr_decompose(v);
    lemma_attr_depth_valid(v);
    let core = with_attr_of(v, Option::None);
    match attr_of(v) {
        Option::None => {
            assert(core == v);
            assert(ser_attr_opt(attr_of(v)) =~= Seq::<u8>::empty());
            lemma_bytes_at_index(s, i, ser_value(v));
            lemma_rt_core_first_byte(v);
            assert(s[i + 0] == ser_value(v)[0]);
            assert(s[i] != D_ATTRIBUTE);
            lemma_rt_core(s, i, d, v);
        },
        Option::Some(ps) => {
            let aw = ser_attr_opt(Some(ps));
            lemma_bytes_at_split(s, i, aw, ser_value(core));
            lemma_bytes_at_index(s, i, aw);
            assert(aw == seq![D_ATTRIBUTE].add(dec_u(ps.len())).add(crlf()).add(ser_pairs(ps)));
            assert(aw[0] == D_ATTRIBUTE);
            assert(s[i + 0] == aw[0]);
            lemma_rt_attr(s, i, d, ps);
            let j = i + aw.len();
            lemma_rt_core(s, j, d, core);
            assert(with_attr_of(core, Some(ps)) == v);
        },
    }
}

/// The discriminator of a value without an attribute is never the attribute
/// marker.
proof fn lemma_rt_core_first_byte(v: ValueV)
    requires
        attr_of(v) is None,
    ensures
        ser_value(v).len() >= 1,
        ser_value(v)[0] != D_ATTRIBUTE,
{
    match v {
        ValueV::Null { attr } => {
            assert(ser_value(v)[0] == D_NULL);
        },
        ValueV::Boolean { b, attr } => {
            assert(ser_value(v)[0] == D_BOOLEAN);
        },
        ValueV::Number { n, attr } => {
            assert(ser_value(v)[0] == D_NUMBER);
        },
        ValueV::BigNumber { neg, digits, attr } => {
            assert(ser_value(v)[0] == D_BIG_NUMBER);
        },
        ValueV::Double { d, attr } => {
            assert(ser_value(v)[0] == D_DOUBLE);
        },
        ValueV::SimpleString { data, attr } => {
            assert(ser_value(v)[0] == D_SIMPLE_STRING);
        },
        ValueV::SimpleError { code, msg, attr } => {
            assert(ser_value(v)[0] == D_SIMPLE_ERROR);
        },
        ValueV::BlobString { data, attr } => {
            assert(ser_value(v)[0] == D_BLOB_STRING);
        },
        ValueV::BlobError { code, msg, attr } => {
            assert(ser_value(v)[0] == D_BLOB_ERROR);
        },
        ValueV::VerbatimString { kind, data, attr } => {
            assert(ser_value(v)[0] == D_VERBATIM_STRING);
        },
        ValueV::Array { items, attr } => {
            assert(ser_value(v)[0] == D_ARRAY);
        },
        ValueV::ValueSet { items, attr } => {
            assert(ser_value(v)[0] == D_SET);
        },
        ValueV::ValueMap { pairs, attr } => {
            assert(ser_value(v)[0] == D_MAP);
        },
    }
}

/// The round-trip law: parsing the wire image of a well-formed value that
/// nests within the recursion limit yields that very value and consumes the
/// whole image, leaving nothing.
pub proof fn lemma_round_trip(v: ValueV)
    requires
        valid_value(v),
        depth_value(v) <= MAX_DEPTH as nat,
    ensures
        sp_value(ser_value(v), 0, MAX_DEPTH as nat) == Ok::<(ValueV, int), ParseError>(
            (v, ser_value(v).len() as int),
        ),
{
    let w = ser_value(v);
    assert(w.subrange(0, w.len() as int) =~= w);
    lemma_rt_value(w, 0, MAX_DEPTH as nat, v);
}


/// Serialization is injective on well-formed values: equal wire images mean
/// equal values.
pub proof fn lemma_ser_injective(a: ValueV, b: ValueV)
    requires
        valid_value(a),
        valid_value(b),
        ser_value(a) == ser_value(b),
    ensures
        a == b,
{
    let da = depth_value(a);
    let db = depth_value(b);
    let d = if da >= db {
        da
    } else {
        db
    };
    let w = ser_value(a);
    assert(w.subrange(0, w.len() as int) =~= w);
    lemma_rt_value(w, 0, d, a);
    lemma_rt_value(w, 0, d, b);
}

/// Inserting keeps the element inserted and every element whose image
/// differs from it.
#[verifier::rlimit(100)]
#[verifier::spinoff_prover]
proof fn lemma_insert_item_contains(s: Seq<ValueV>, v: ValueV)
    ensures
        crate::canon::insert_item(s, v).contains(v),
        forall|x: ValueV|
            s.contains(x) && lex_cmp(ser_value(x), ser_value(v)) != 0
                ==> crate::canon::insert_item(s, v).contains(x),
    decreases s.len(),
{
    let r = crate::canon::insert_item(s, v);
    if s.len() == 0 {
        assert(r =~= seq![v]);
        assert(r[0] == v);
    } else {
        let c = lex_cmp(ser_value(v), ser_value(s[0]));
        if c == -1 {
            assert(r == seq![v].add(s));
            assert(r[0] == v);
            assert forall|x: ValueV|
                s.contains(x) && lex_cmp(ser_value(x), ser_value(v)) != 0 implies r.contains(
                x,
            ) by {
                let w = choose|w: int| 0 <= w < s.len() && s[w] == x;
                assert(r[w + 1] == x);
            }
        } else if c == 0 {
            lemma_lex_cmp_eq_sym(ser_value(v), ser_value(s[0]));
            assert(r == seq![v].add(s.drop_first()));
            assert(r[0] == v);
            assert forall|x: ValueV|
                s.contains(x) && lex_cmp(ser_value(x), ser_value(v)) != 0 implies r.contains(
                x,
            ) by {
                let w = choose|w: int| 0 <= w < s.len() && s[w] == x;
                assert(w != 0) by {
                    if w == 0 {
                        crate::lexord::lemma_lex_cmp_eq(ser_value(x), ser_value(v));
                    }
                }
                assert(s.drop_first()[w - 1] == x);
                assert(r[w] == x);
            }
        } else {
            lemma_insert_item_contains(s.drop_first(), v);
            let r1 = crate::canon::insert_item(s.drop_first(), v);
            assert(r == seq![s[0]].add(r1));
            assert(r.contains(v)) by {
                let w = choose|w: int| 0 <= w < r1.len() && r1[w] == v;
                assert(r[w + 1] == v);
            }
            assert forall|x: ValueV|
                s.contains(x) && lex_cmp(ser_value(x), ser_value(v)) != 0 implies r.contains(
                x,
            ) by {
                let w = choose|w: int| 0 <= w < s.len() && s[w] == x;
                if w == 0 {
                    assert(r[0] == x);
                } else {
                    assert(s.drop_first()[w - 1] == x);
                    assert(s.drop_first().contains(x));
                    let u = choose|u: int| 0 <= u < r1.len() && r1[u] == x;
                    assert(r[u + 1] == x);
                }
            }
        }
    }
}

/// Equal images both ways: a tiny helper for the symmetric case.
proof fn lemma_lex_cmp_eq_sym(a: Seq<u8>, b: Seq<u8>)
    requires
        lex_cmp(a, b) == 0,
    ensures
        a == b,
{
    crate::lexord::lemma_lex_cmp_eq(a, b);
}

/// Canonicalization neither loses nor invents elements.
#[verifier::rlimit(100)]
#[verifier::spinoff_prover]
proof fn lemma_canon_items_contains(s: Seq<ValueV>)
    requires
        valid_items(s),
    ensures
        forall|x: ValueV| canon_items(s).contains(x) <==> s.contains(x),
    decreases s.len(),
{
    crate::model::lemma_valid_items_index(s);
    if s.len() == 0 {
    } else {
        let s0 = s.drop_last();
        let last = s.last();
        assert(valid_items(s0)) by {
            crate::model::lemma_valid_items_index(s0);
            assert forall|i: int| 0 <= i < s0.len() implies valid_value(#[trigger] s0[i]) by {
                assert(s0[i] == s[i]);
            }
        }
        lemma_canon_items_contains(s0);
        crate::model::lemma_valid_items_index(s0);
        crate::canon::lemma_canon_items_props(s0);
        lemma_insert_item_contains(canon_items(s0), last);
        crate::canon::lemma_insert_item_props(canon_items(s0), last);
        let r = canon_items(s);
        assert(r == crate::canon::insert_item(canon_items(s0), last));
        assert forall|x: ValueV| r.contains(x) implies s.contains(x) by {
            let w = choose|w: int| 0 <= w < r.len() && r[w] == x;
            assert(r[w] == last || canon_items(s0).contains(r[w]));
            if x == last {
                assert(s[s.len() - 1] == x);
            } else {
                assert(canon_items(s0).contains(x));
                assert(s0.contains(x));
                let u = choose|u: int| 0 <= u < s0.len() && s0[u] == x;
                assert(s[u] == x);
            }
        }
        assert forall|x: ValueV| s.contains(x) implies r.contains(x) by {
            let w = choose|w: int| 0 <= w < s.len() && s[w] == x;
            if w == s.len() - 1 {
                assert(r.contains(last));
            } else {
                assert(s0[w] == x);
                assert(s0.contains(x));
                assert(canon_items(s0).contains(x));
                if lex_cmp(ser_value(x), ser_value(last)) != 0 {
                    assert(r.contains(x));
                } else {
                    assert(valid_value(x));
                    assert(valid_value(last)) by {
                        assert(s[s.len() - 1] == last);
                    }
                    lemma_lex_cmp_eq_sym(ser_value(x), ser_value(last));
                    lemma_ser_injective(x, last);
                    assert(r.contains(last));
                }
            }
        }
    }
}

/// Two sorted runs with the same elements are the same run.
#[verifier::rlimit(100)]
#[verifier::spinoff_prover]
proof fn lemma_sorted_unique(s1: Seq<ValueV>, s2: Seq<ValueV>)
    requires
        sorted_items(s1),
        sorted_items(s2),
        forall|x: ValueV| s1.contains(x) <==> s2.contains(x),
    ensures
        s1 == s2,
    decreases s1.len(),
{
    if s1.len() == 0 {
        if s2.len() > 0 {
            assert(s2.contains(s2[0]));
            assert(s1.contains(s2[0]));
        }
        assert(s1 =~= s2);
    } else {
        assert(s1.contains(s1[0]));
        assert(s2.contains(s1[0]));
        let k = choose|k: int| 0 <= k < s2.len() && s2[k] == s1[0];
        assert(s1[0] == s2[0]) by {
            if k > 0 {
                assert(lex_cmp(ser_value(s2[0]), ser_value(s2[k])) == -1);
                assert(s2.contains(s2[0]));
                assert(s1.contains(s2[0]));
                let w = choose|w: int| 0 <= w < s1.len() && s1[w] == s2[0];
                if w == 0 {
                    crate::lexord::lemma_lex_cmp_eq(ser_value(s2[0]), ser_value(s2[k]));
                } else {
                    assert(lex_cmp(ser_value(s1[0]), ser_value(s1[w])) == -1);
                    crate::lexord::lemma_lex_cmp_trans(
                        ser_value(s2[0]),
                        ser_value(s2[k]),
                        ser_value(s1[w]),
                    );
                    crate::lexord::lemma_lex_cmp_eq(ser_value(s2[0]), ser_value(s1[w]));
                }
            }
        }
        let t1 = s1.drop_first();
        let t2 = s2.drop_first();
        assert(sorted_items(t1)) by {
            assert forall|i: int, j: int| #![trigger t1[i], t1[j]]
                0 <= i < j < t1.len() implies lex_cmp(ser_value(t1[i]), ser_value(t1[j]))
                == -1 by {
                assert(t1[i] == s1[i + 1] && t1[j] == s1[j + 1]);
            }
        }
        assert(sorted_items(t2)) by {
            assert forall|i: int, j: int| #![trigger t2[i], t2[j]]
                0 <= i < j < t2.len() implies lex_cmp(ser_value(t2[i]), ser_value(t2[j]))
                == -1 by {
                assert(t2[i] == s2[i + 1] && t2[j] == s2[j + 1]);
            }
        }
        assert forall|x: ValueV| t1.contains(x) implies t2.contains(x) by {
            let w = choose|w: int| 0 <= w < t1.len() && t1[w] == x;
            assert(s1[w + 1] == x);
            assert(s1.contains(x));
            assert(s2.contains(x));
            let u = choose|u: int| 0 <= u < s2.len() && s2[u] == x;
            assert(u != 0) by {
                if u == 0 {
                    assert(x == s1[0]);
                    assert(lex_cmp(ser_value(s1[0]), ser_value(s1[w + 1])) == -1);
                    crate::lexord::lemma_lex_cmp_eq(ser_value(s1[0]), ser_value(s1[w + 1]));
                }
            }
            assert(t2[u - 1] == x);
        }
        assert forall|x: ValueV| t2.contains(x) implies t1.contains(x) by {
            let w = choose|w: int| 0 <= w < t2.len() && t2[w] == x;
            assert(s2[w + 1] == x);
            assert(s2.contains(x));
            assert(s1.contains(x));
            let u = choose|u: int| 0 <= u < s1.len() && s1[u] == x;
            assert(u != 0) by {
                if u == 0 {
                    assert(x == s2[0]);
                    assert(lex_cmp(ser_value(s2[0]), ser_value(s2[w + 1])) == -1);
                    crate::lexord::lemma_lex_cmp_eq(ser_value(s2[0]), ser_value(s2[w + 1]));
                }
            }
            assert(t1[u - 1] == x);
        }
        lemma_sorted_unique(t1, t2);
        assert(s1.len() == s2.len());
        assert forall|i: int| 0 <= i < s1.len() implies s1[i] == s2[i] by {
            if i > 0 {
                assert(t1[i - 1] == t2[i - 1]);
                assert(t1[i - 1] == s1[i]);
                assert(t2[i - 1] == s2[i]);
            }
        }
        assert(s1 =~= s2);
    }
}

/// Serialization of sets does not depend on insertion order: runs with the
/// same elements canonicalize to the same run, so a set serializes to the
/// same bytes however its contents arrived.
pub proof fn lemma_set_order_independent(s1: Seq<ValueV>, s2: Seq<ValueV>)
    requires
        valid_items(s1),
        valid_items(s2),
        forall|x: ValueV| s1.contains(x) <==> s2.contains(x),
    ensures
        canon_items(s1) == canon_items(s2),
{
    crate::canon::lemma_canon_items_props(s1);
    crate::canon::lemma_canon_items_props(s2);
    lemma_canon_items_contains(s1);
    lemma_canon_items_contains(s2);
    assert forall|x: ValueV|
        canon_items(s1).contains(x) <==> canon_items(s2).contains(x) by {
        assert(canon_items(s1).contains(x) <==> s1.contains(x));
        assert(s1.contains(x) <==> s2.contains(x));
        assert(canon_items(s2).contains(x) <==> s2.contains(x));
    }
    lemma_sorted_unique(canon_items(s1), canon_items(s2));
}


/// No two pairs of the run share a key image.
pub open spec fn distinct_keys(ps: PairsV) -> bool {
    forall|i: int, j: int| #![trigger ps[i], ps[j]]
        0 <= i < j < ps.len() ==> lex_cmp(ser_value(ps[i].0), ser_value(ps[j].0)) != 0
}

/// Inserting keeps the pair inserted and every pair whose key image differs
/// from its key image.
#[verifier::rlimit(100)]
#[verifier::spinoff_prover]
proof fn lemma_insert_pair_contains(ps: PairsV, p: (ValueV, ValueV))
    ensures
        crate::canon::insert_pair(ps, p).contains(p),
        forall|x: (ValueV, ValueV)|
            ps.contains(x) && lex_cmp(ser_value(x.0), ser_value(p.0)) != 0
                ==> crate::canon::insert_pair(ps, p).contains(x),
    decreases ps.len(),
{
    let r = crate::canon::insert_pair(ps, p);
    if ps.len() == 0 {
        assert(r =~= seq![p]);
        assert(r[0] == p);
    } else {
        let c = lex_cmp(ser_value(p.0), ser_value(ps[0].0));
        if c == -1 {
            assert(r == seq![p].add(ps));
            assert(r[0] == p);
            assert forall|x: (ValueV, ValueV)|
                ps.contains(x) && lex_cmp(ser_value(x.0), ser_value(p.0)) != 0 implies r
                .contains(x) by {
                let w = choose|w: int| 0 <= w < ps.len() && ps[w] == x;
                assert(r[w + 1] == x);
            }
        } else if c == 0 {
            assert(r == seq![p].add(ps.drop_first()));
            assert(r[0] == p);
            assert forall|x: (ValueV, ValueV)|
                ps.contains(x) && lex_cmp(ser_value(x.0), ser_value(p.0)) != 0 implies r
                .contains(x) by {
                let w = choose|w: int| 0 <= w < ps.len() && ps[w] == x;
                assert(w != 0) by {
                    if w == 0 {
                        crate::lexord::lemma_lex_cmp_eq(ser_value(x.0), ser_value(p.0));
                        crate::lexord::lemma_lex_cmp_eq(ser_value(p.0), ser_value(ps[0].0));
                    }
                }
                assert(ps.drop_first()[w - 1] == x);
                assert(r[w] == x);
            }
        } else {
            lemma_insert_pair_contains(ps.drop_first(), p);
            let r1 = crate::canon::insert_pair(ps.drop_first(), p);
            assert(r == seq![ps[0]].add(r1));
            assert(r.contains(p)) by {
                let w = choose|w: int| 0 <= w < r1.len() && r1[w] == p;
                assert(r[w + 1] == p);
            }
            assert forall|x: (ValueV, ValueV)|
                ps.contains(x) && lex_cmp(ser_value(x.0), ser_value(p.0)) != 0 implies r
                .contains(x) by {
                let w = choose|w: int| 0 <= w < ps.len() && ps[w] == x;
                if w == 0 {
                    assert(r[0] == x);
                } else {
                    assert(ps.drop_first()[w - 1] == x);
                    assert(ps.drop_first().contains(x));
                    let u = choose|u: int| 0 <= u < r1.len() && r1[u] == x;
                    assert(r[u + 1] == x);
                }
            }
        }
    }
}

/// With distinct keys, canonicalization neither loses nor invents pairs.
#[verifier::rlimit(100)]
#[verifier::spinoff_prover]
proof fn lemma_canon_pairs_contains(ps: PairsV)
    requires
        valid_pairs(ps),
        distinct_keys(ps),
    ensures
        forall|x: (ValueV, ValueV)| canon_pairs(ps).contains(x) <==> ps.contains(x),
    decreases ps.len(),
{
    if ps.len() == 0 {
    } else {
        let s0 = ps.drop_last();
        let last = ps.last();
        assert(valid_pairs(s0)) by {
            crate::model::lemma_valid_pairs_index(ps);
            crate::model::lemma_valid_pairs_index(s0);
            assert forall|i: int|
                0 <= i < s0.len() implies valid_value((#[trigger] s0[i]).0) && valid_value(
                s0[i].1,
            ) by {
                assert(s0[i] == ps[i]);
                assert(valid_value(ps[i].0) && valid_value(ps[i].1));
            }
        }
        crate::canon::lemma_canon_pairs_props(s0);
        assert(distinct_keys(s0)) by {
            assert forall|i: int, j: int| #![trigger s0[i], s0[j]]
                0 <= i < j < s0.len() implies lex_cmp(ser_value(s0[i].0), ser_value(s0[j].0))
                != 0 by {
                assert(s0[i] == ps[i] && s0[j] == ps[j]);
            }
        }
        lemma_canon_pairs_contains(s0);
        lemma_insert_pair_contains(canon_pairs(s0), last);
        crate::canon::lemma_insert_pair_props(canon_pairs(s0), last);
        let r = canon_pairs(ps);
        assert(r == crate::canon::insert_pair(canon_pairs(s0), last));
        assert forall|x: (ValueV, ValueV)| r.contains(x) implies ps.contains(x) by {
            let w = choose|w: int| 0 <= w < r.len() && r[w] == x;
            assert(r[w] == last || canon_pairs(s0).contains(r[w]));
            if x == last {
                assert(ps[ps.len() - 1] == x);
            } else {
                assert(canon_pairs(s0).contains(x));
                assert(s0.contains(x));
                let u = choose|u: int| 0 <= u < s0.len() && s0[u] == x;
                assert(ps[u] == x);
            }
        }
        assert forall|x: (ValueV, ValueV)| ps.contains(x) implies r.contains(x) by {
            let w = choose|w: int| 0 <= w < ps.len() && ps[w] == x;
            if w == ps.len() - 1 {
                assert(r.contains(last));
            } else {
                assert(s0[w] == x);
                assert(s0.contains(x));
                assert(canon_pairs(s0).contains(x));
                assert(lex_cmp(ser_value(x.0), ser_value(last.0)) != 0) by {
                    assert(ps[w] == x && ps[ps.len() - 1] == last);
                }
                assert(r.contains(x));
            }
        }
    }
}

/// Two key-sorted runs with the same pairs are the same run.
#[verifier::rlimit(100)]
#[verifier::spinoff_prover]
proof fn lemma_sorted_pairs_unique(s1: PairsV, s2: PairsV)
    requires
        sorted_pairs(s1),
        sorted_pairs(s2),
        forall|x: (ValueV, ValueV)| s1.contains(x) <==> s2.contains(x),
    ensures
        s1 == s2,
    decreases s1.len(),
{
    if s1.len() == 0 {
        if s2.len() > 0 {
            assert(s2.contains(s2[0]));
            assert(s1.contains(s2[0]));
        }
        assert(s1 =~= s2);
    } else {
        assert(s1.contains(s1[0]));
        assert(s2.contains(s1[0]));
        let k = choose|k: int| 0 <= k < s2.len() && s2[k] == s1[0];
        assert(s1[0] == s2[0]) by {
            if k > 0 {
                assert(lex_cmp(ser_value(s2[0].0), ser_value(s2[k].0)) == -1);
                assert(s2.contains(s2[0]));
                assert(s1.contains(s2[0]));
                let w = choose|w: int| 0 <= w < s1.len() && s1[w] == s2[0];
                if w == 0 {
                    crate::lexord::lemma_lex_cmp_eq(ser_value(s2[0].0), ser_value(s2[k].0));
                } else {
                    assert(lex_cmp(ser_value(s1[0].0), ser_value(s1[w].0)) == -1);
                    crate::lexord::lemma_lex_cmp_trans(
                        ser_value(s2[0].0),
                        ser_value(s2[k].0),
                        ser_value(s1[w].0),
                    );
                    crate::lexord::lemma_lex_cmp_eq(ser_value(s2[0].0), ser_value(s1[w].0));
                }
            }
        }
        let t1 = s1.drop_first();
        let t2 = s2.drop_first();
        assert(sorted_pairs(t1)) by {
            assert forall|i: int, j: int| #![trigger t1[i], t1[j]]
                0 <= i < j < t1.len() implies lex_cmp(ser_value(t1[i].0), ser_value(t1[j].0))
                == -1 by {
                assert(t1[i] == s1[i + 1] && t1[j] == s1[j + 1]);
            }
        }
        assert(sorted_pairs(t2)) by {
            assert forall|i: int, j: int| #![trigger t2[i], t2[j]]
                0 <= i < j < t2.len() implies lex_cmp(ser_value(t2[i].0), ser_value(t2[j].0))
                == -1 by {
                assert(t2[i] == s2[i + 1] && t2[j] == s2[j + 1]);
            }
        }
        assert forall|x: (ValueV, ValueV)| t1.contains(x) implies t2.contains(x) by {
            let w = choose|w: int| 0 <= w < t1.len() && t1[w] == x;
            assert(s1[w + 1] == x);
            assert(s1.contains(x));
            assert(s2.contains(x));
            let u = choose|u: int| 0 <= u < s2.len() && s2[u] == x;
            assert(u != 0) by {
                if u == 0 {
                    assert(x == s1[0]);
                    assert(lex_cmp(ser_value(s1[0].0), ser_value(s1[w + 1].0)) == -1);
                    crate::lexord::lemma_lex_cmp_eq(
                        ser_value(s1[0].0),
                        ser_value(s1[w + 1].0),
                    );
                }
            }
            assert(t2[u - 1] == x);
        }
        assert forall|x: (ValueV, ValueV)| t2.contains(x) implies t1.contains(x) by {
            let w = choose|w: int| 0 <= w < t2.len() && t2[w] == x;
            assert(s2[w + 1] == x);
            assert(s2.contains(x));
            assert(s1.contains(x));
            let u = choose|u: int| 0 <= u < s1.len() && s1[u] == x;
            assert(u != 0) by {
                if u == 0 {
                    assert(x == s2[0]);
                    assert(lex_cmp(ser_value(s2[0].0), ser_value(s2[w + 1].0)) == -1);
                    crate::lexord::lemma_lex_cmp_eq(
                        ser_value(s2[0].0),
                        ser_value(s2[w + 1].0),
                    );
                }
            }
            assert(t1[u - 1] == x);
        }
        lemma_sorted_pairs_unique(t1, t2);
        assert(s1.len() == s2.len());
        assert forall|i: int| 0 <= i < s1.len() implies s1[i] == s2[i] by {
            if i > 0 {
                assert(t1[i - 1] == t2[i - 1]);
                assert(t1[i - 1] == s1[i]);
                assert(t2[i - 1] == s2[i]);
            }
        }
        assert(s1 =~= s2);
    }
}

/// Serialization of maps does not depend on insertion order: two runs of
/// pairs with distinct keys and the same pairs canonicalize to the same run,
/// so a map serializes to the same bytes however its pairs arrived.  With a
/// repeated key the pair seen last wins, so there the order does matter.
pub proof fn lemma_map_order_independent(ps1: PairsV, ps2: PairsV)
    requires
        valid_pairs(ps1),
        valid_pairs(ps2),
        distinct_keys(ps1),
        distinct_keys(ps2),
        forall|x: (ValueV, ValueV)| ps1.contains(x) <==> ps2.contains(x),
    ensures
        canon_pairs(ps1) == canon_pairs(ps2),
{
    crate::canon::lemma_canon_pairs_props(ps1);
    crate::canon::lemma_canon_pairs_props(ps2);
    lemma_canon_pairs_contains(ps1);
    lemma_canon_pairs_contains(ps2);
    assert forall|x: (ValueV, ValueV)|
        canon_pairs(ps1).contains(x) <==> canon_pairs(ps2).contains(x) by {
        assert(canon_pairs(ps1).contains(x) <==> ps1.contains(x));
        assert(ps1.contains(x) <==> ps2.contains(x));
        assert(canon_pairs(ps2).contains(x) <==> ps2.contains(x));
    }
    lemma_sorted_pairs_unique(canon_pairs(ps1), canon_pairs(ps2));
}

} // verus!
