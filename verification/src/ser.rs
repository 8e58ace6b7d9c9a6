//! The executable serializer.
//!
//! `Value::serialize` walks the value tree depth first and writes each
//! node's attribute prefix, discriminator, payload and delimiter; the result
//! is proved equal to the wire image `ser_value` of the value's model.

use vstd::prelude::*;

use crate::digits::{fmt_i64, fmt_u64};
use crate::model::{
    crlf, ser_attr_opt, ser_items, ser_pairs, ser_value, valid_attr_opt, valid_items,
    valid_pairs, valid_value, lemma_valid_items_index, lemma_valid_pairs_index, ValueV, CR, LF,
    SP, MINUS, DOT, COLON, D_ARRAY, D_ATTRIBUTE, D_BIG_NUMBER, D_BLOB_ERROR, D_BLOB_STRING,
    D_BOOLEAN, D_DOUBLE, D_MAP, D_NULL, D_NUMBER, D_SET, D_SIMPLE_ERROR, D_SIMPLE_STRING,
    D_VERBATIM_STRING,
};
use crate::value::{
    lemma_view_items, lemma_view_pairs, view_attr_opt, view_items, view_pairs, view_value, Array, Attribute,
    BigNumber, BlobError, BlobString, Boolean, Double, Null, Number, SimpleError, SimpleString,
    Value, ValueMap, ValueSet, VerbatimString,
};

verus! {



/// Serialization distributes over concatenation of element runs.
pub proof fn lemma_ser_items_concat(a: Seq<ValueV>, b: Seq<ValueV>)
    ensures
        ser_items(a.add(b)) == ser_items(a).add(ser_items(b)),
    decreases a,
{
    if a.len() == 0 {
        assert(a.add(b) =~= b);
        assert(ser_items(a) =~= Seq::<u8>::empty());
        assert(ser_items(a).add(ser_items(b)) =~= ser_items(b));
    } else {
        lemma_ser_items_concat(a.drop_first(), b);
        assert(a.add(b).drop_first() =~= a.drop_first().add(b));
        assert(a.add(b)[0] == a[0]);
        assert(ser_items(a.add(b)) =~= ser_items(a).add(ser_items(b)));
    }
}

/// Serialization distributes over concatenation of pair runs.
pub proof fn lemma_ser_pairs_concat(a: Seq<(ValueV, ValueV)>, b: Seq<(ValueV, ValueV)>)
    ensures
        ser_pairs(a.add(b)) == ser_pairs(a).add(ser_pairs(b)),
    decreases a,
{
    if a.len() == 0 {
        assert(a.add(b) =~= b);
        assert(ser_pairs(a) =~= Seq::<u8>::empty());
        assert(ser_pairs(a).add(ser_pairs(b)) =~= ser_pairs(b));
    } else {
        lemma_ser_pairs_concat(a.drop_first(), b);
        assert(a.add(b).drop_first() =~= a.drop_first().add(b));
        assert(a.add(b)[0] == a[0]);
        assert(ser_pairs(a.add(b)) =~= ser_pairs(a).add(ser_pairs(b)));
    }
}

/// Appends all bytes of `src` to `out`.
#[verifier::rlimit(50)]
fn write_bytes(src: &Vec<u8>, out: &mut Vec<u8>)
    ensures
        final(out)@ == old(out)@.add(src@),
{
    let ghost base = out@;
    let mut i: usize = 0;
    while i < src.len()
        invariant
            0 <= i <= src@.len(),
            out@ =~= base.add(src@.take(i as int)),
        decreases src@.len() - i,
    {
        out.push(src[i]);
        assert(src@.take(i + 1) =~= src@.take(i as int).push(src@[i as int]));
        i = i + 1;
    }
    assert(src@.take(src@.len() as int) =~= src@);
}

#[verifier::rlimit(50)]
fn write_crlf(out: &mut Vec<u8>)
    ensures
        final(out)@ == old(out)@.add(crlf()),
{
    out.push(CR);
    out.push(LF);
    assert(out@ =~= old(out)@.add(crlf()));
}

/// Writes the attribute prefix if one is present.
#[verifier::rlimit(50)]
fn write_attr_opt(attr: &Option<Attribute>, out: &mut Vec<u8>)
    requires
        valid_attr_opt(crate::value::view_attr_opt(*attr)),
    ensures
        final(out)@ == old(out)@.add(ser_attr_opt(crate::value::view_attr_opt(*attr))),
    decreases *attr,
{
    match attr {
        Option::None => {
            assert(out@ =~= old(out)@.add(ser_attr_opt(
                crate::value::view_attr_opt(*attr),
            )));
        },
        Option::Some(a) => {
            let ghost base = out@;
            let ghost ps = view_pairs(a.val@);
            proof {
                lemma_view_pairs(a.val@);
            }
            out.push(D_ATTRIBUTE);
            let count = fmt_u64(a.val.len() as u64);
            write_bytes(&count, out);
            write_crlf(out);
            write_pairs(&a.val, out);
            assert(out@ =~= base.add(
                seq![D_ATTRIBUTE].add(crate::digits::dec_u(ps.len())).add(crlf()).add(
                    ser_pairs(ps),
                ),
            ));
        },
    }
}

/// Writes every element of a run in order.
#[verifier::rlimit(50)]
fn write_items(items: &Vec<Value>, out: &mut Vec<u8>)
    requires
        valid_items(view_items(items@)),
    ensures
        final(out)@ == old(out)@.add(ser_items(view_items(items@))),
    decreases *items,
{
    let ghost base = out@;
    let ghost vs = view_items(items@);
    proof {
        lemma_view_items(items@);
        lemma_valid_items_index(vs);
    }
    let mut k: usize = 0;
    while k < items.len()
        invariant
            0 <= k <= items@.len(),
            vs == view_items(items@),
            vs.len() == items@.len(),
            forall|i: int| 0 <= i < items@.len() ==> vs[i] == view_value(#[trigger] items@[i]),
            forall|i: int| 0 <= i < vs.len() ==> valid_value(#[trigger] vs[i]),
            out@ =~= base.add(ser_items(vs.take(k as int))),
        decreases items@.len() - k,
    {
        let ghost pre = out@;
        serialize_value(&items[k], out);
        proof {
            assert(vs[k as int] == view_value(items@[k as int]));
            lemma_ser_items_concat(vs.take(k as int), seq![vs[k as int]]);
            assert(vs.take(k + 1) =~= vs.take(k as int).add(seq![vs[k as int]]));
            assert(seq![vs[k as int]].drop_first() =~= Seq::<ValueV>::empty());
            assert(ser_items(Seq::<ValueV>::empty()) =~= Seq::<u8>::empty());
            assert(ser_items(seq![vs[k as int]]) =~= ser_value(vs[k as int]));
            assert(out@ =~= base.add(ser_items(vs.take(k + 1))));
        }
        k = k + 1;
    }
    assert(vs.take(vs.len() as int) =~= vs);
}

/// Writes every key/value pair of a run in order.
#[verifier::rlimit(50)]
fn write_pairs(pairs: &Vec<(Value, Value)>, out: &mut Vec<u8>)
    requires
        valid_pairs(view_pairs(pairs@)),
    ensures
        final(out)@ == old(out)@.add(ser_pairs(view_pairs(pairs@))),
    decreases *pairs,
{
    let ghost base = out@;
    let ghost ps = view_pairs(pairs@);
    proof {
        lemma_view_pairs(pairs@);
        lemma_valid_pairs_index(ps);
    }
    let mut k: usize = 0;
    while k < pairs.len()
        invariant
            0 <= k <= pairs@.len(),
            ps == view_pairs(pairs@),
            ps.len() == pairs@.len(),
            forall|i: int|
                0 <= i < pairs@.len() ==> ps[i] == (
                    view_value((#[trigger] pairs@[i]).0),
                    view_value(pairs@[i].1),
                ),
            forall|i: int|
                0 <= i < ps.len() ==> valid_value((#[trigger] ps[i]).0) && valid_value(ps[i].1),
            out@ =~= base.add(ser_pairs(ps.take(k as int))),
        decreases pairs@.len() - k,
    {
        serialize_value(&pairs[k].0, out);
        serialize_value(&pairs[k].1, out);
        proof {
            assert(ps[k as int] == (view_value(pairs@[k as int].0), view_value(
                pairs@[k as int].1,
            )));
            lemma_ser_pairs_concat(ps.take(k as int), seq![ps[k as int]]);
            assert(ps.take(k + 1) =~= ps.take(k as int).add(seq![ps[k as int]]));
            assert(seq![ps[k as int]].drop_first() =~= Seq::<(ValueV, ValueV)>::empty());
            assert(ser_pairs(Seq::<(ValueV, ValueV)>::empty()) =~= Seq::<u8>::empty());
            assert(ser_pairs(seq![ps[k as int]]) =~= ser_value(ps[k as int].0).add(
                ser_value(ps[k as int].1),
            ));
            assert(out@ =~= base.add(ser_pairs(ps.take(k + 1))));
        }
        k = k + 1;
    }
    assert(ps.take(ps.len() as int) =~= ps);
}

/// Writes the wire image of one value, children included.
#[verifier::rlimit(50)]
pub fn serialize_value(v: &Value, out: &mut Vec<u8>)
    requires
        valid_value(v@),
    ensures
        final(out)@ == old(out)@.add(ser_value(v@)),
    decreases *v,
{
    match v {
        Value::Null(x) => write_null(x, out),
        Value::Boolean(x) => write_boolean(x, out),
        Value::Number(x) => write_number(x, out),
        Value::BigNumber(x) => write_big_number(x, out),
        Value::Double(x) => write_double(x, out),
        Value::SimpleString(x) => write_simple_string(x, out),
        Value::SimpleError(x) => write_simple_error(x, out),
        Value::BlobString(x) => write_blob_string(x, out),
        Value::BlobError(x) => write_blob_error(x, out),
        Value::VerbatimString(x) => write_verbatim_string(x, out),
        Value::Array(x) => write_array(x, out),
        Value::ValueSet(x) => write_set(x, out),
        Value::ValueMap(x) => write_map(x, out),
    }
}

#[verifier::rlimit(50)]
fn write_null(x: &Null, out: &mut Vec<u8>)
    requires
        valid_value(x@),
    ensures
        final(out)@ == old(out)@.add(ser_value(x@)),
    decreases *x,
{
    let ghost base = out@;
    write_attr_opt(&x.attr, out);
    out.push(D_NULL);
    write_crlf(out);
    proof {
        let a = view_attr_opt(x.attr);
        assert(ser_value(x@) == ser_attr_opt(a).add(seq![D_NULL, CR, LF]));
        assert(out@ =~= base.add(ser_attr_opt(a)).add(seq![D_NULL]).add(crlf()));
        assert(base.add(ser_attr_opt(a)).add(seq![D_NULL]).add(crlf()) =~= base.add(
            ser_attr_opt(a).add(seq![D_NULL, CR, LF]),
        ));
    }
}

#[verifier::rlimit(50)]
fn write_boolean(x: &Boolean, out: &mut Vec<u8>)
    requires
        valid_value(x@),
    ensures
        final(out)@ == old(out)@.add(ser_value(x@)),
    decreases *x,
{
    let ghost base = out@;
    write_attr_opt(&x.attr, out);
    out.push(D_BOOLEAN);
    out.push(if x.val {
        0x74
    } else {
        0x66
    });
    write_crlf(out);
    assert(out@ =~= base.add(ser_value(x@)));
}

#[verifier::rlimit(50)]
fn write_number(x: &Number, out: &mut Vec<u8>)
    requires
        valid_value(x@),
    ensures
        final(out)@ == old(out)@.add(ser_value(x@)),
    decreases *x,
{
    let ghost base = out@;
    write_attr_opt(&x.attr, out);
    out.push(D_NUMBER);
    let digits = fmt_i64(x.val);
    write_bytes(&digits, out);
    write_crlf(out);
    assert(out@ =~= base.add(ser_value(x@)));
}

#[verifier::rlimit(50)]
fn write_big_number(x: &BigNumber, out: &mut Vec<u8>)
    requires
        valid_value(x@),
    ensures
        final(out)@ == old(out)@.add(ser_value(x@)),
    decreases *x,
{
    let ghost base = out@;
    write_attr_opt(&x.attr, out);
    out.push(D_BIG_NUMBER);
    if x.neg {
        out.push(MINUS);
    }
    write_bytes(&x.digits, out);
    write_crlf(out);
    assert(out@ =~= base.add(ser_value(x@)));
}

#[verifier::rlimit(50)]
fn write_double(x: &Double, out: &mut Vec<u8>)
    requires
        valid_value(x@),
    ensures
        final(out)@ == old(out)@.add(ser_value(x@)),
    decreases *x,
{
    let ghost base = out@;
    match x {
        Double::Inf { sign, attr } => {
            write_attr_opt(attr, out);
            out.push(D_DOUBLE);
            if sign.is_minus() {
                out.push(MINUS);
            }
            out.push(0x69);
            out.push(0x6E);
            out.push(0x66);
            write_crlf(out);
            assert(out@ =~= base.add(ser_value(x@)));
        },
        Double::Val { parts, attr } => {
            write_attr_opt(attr, out);
            out.push(D_DOUBLE);
            if parts.sign.is_minus() {
                out.push(MINUS);
            }
            write_bytes(&parts.int, out);
            match &parts.frac {
                Option::Some(f) => {
                    out.push(DOT);
                    write_bytes(f, out);
                },
                Option::None => {},
            }
            write_crlf(out);
            assert(out@ =~= base.add(ser_value(x@)));
        },
    }
}

#[verifier::rlimit(50)]
fn write_simple_string(x: &SimpleString, out: &mut Vec<u8>)
    requires
        valid_value(x@),
    ensures
        final(out)@ == old(out)@.add(ser_value(x@)),
    decreases *x,
{
    let ghost base = out@;
    write_attr_opt(&x.attr, out);
    out.push(D_SIMPLE_STRING);
    write_bytes(&x.val, out);
    write_crlf(out);
    assert(out@ =~= base.add(ser_value(x@)));
}

#[verifier::rlimit(50)]
fn write_simple_error(x: &SimpleError, out: &mut Vec<u8>)
    requires
        valid_value(x@),
    ensures
        final(out)@ == old(out)@.add(ser_value(x@)),
    decreases *x,
{
    let ghost base = out@;
    write_attr_opt(&x.attr, out);
    out.push(D_SIMPLE_ERROR);
    write_bytes(&x.code, out);
    out.push(SP);
    write_bytes(&x.msg, out);
    write_crlf(out);
    assert(out@ =~= base.add(ser_value(x@)));
}

#[verifier::rlimit(50)]
fn write_blob_string(x: &BlobString, out: &mut Vec<u8>)
    requires
        valid_value(x@),
    ensures
        final(out)@ == old(out)@.add(ser_value(x@)),
    decreases *x,
{
    let ghost base = out@;
    write_attr_opt(&x.attr, out);
    out.push(D_BLOB_STRING);
    let len = fmt_u64(x.val.len() as u64);
    write_bytes(&len, out);
    write_crlf(out);
    write_bytes(&x.val, out);
    write_crlf(out);
    assert(out@ =~= base.add(ser_value(x@)));
}

#[verifier::rlimit(50)]
fn write_blob_error(x: &BlobError, out: &mut Vec<u8>)
    requires
        valid_value(x@),
    ensures
        final(out)@ == old(out)@.add(ser_value(x@)),
    decreases *x,
{
    let ghost base = out@;
    write_attr_opt(&x.attr, out);
    out.push(D_BLOB_ERROR);
    let total = x.code.len() + 1 + x.msg.len();
    let len = fmt_u64(total as u64);
    write_bytes(&len, out);
    write_crlf(out);
    write_bytes(&x.code, out);
    out.push(SP);
    write_bytes(&x.msg, out);
    write_crlf(out);
    assert(out@ =~= base.add(ser_value(x@)));
}

#[verifier::rlimit(50)]
fn write_verbatim_string(x: &VerbatimString, out: &mut Vec<u8>)
    requires
        valid_value(x@),
    ensures
        final(out)@ == old(out)@.add(ser_value(x@)),
    decreases *x,
{
    let ghost base = out@;
    match x {
        VerbatimString::Txt { val, attr } => {
            write_attr_opt(attr, out);
            out.push(D_VERBATIM_STRING);
            let len = fmt_u64((val.len() + 4) as u64);
            write_bytes(&len, out);
            write_crlf(out);
            out.push(0x74);
            out.push(0x78);
            out.push(0x74);
            out.push(COLON);
            write_bytes(val, out);
            write_crlf(out);
            assert(out@ =~= base.add(ser_value(x@)));
        },
        VerbatimString::Mkd { val, attr } => {
            write_attr_opt(attr, out);
            out.push(D_VERBATIM_STRING);
            let len = fmt_u64((val.len() + 4) as u64);
            write_bytes(&len, out);
            write_crlf(out);
            out.push(0x6D);
            out.push(0x6B);
            out.push(0x64);
            out.push(COLON);
            write_bytes(val, out);
            write_crlf(out);
            assert(out@ =~= base.add(ser_value(x@)));
        },
    }
}

#[verifier::rlimit(50)]
fn write_array(x: &Array, out: &mut Vec<u8>)
    requires
        valid_value(x@),
    ensures
        final(out)@ == old(out)@.add(ser_value(x@)),
    decreases *x,
{
    let ghost base = out@;
    write_attr_opt(&x.attr, out);
    out.push(D_ARRAY);
    proof {
        lemma_view_items(x.val@);
    }
    let count = fmt_u64(x.val.len() as u64);
    write_bytes(&count, out);
    write_crlf(out);
    write_items(&x.val, out);
    assert(out@ =~= base.add(ser_value(x@)));
}

#[verifier::rlimit(50)]
fn write_set(x: &ValueSet, out: &mut Vec<u8>)
    requires
        valid_value(x@),
    ensures
        final(out)@ == old(out)@.add(ser_value(x@)),
    decreases *x,
{
    let ghost base = out@;
    write_attr_opt(&x.attr, out);
    out.push(D_SET);
    proof {
        lemma_view_items(x.val@);
    }
    let count = fmt_u64(x.val.len() as u64);
    write_bytes(&count, out);
    write_crlf(out);
    write_items(&x.val, out);
    assert(out@ =~= base.add(ser_value(x@)));
}

#[verifier::rlimit(50)]
fn write_map(x: &ValueMap, out: &mut Vec<u8>)
    requires
        valid_value(x@),
    ensures
        final(out)@ == old(out)@.add(ser_value(x@)),
    decreases *x,
{
    let ghost base = out@;
    write_attr_opt(&x.attr, out);
    out.push(D_MAP);
    proof {
        lemma_view_pairs(x.val@);
    }
    let count = fmt_u64(x.val.len() as u64);
    write_bytes(&count, out);
    write_crlf(out);
    write_pairs(&x.val, out);
    assert(out@ =~= base.add(ser_value(x@)));
}

impl Null {
    /// Serializes this value to its wire bytes.
    pub fn serialize(&self) -> (r: Vec<u8>)
        requires
            valid_value(self@),
        ensures
            r@ == ser_value(self@),
    {
        let mut out: Vec<u8> = Vec::new();
        write_null(self, &mut out);
        assert(out@ =~= ser_value(self@));
        out
    }
}

impl Boolean {
    /// Serializes this value to its wire bytes.
    pub fn serialize(&self) -> (r: Vec<u8>)
        requires
            valid_value(self@),
        ensures
            r@ == ser_value(self@),
    {
        let mut out: Vec<u8> = Vec::new();
        write_boolean(self, &mut out);
        assert(out@ =~= ser_value(self@));
        out
    }
}

impl Number {
    /// Serializes this value to its wire bytes.
    pub fn serialize(&self) -> (r: Vec<u8>)
        requires
            valid_value(self@),
        ensures
            r@ == ser_value(self@),
    {
        let mut out: Vec<u8> = Vec::new();
        write_number(self, &mut out);
        assert(out@ =~= ser_value(self@));
        out
    }
}

impl BigNumber {
    /// Serializes this value to its wire bytes.
    pub fn serialize(&self) -> (r: Vec<u8>)
        requires
            valid_value(self@),
        ensures
            r@ == ser_value(self@),
    {
        let mut out: Vec<u8> = Vec::new();
        write_big_number(self, &mut out);
        assert(out@ =~= ser_value(self@));
        out
    }
}

impl Double {
    /// Serializes this value to its wire bytes.
    pub fn serialize(&self) -> (r: Vec<u8>)
        requires
            valid_value(self@),
        ensures
            r@ == ser_value(self@),
    {
        let mut out: Vec<u8> = Vec::new();
        write_double(self, &mut out);
        assert(out@ =~= ser_value(self@));
        out
    }
}

impl SimpleString {
    /// Serializes this value to its wire bytes.
    pub fn serialize(&self) -> (r: Vec<u8>)
        requires
            valid_value(self@),
        ensures
            r@ == ser_value(self@),
    {
        let mut out: Vec<u8> = Vec::new();
        write_simple_string(self, &mut out);
        assert(out@ =~= ser_value(self@));
        out
    }
}

impl SimpleError {
    /// Serializes this value to its wire bytes.
    pub fn serialize(&self) -> (r: Vec<u8>)
        requires
            valid_value(self@),
        ensures
            r@ == ser_value(self@),
    {
        let mut out: Vec<u8> = Vec::new();
        write_simple_error(self, &mut out);
        assert(out@ =~= ser_value(self@));
        out
    }
}

impl BlobString {
    /// Serializes this value to its wire bytes.
    pub fn serialize(&self) -> (r: Vec<u8>)
        requires
            valid_value(self@),
        ensures
            r@ == ser_value(self@),
    {
        let mut out: Vec<u8> = Vec::new();
        write_blob_string(self, &mut out);
        assert(out@ =~= ser_value(self@));
        out
    }
}

impl BlobError {
    /// Serializes this value to its wire bytes.
    pub fn serialize(&self) -> (r: Vec<u8>)
        requires
            valid_value(self@),
        ensures
            r@ == ser_value(self@),
    {
        let mut out: Vec<u8> = Vec::new();
        write_blob_error(self, &mut out);
        assert(out@ =~= ser_value(self@));
        out
    }
}

impl VerbatimString {
    /// Serializes this value to its wire bytes.
    pub fn serialize(&self) -> (r: Vec<u8>)
        requires
            valid_value(self@),
        ensures
            r@ == ser_value(self@),
    {
        let mut out: Vec<u8> = Vec::new();
        write_verbatim_string(self, &mut out);
        assert(out@ =~= ser_value(self@));
        out
    }
}

impl Array {
    /// Serializes this value to its wire bytes.
    pub fn serialize(&self) -> (r: Vec<u8>)
        requires
            valid_value(self@),
        ensures
            r@ == ser_value(self@),
    {
        let mut out: Vec<u8> = Vec::new();
        write_array(self, &mut out);
        assert(out@ =~= ser_value(self@));
        out
    }
}

impl ValueSet {
    /// Serializes this value to its wire bytes.
    pub fn serialize(&self) -> (r: Vec<u8>)
        requires
            valid_value(self@),
        ensures
            r@ == ser_value(self@),
    {
        let mut out: Vec<u8> = Vec::new();
        write_set(self, &mut out);
        assert(out@ =~= ser_value(self@));
        out
    }
}

impl ValueMap {
    /// Serializes this value to its wire bytes.
    pub fn serialize(&self) -> (r: Vec<u8>)
        requires
            valid_value(self@),
        ensures
            r@ == ser_value(self@),
    {
        let mut out: Vec<u8> = Vec::new();
        write_map(self, &mut out);
        assert(out@ =~= ser_value(self@));
        out
    }
}

impl Attribute {
    /// Serializes this attribute to its wire bytes, the `|` prefix included.
    pub fn serialize(&self) -> (r: Vec<u8>)
        requires
            crate::model::valid_attr_opt(Some(self@)),
        ensures
            r@ == ser_attr_opt(Some(self@)),
    {
        let mut out: Vec<u8> = Vec::new();
        let ghost ps = self@;
        proof {
            lemma_view_pairs(self.val@);
        }
        out.push(D_ATTRIBUTE);
        let count = fmt_u64(self.val.len() as u64);
        write_bytes(&count, &mut out);
        write_crlf(&mut out);
        write_pairs(&self.val, &mut out);
        assert(out@ =~= seq![D_ATTRIBUTE].add(crate::digits::dec_u(ps.len())).add(crlf()).add(
            ser_pairs(ps),
        ));
        out
    }
}

impl Value {
    /// Serializes the value to its wire bytes.  Serialization is total on
    /// well-formed values and writes exactly the wire image of the model.
    pub fn serialize(&self) -> (r: Vec<u8>)
        requires
            valid_value(self@),
        ensures
            r@ == ser_value(self@),
    {
        let mut out: Vec<u8> = Vec::new();
        serialize_value(self, &mut out);
        assert(out@ =~= ser_value(self@));
        out
    }
}

} // verus!
