//! The mathematical model of the value tree.
//!
//! `ValueV` mirrors the executable types with `Seq` in place of `Vec`; it is
//! what contracts speak about.  This module defines the wire image of a model
//! value (`ser_value`), well-formedness (`valid_value`), and the nesting
//! depth a parse of the value needs (`depth_value`).

use vstd::prelude::*;

use crate::digits::{all_digits, canonical_digits, dec_i, dec_u};
use crate::lexord::lex_cmp;
use crate::utf8::is_utf8;
use crate::value::{Sign, VerbKind};

verus! {

// The discriminator byte of each variant, and the bytes of the delimiters.
pub const CR: u8 = 0x0D;
pub const LF: u8 = 0x0A;
pub const SP: u8 = 0x20;
pub const MINUS: u8 = 0x2D;
pub const DOT: u8 = 0x2E;
pub const COLON: u8 = 0x3A;
pub const D_NULL: u8 = 0x5F;
pub const D_BOOLEAN: u8 = 0x23;
pub const D_NUMBER: u8 = 0x3A;
pub const D_BIG_NUMBER: u8 = 0x28;
pub const D_DOUBLE: u8 = 0x2C;
pub const D_SIMPLE_STRING: u8 = 0x2B;
pub const D_SIMPLE_ERROR: u8 = 0x2D;
pub const D_BLOB_STRING: u8 = 0x24;
pub const D_BLOB_ERROR: u8 = 0x21;
pub const D_VERBATIM_STRING: u8 = 0x3D;
pub const D_ARRAY: u8 = 0x2A;
pub const D_SET: u8 = 0x7E;
pub const D_MAP: u8 = 0x25;
pub const D_ATTRIBUTE: u8 = 0x7C;

/// How deeply values may nest before the parser gives up.
pub const MAX_DEPTH: usize = 100;

/// An attribute in the model: the key/value pairs it carries.
pub type PairsV = Seq<(ValueV, ValueV)>;

/// A finite double literal in the model: the sign and the exact digit runs
/// of the integer and optional fractional parts, byte for byte as written.
pub struct PartsV {
    pub sign: Sign,
    pub int: Seq<u8>,
    pub frac: Option<Seq<u8>>,
}

/// A double in the model: a signed infinity or a finite literal.
pub enum DoubleV {
    Inf(Sign),
    Num(PartsV),
}

/// A value tree in the model.  Every variant carries its optional attribute
/// as the pairs of the attribute map.
#[verifier::ext_equal]
pub enum ValueV {
    Array { items: Seq<ValueV>, attr: Option<PairsV> },
    BigNumber { neg: bool, digits: Seq<u8>, attr: Option<PairsV> },
    BlobError { code: Seq<u8>, msg: Seq<u8>, attr: Option<PairsV> },
    BlobString { data: Seq<u8>, attr: Option<PairsV> },
    Boolean { b: bool, attr: Option<PairsV> },
    Double { d: DoubleV, attr: Option<PairsV> },
    ValueMap { pairs: PairsV, attr: Option<PairsV> },
    Null { attr: Option<PairsV> },
    Number { n: i64, attr: Option<PairsV> },
    ValueSet { items: Seq<ValueV>, attr: Option<PairsV> },
    SimpleError { code: Seq<u8>, msg: Seq<u8>, attr: Option<PairsV> },
    SimpleString { data: Seq<u8>, attr: Option<PairsV> },
    VerbatimString { kind: VerbKind, data: Seq<u8>, attr: Option<PairsV> },
}

/// The attribute attached to a value, if any.
pub open spec fn attr_of(v: ValueV) -> Option<PairsV> {
    match v {
        ValueV::Array { attr, .. } => attr,
        ValueV::BigNumber { attr, .. } => attr,
        ValueV::BlobError { attr, .. } => attr,
        ValueV::BlobString { attr, .. } => attr,
        ValueV::Boolean { attr, .. } => attr,
        ValueV::Double { attr, .. } => attr,
        ValueV::ValueMap { attr, .. } => attr,
        ValueV::Null { attr } => attr,
        ValueV::Number { attr, .. } => attr,
        ValueV::ValueSet { attr, .. } => attr,
        ValueV::SimpleError { attr, .. } => attr,
        ValueV::SimpleString { attr, .. } => attr,
        ValueV::VerbatimString { attr, .. } => attr,
    }
}

/// The same value with its attribute replaced.
pub open spec fn with_attr_of(v: ValueV, a: Option<PairsV>) -> ValueV {
    match v {
        ValueV::Array { items, .. } => ValueV::Array { items, attr: a },
        ValueV::BigNumber { neg, digits, .. } => ValueV::BigNumber { neg, digits, attr: a },
        ValueV::BlobError { code, msg, .. } => ValueV::BlobError { code, msg, attr: a },
        ValueV::BlobString { data, .. } => ValueV::BlobString { data, attr: a },
        ValueV::Boolean { b, .. } => ValueV::Boolean { b, attr: a },
        ValueV::Double { d, .. } => ValueV::Double { d, attr: a },
        ValueV::ValueMap { pairs, .. } => ValueV::ValueMap { pairs, attr: a },
        ValueV::Null { .. } => ValueV::Null { attr: a },
        ValueV::Number { n, .. } => ValueV::Number { n, attr: a },
        ValueV::ValueSet { items, .. } => ValueV::ValueSet { items, attr: a },
        ValueV::SimpleError { code, msg, .. } => ValueV::SimpleError { code, msg, attr: a },
        ValueV::SimpleString { data, .. } => ValueV::SimpleString { data, attr: a },
        ValueV::VerbatimString { kind, data, .. } => ValueV::VerbatimString {
            kind,
            data,
            attr: a,
        },
    }
}

pub open spec fn crlf() -> Seq<u8> {
    seq![CR, LF]
}

/// The payload of a double, as written on the wire between the `,` and the
/// delimiter.
pub open spec fn ser_double(d: DoubleV) -> Seq<u8> {
    match d {
        DoubleV::Inf(sign) => if sign is Minus {
            seq![MINUS, 0x69u8, 0x6Eu8, 0x66u8]
        } else {
            seq![0x69u8, 0x6Eu8, 0x66u8]
        },
        DoubleV::Num(p) => {
            let sign_part: Seq<u8> = if p.sign is Minus {
                seq![MINUS]
            } else {
                Seq::empty()
            };
            let frac_part: Seq<u8> = match p.frac {
                Option::Some(f) => seq![DOT].add(f),
                Option::None => Seq::empty(),
            };
            sign_part.add(p.int).add(frac_part)
        },
    }
}

pub open spec fn ser_verb_kind(k: VerbKind) -> Seq<u8> {
    match k {
        VerbKind::Txt => seq![0x74u8, 0x78u8, 0x74u8],
        VerbKind::Mkd => seq![0x6Du8, 0x6Bu8, 0x64u8],
    }
}

/// The wire image of an attribute prefix, empty when there is none.
pub open spec fn ser_attr_opt(attr: Option<PairsV>) -> Seq<u8>
    decreases attr,
{
    match attr {
        Option::None => Seq::empty(),
        Option::Some(ps) => seq![D_ATTRIBUTE].add(dec_u(ps.len())).add(crlf()).add(
            ser_pairs(ps),
        ),
    }
}

/// The concatenated wire images of a run of values.
pub open spec fn ser_items(s: Seq<ValueV>) -> Seq<u8>
    decreases s,
{
    if s.len() == 0 {
        Seq::empty()
    } else {
        ser_value(s[0]).add(ser_items(s.drop_first()))
    }
}

/// The concatenated wire images of a run of key/value pairs.
pub open spec fn ser_pairs(ps: PairsV) -> Seq<u8>
    decreases ps,
{
    if ps.len() == 0 {
        Seq::empty()
    } else {
        ser_value(ps[0].0).add(ser_value(ps[0].1)).add(ser_pairs(ps.drop_first()))
    }
}

/// The wire image of a value: its attribute prefix, its discriminator, its
/// payload, and its delimiter, children included.
pub open spec fn ser_value(v: ValueV) -> Seq<u8>
    decreases v,
{
    match v {
        ValueV::Null { attr } => ser_attr_opt(attr).add(seq![D_NULL, CR, LF]),
        ValueV::Boolean { b, attr } => ser_attr_opt(attr).add(
            seq![D_BOOLEAN, if b { 0x74u8 } else { 0x66u8 }, CR, LF],
        ),
        ValueV::Number { n, attr } => ser_attr_opt(attr).add(seq![D_NUMBER]).add(
            dec_i(n as int),
        ).add(crlf()),
        ValueV::BigNumber { neg, digits, attr } => ser_attr_opt(attr).add(
            seq![D_BIG_NUMBER],
        ).add(
            if neg {
                seq![MINUS]
            } else {
                Seq::empty()
            },
        ).add(digits).add(crlf()),
        ValueV::Double { d, attr } => ser_attr_opt(attr).add(seq![D_DOUBLE]).add(
            ser_double(d),
        ).add(crlf()),
        ValueV::SimpleString { data, attr } => ser_attr_opt(attr).add(
            seq![D_SIMPLE_STRING],
        ).add(data).add(crlf()),
        ValueV::SimpleError { code, msg, attr } => ser_attr_opt(attr).add(
            seq![D_SIMPLE_ERROR],
        ).add(code).add(seq![SP]).add(msg).add(crlf()),
        ValueV::BlobString { data, attr } => ser_attr_opt(attr).add(
            seq![D_BLOB_STRING],
        ).add(dec_u(data.len())).add(crlf()).add(data).add(crlf()),
        ValueV::BlobError { code, msg, attr } => ser_attr_opt(attr).add(
            seq![D_BLOB_ERROR],
        ).add(dec_u(code.len() + 1 + msg.len())).add(crlf()).add(code).add(seq![SP]).add(
            msg,
        ).add(crlf()),
        ValueV::VerbatimString { kind, data, attr } => ser_attr_opt(attr).add(
            seq![D_VERBATIM_STRING],
        ).add(dec_u(data.len() + 4)).add(crlf()).add(ser_verb_kind(kind)).add(
            seq![COLON],
        ).add(data).add(crlf()),
        ValueV::Array { items, attr } => ser_attr_opt(attr).add(seq![D_ARRAY]).add(
            dec_u(items.len()),
        ).add(crlf()).add(ser_items(items)),
        ValueV::ValueSet { items, attr } => ser_attr_opt(attr).add(seq![D_SET]).add(
            dec_u(items.len()),
        ).add(crlf()).add(ser_items(items)),
        ValueV::ValueMap { pairs, attr } => ser_attr_opt(attr).add(seq![D_MAP]).add(
            dec_u(pairs.len()),
        ).add(crlf()).add(ser_pairs(pairs)),
    }
}

/// A double payload is well formed when its digit runs are nonempty runs of
/// digits, kept exactly as written.
pub open spec fn valid_double(d: DoubleV) -> bool {
    match d {
        DoubleV::Inf(_) => true,
        DoubleV::Num(p) => {
            &&& p.int.len() >= 1
            &&& all_digits(p.int)
            &&& (p.frac matches Some(f) ==> f.len() >= 1 && all_digits(f))
        },
    }
}

/// ASCII `A` through `Z`.
pub open spec fn is_upper(b: u8) -> bool {
    0x41 <= b <= 0x5A
}

pub open spec fn all_upper(s: Seq<u8>) -> bool {
    forall|i: int| 0 <= i < s.len() ==> is_upper(#[trigger] s[i])
}

/// No carriage return and no line feed anywhere.
pub open spec fn no_crlf(s: Seq<u8>) -> bool {
    forall|i: int| 0 <= i < s.len() ==> #[trigger] s[i] != CR && s[i] != LF
}

/// The elements are in strictly increasing order of their wire images.
pub open spec fn sorted_items(s: Seq<ValueV>) -> bool {
    forall|i: int, j: int| #![trigger s[i], s[j]]
        0 <= i < j < s.len() ==> lex_cmp(ser_value(s[i]), ser_value(s[j])) == -1
}

/// The keys are in strictly increasing order of their wire images.
pub open spec fn sorted_pairs(ps: PairsV) -> bool {
    forall|i: int, j: int| #![trigger ps[i], ps[j]]
        0 <= i < j < ps.len() ==> lex_cmp(ser_value(ps[i].0), ser_value(ps[j].0)) == -1
}

/// Well-formedness of an optional attribute: its pairs are well formed and
/// its keys are strictly ordered.
pub open spec fn valid_attr_opt(attr: Option<PairsV>) -> bool
    decreases attr,
{
    match attr {
        Option::None => true,
        Option::Some(ps) => valid_pairs(ps) && sorted_pairs(ps) && ps.len() <= usize::MAX,
    }
}

pub open spec fn valid_items(s: Seq<ValueV>) -> bool
    decreases s,
{
    if s.len() == 0 {
        true
    } else {
        valid_value(s[0]) && valid_items(s.drop_first())
    }
}

pub open spec fn valid_pairs(ps: PairsV) -> bool
    decreases ps,
{
    if ps.len() == 0 {
        true
    } else {
        valid_value(ps[0].0) && valid_value(ps[0].1) && valid_pairs(ps.drop_first())
    }
}

/// Well-formedness of a value: what the parser guarantees of everything it
/// returns, and what serialization relies on.
pub open spec fn valid_value(v: ValueV) -> bool
    decreases v,
{
    match v {
        ValueV::Null { attr } => valid_attr_opt(attr),
        ValueV::Boolean { attr, .. } => valid_attr_opt(attr),
        ValueV::Number { attr, .. } => valid_attr_opt(attr),
        ValueV::BigNumber { neg, digits, attr } => {
            &&& valid_attr_opt(attr)
            &&& canonical_digits(digits)
            &&& (neg ==> digits[0] != 0x30)
        },
        ValueV::Double { d, attr } => valid_attr_opt(attr) && valid_double(d),
        ValueV::SimpleString { data, attr } => {
            &&& valid_attr_opt(attr)
            &&& data.len() >= 1
            &&& no_crlf(data)
            &&& is_utf8(data)
        },
        ValueV::SimpleError { code, msg, attr } => {
            &&& valid_attr_opt(attr)
            &&& code.len() >= 1
            &&& all_upper(code)
            &&& msg.len() >= 1
            &&& no_crlf(msg)
            &&& is_utf8(msg)
        },
        ValueV::BlobString { data, attr } => valid_attr_opt(attr) && data.len() <= usize::MAX,
        ValueV::BlobError { code, msg, attr } => {
            &&& valid_attr_opt(attr)
            &&& code.len() >= 1
            &&& all_upper(code)
            &&& code.len() + 1 + msg.len() <= usize::MAX
        },
        ValueV::VerbatimString { data, attr, .. } => {
            &&& valid_attr_opt(attr)
            &&& data.len() + 4 <= usize::MAX
        },
        ValueV::Array { items, attr } => {
            &&& valid_attr_opt(attr)
            &&& valid_items(items)
            &&& items.len() <= usize::MAX
        },
        ValueV::ValueSet { items, attr } => {
            &&& valid_attr_opt(attr)
            &&& valid_items(items)
            &&& sorted_items(items)
            &&& items.len() <= usize::MAX
        },
        ValueV::ValueMap { pairs, attr } => {
            &&& valid_attr_opt(attr)
            &&& valid_pairs(pairs)
            &&& sorted_pairs(pairs)
            &&& pairs.len() <= usize::MAX
        },
    }
}

/// A run of values is well formed exactly when each element is.
pub proof fn lemma_valid_items_index(s: Seq<ValueV>)
    ensures
        valid_items(s) <==> (forall|i: int| 0 <= i < s.len() ==> valid_value(#[trigger] s[i])),
    decreases s,
{
    if s.len() > 0 {
        lemma_valid_items_index(s.drop_first());
        if valid_items(s) {
            assert forall|i: int| 0 <= i < s.len() implies valid_value(#[trigger] s[i]) by {
                if i > 0 {
                    assert(s.drop_first()[i - 1] == s[i]);
                    assert(valid_value(s.drop_first()[i - 1]));
                }
            }
        }
        if forall|i: int| 0 <= i < s.len() ==> valid_value(#[trigger] s[i]) {
            assert(valid_value(s[0]));
            assert forall|i: int|
                0 <= i < s.drop_first().len() implies valid_value(
                #[trigger] s.drop_first()[i],
            ) by {
                assert(s.drop_first()[i] == s[i + 1]);
                assert(valid_value(s[i + 1]));
            }
            assert(valid_items(s.drop_first()));
        }
    }
}

/// A run of pairs is well formed exactly when each key and each value is.
pub proof fn lemma_valid_pairs_index(ps: PairsV)
    ensures
        valid_pairs(ps) <==> (forall|i: int|
            0 <= i < ps.len() ==> valid_value((#[trigger] ps[i]).0) && valid_value(ps[i].1)),
    decreases ps,
{
    if ps.len() > 0 {
        lemma_valid_pairs_index(ps.drop_first());
        if valid_pairs(ps) {
            assert forall|i: int|
                0 <= i < ps.len() implies valid_value((#[trigger] ps[i]).0) && valid_value(
                ps[i].1,
            ) by {
                if i > 0 {
                    assert(ps.drop_first()[i - 1] == ps[i]);
                    assert(valid_value(ps.drop_first()[i - 1].0) && valid_value(
                        ps.drop_first()[i - 1].1,
                    ));
                }
            }
        }
        if forall|i: int|
            0 <= i < ps.len() ==> valid_value((#[trigger] ps[i]).0) && valid_value(ps[i].1) {
            assert(valid_value(ps[0].0) && valid_value(ps[0].1));
            assert forall|i: int|
                0 <= i < ps.drop_first().len() implies valid_value(
                (#[trigger] ps.drop_first()[i]).0,
            ) && valid_value(ps.drop_first()[i].1) by {
                assert(ps.drop_first()[i] == ps[i + 1]);
                assert(valid_value(ps[i + 1].0) && valid_value(ps[i + 1].1));
            }
            assert(valid_pairs(ps.drop_first()));
        }
    }
}

/// The nesting depth a parse of the attribute pairs needs.
pub open spec fn depth_attr_opt(attr: Option<PairsV>) -> nat
    decreases attr,
{
    match attr {
        Option::None => 0,
        Option::Some(ps) => depth_pairs(ps),
    }
}

pub open spec fn depth_items(s: Seq<ValueV>) -> nat
    decreases s,
{
    if s.len() == 0 {
        0
    } else {
        let d0 = depth_value(s[0]);
        let dr = depth_items(s.drop_first());
        if d0 >= dr {
            d0
        } else {
            dr
        }
    }
}

pub open spec fn depth_pairs(ps: PairsV) -> nat
    decreases ps,
{
    if ps.len() == 0 {
        0
    } else {
        let dk = depth_value(ps[0].0);
        let dv = depth_value(ps[0].1);
        let dr = depth_pairs(ps.drop_first());
        let dp = if dk >= dv {
            dk
        } else {
            dv
        };
        if dp >= dr {
            dp
        } else {
            dr
        }
    }
}

/// The nesting depth a parse of the value needs: one level for the value
/// itself, one more for each level of children, attribute pairs included.
pub open spec fn depth_value(v: ValueV) -> nat
    decreases v,
{
    match v {
        ValueV::Array { items, attr } => 1 + max_nat(
            depth_attr_opt(attr),
            depth_items(items),
        ),
        ValueV::ValueSet { items, attr } => 1 + max_nat(depth_attr_opt(attr), depth_items(items)),
        ValueV::ValueMap { pairs, attr } => 1 + max_nat(depth_attr_opt(attr), depth_pairs(pairs)),
        ValueV::BigNumber { attr, .. } => 1 + depth_attr_opt(attr),
        ValueV::BlobError { attr, .. } => 1 + depth_attr_opt(attr),
        ValueV::BlobString { attr, .. } => 1 + depth_attr_opt(attr),
        ValueV::Boolean { attr, .. } => 1 + depth_attr_opt(attr),
        ValueV::Double { attr, .. } => 1 + depth_attr_opt(attr),
        ValueV::Null { attr } => 1 + depth_attr_opt(attr),
        ValueV::Number { attr, .. } => 1 + depth_attr_opt(attr),
        ValueV::SimpleError { attr, .. } => 1 + depth_attr_opt(attr),
        ValueV::SimpleString { attr, .. } => 1 + depth_attr_opt(attr),
        ValueV::VerbatimString { attr, .. } => 1 + depth_attr_opt(attr),
    }
}

pub open spec fn max_nat(a: nat, b: nat) -> nat {
    if a >= b {
        a
    } else {
        b
    }
}


/// Replacing the attribute keeps a value well formed when the new attribute
/// is.
pub proof fn lemma_with_attr_valid(v: ValueV, a: Option<PairsV>)
    requires
        valid_value(v),
        valid_attr_opt(a),
    ensures
        valid_value(with_attr_of(v, a)),
{
    match v {
        ValueV::Array { items, attr } => {
            assert(valid_value(with_attr_of(v, a)));
        },
        ValueV::BigNumber { neg, digits, attr } => {
            assert(valid_value(with_attr_of(v, a)));
        },
        ValueV::BlobError { code, msg, attr } => {
            assert(valid_value(with_attr_of(v, a)));
        },
        ValueV::BlobString { data, attr } => {
            assert(valid_value(with_attr_of(v, a)));
        },
        ValueV::Boolean { b, attr } => {
            assert(valid_value(with_attr_of(v, a)));
        },
        ValueV::Double { d, attr } => {
            assert(valid_value(with_attr_of(v, a)));
        },
        ValueV::ValueMap { pairs, attr } => {
            assert(valid_value(with_attr_of(v, a)));
        },
        ValueV::Null { attr } => {
            assert(valid_value(with_attr_of(v, a)));
        },
        ValueV::Number { n, attr } => {
            assert(valid_value(with_attr_of(v, a)));
        },
        ValueV::ValueSet { items, attr } => {
            assert(valid_value(with_attr_of(v, a)));
        },
        ValueV::SimpleError { code, msg, attr } => {
            assert(valid_value(with_attr_of(v, a)));
        },
        ValueV::SimpleString { data, attr } => {
            assert(valid_value(with_attr_of(v, a)));
        },
        ValueV::VerbatimString { kind, data, attr } => {
            assert(valid_value(with_attr_of(v, a)));
        },
    }
}

} // verus!
