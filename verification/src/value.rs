//! The executable value types of the codec.
//!
//! `Value` is the closed sum of the thirteen wire variants; each variant's
//! payload type carries its optional attribute.  The view of every type is
//! its counterpart in `model`, and all contracts are stated over those views.

use vstd::prelude::*;

use crate::digits::{all_digits, strip_zeros, lemma_strip_zeros};
use crate::model::{
    valid_value, DoubleV, PairsV, ValueV, MINUS,
};

verus! {

/// The sign of a double literal.
#[derive(Debug, Clone, Copy, PartialEq, Eq, Structural, Hash)]
pub enum Sign {
    Plus,
    Minus,
}

impl Sign {
    pub fn is_minus(&self) -> (r: bool)
        ensures
            r == (*self is Minus),
    {
        match self {
            Sign::Minus => true,
            Sign::Plus => false,
        }
    }

    pub fn is_plus(&self) -> (r: bool)
        ensures
            r == (*self is Plus),
    {
        match self {
            Sign::Plus => true,
            Sign::Minus => false,
        }
    }
}

/// The structural representation of a finite double literal: the sign, the
/// integer digit run, and the optional fractional digit run, each kept byte
/// for byte as parsed, so that two different literals stay distinct and
/// re-serialize exactly, whatever floating-point value they share.
#[derive(Debug, Clone, PartialEq, Eq, Hash)]
pub struct Parts {
    pub sign: Sign,
    pub int: Vec<u8>,
    pub frac: Option<Vec<u8>>,
}

/// The model of a finite double literal.
pub open spec fn view_parts(p: Parts) -> crate::model::PartsV {
    crate::model::PartsV {
        sign: p.sign,
        int: p.int@,
        frac: match p.frac {
            Option::Some(f) => Option::Some(f@),
            Option::None => Option::None,
        },
    }
}

/// The subtype tag of a verbatim string.
#[derive(Debug, Clone, Copy, PartialEq, Eq, Structural, Hash)]
pub enum VerbKind {
    Txt,
    Mkd,
}

/// The null value.
#[derive(Debug, PartialEq, Eq, Hash)]
pub struct Null {
    pub attr: Option<Attribute>,
}

/// A boolean value.
#[derive(Debug, PartialEq, Eq, Hash)]
pub struct Boolean {
    pub val: bool,
    pub attr: Option<Attribute>,
}

/// A signed 64-bit integer value.
#[derive(Debug, PartialEq, Eq, Hash)]
pub struct Number {
    pub val: i64,
    pub attr: Option<Attribute>,
}

/// An arbitrary-precision integer, kept as its canonical decimal digit run
/// and a sign.
#[derive(Debug, PartialEq, Eq, Hash)]
pub struct BigNumber {
    pub neg: bool,
    pub digits: Vec<u8>,
    pub attr: Option<Attribute>,
}

/// A double: a signed infinity, or a finite decimal literal kept bit-exactly
/// as its structural parts.
#[derive(Debug, PartialEq, Eq, Hash)]
pub enum Double {
    Inf { sign: Sign, attr: Option<Attribute> },
    Val { parts: Parts, attr: Option<Attribute> },
}

/// A short text without carriage returns or line feeds.
#[derive(Debug, PartialEq, Eq, Hash)]
pub struct SimpleString {
    pub val: Vec<u8>,
    pub attr: Option<Attribute>,
}

/// A short error: an uppercase code and a text message.
#[derive(Debug, PartialEq, Eq, Hash)]
pub struct SimpleError {
    pub code: Vec<u8>,
    pub msg: Vec<u8>,
    pub attr: Option<Attribute>,
}

/// A length-prefixed run of raw bytes.
#[derive(Debug, PartialEq, Eq, Hash)]
pub struct BlobString {
    pub val: Vec<u8>,
    pub attr: Option<Attribute>,
}

/// A length-prefixed error: an uppercase code and a raw-byte message.
#[derive(Debug, PartialEq, Eq, Hash)]
pub struct BlobError {
    pub code: Vec<u8>,
    pub msg: Vec<u8>,
    pub attr: Option<Attribute>,
}

/// A length-prefixed payload with a `txt` or `mkd` subtype tag.
#[derive(Debug, PartialEq, Eq, Hash)]
pub enum VerbatimString {
    Txt { val: Vec<u8>, attr: Option<Attribute> },
    Mkd { val: Vec<u8>, attr: Option<Attribute> },
}

/// An ordered sequence of values.
#[derive(Debug, PartialEq, Eq, Hash)]
pub struct Array {
    pub val: Vec<Value>,
    pub attr: Option<Attribute>,
}

/// A collection of distinct values, kept sorted by their wire images.
#[derive(Debug, PartialEq, Eq, Hash)]
pub struct ValueSet {
    pub val: Vec<Value>,
    pub attr: Option<Attribute>,
}

/// A collection of key/value pairs with distinct keys, kept sorted by the
/// keys' wire images.
#[derive(Debug, PartialEq, Eq, Hash)]
pub struct ValueMap {
    pub val: Vec<(Value, Value)>,
    pub attr: Option<Attribute>,
}

/// The out-of-band metadata that may prefix any value: key/value pairs with
/// distinct keys, kept sorted by the keys' wire images.
#[derive(Debug, PartialEq, Eq, Hash)]
pub struct Attribute {
    pub val: Vec<(Value, Value)>,
}

/// A value of the wire protocol.
#[derive(Debug, PartialEq, Eq, Hash)]
pub enum Value {
    Array(Array),
    BigNumber(BigNumber),
    BlobError(BlobError),
    BlobString(BlobString),
    Boolean(Boolean),
    Double(Double),
    ValueMap(ValueMap),
    Null(Null),
    Number(Number),
    ValueSet(ValueSet),
    SimpleError(SimpleError),
    SimpleString(SimpleString),
    VerbatimString(VerbatimString),
}

/// The model of an executable value.
pub open spec fn view_value(v: Value) -> ValueV
    decreases v,
{
    match v {
        Value::Array(x) => ValueV::Array {
            items: view_items(x.val@),
            attr: view_attr_opt(x.attr),
        },
        Value::BigNumber(x) => ValueV::BigNumber {
            neg: x.neg,
            digits: x.digits@,
            attr: view_attr_opt(x.attr),
        },
        Value::BlobError(x) => ValueV::BlobError {
            code: x.code@,
            msg: x.msg@,
            attr: view_attr_opt(x.attr),
        },
        Value::BlobString(x) => ValueV::BlobString {
            data: x.val@,
            attr: view_attr_opt(x.attr),
        },
        Value::Boolean(x) => ValueV::Boolean { b: x.val, attr: view_attr_opt(x.attr) },
        Value::Double(x) => match x {
            Double::Inf { sign, attr } => ValueV::Double {
                d: DoubleV::Inf(sign),
                attr: view_attr_opt(attr),
            },
            Double::Val { parts, attr } => ValueV::Double {
                d: DoubleV::Num(view_parts(parts)),
                attr: view_attr_opt(attr),
            },
        },
        Value::ValueMap(x) => ValueV::ValueMap {
            pairs: view_pairs(x.val@),
            attr: view_attr_opt(x.attr),
        },
        Value::Null(x) => ValueV::Null { attr: view_attr_opt(x.attr) },
        Value::Number(x) => ValueV::Number { n: x.val, attr: view_attr_opt(x.attr) },
        Value::ValueSet(x) => ValueV::ValueSet {
            items: view_items(x.val@),
            attr: view_attr_opt(x.attr),
        },
        Value::SimpleError(x) => ValueV::SimpleError {
            code: x.code@,
            msg: x.msg@,
            attr: view_attr_opt(x.attr),
        },
        Value::SimpleString(x) => ValueV::SimpleString {
            data: x.val@,
            attr: view_attr_opt(x.attr),
        },
        Value::VerbatimString(x) => match x {
            VerbatimString::Txt { val, attr } => ValueV::VerbatimString {
                kind: VerbKind::Txt,
                data: val@,
                attr: view_attr_opt(attr),
            },
            VerbatimString::Mkd { val, attr } => ValueV::VerbatimString {
                kind: VerbKind::Mkd,
                data: val@,
                attr: view_attr_opt(attr),
            },
        },
    }
}

pub open spec fn view_items(s: Seq<Value>) -> Seq<ValueV>
    decreases s,
{
    if s.len() == 0 {
        Seq::empty()
    } else {
        seq![view_value(s[0])].add(view_items(s.drop_first()))
    }
}

pub open spec fn view_pairs(ps: Seq<(Value, Value)>) -> PairsV
    decreases ps,
{
    if ps.len() == 0 {
        Seq::empty()
    } else {
        seq![(view_value(ps[0].0), view_value(ps[0].1))].add(view_pairs(ps.drop_first()))
    }
}

pub open spec fn view_attr_opt(a: Option<Attribute>) -> Option<PairsV>
    decreases a,
{
    match a {
        Option::None => Option::<PairsV>::None,
        Option::Some(at) => Option::Some(view_pairs(at.val@)),
    }
}

impl View for Value {
    type V = ValueV;

    open spec fn view(&self) -> ValueV {
        view_value(*self)
    }
}

impl View for Attribute {
    type V = PairsV;

    open spec fn view(&self) -> PairsV {
        view_pairs(self.val@)
    }
}

/// A run of views has one view per element, in order.
pub proof fn lemma_view_items(s: Seq<Value>)
    ensures
        view_items(s).len() == s.len(),
        forall|i: int| 0 <= i < s.len() ==> view_items(s)[i] == view_value(#[trigger] s[i]),
    decreases s,
{
    if s.len() > 0 {
        lemma_view_items(s.drop_first());
        assert forall|i: int| 0 <= i < s.len() implies view_items(s)[i] == view_value(
            #[trigger] s[i],
        ) by {
            if i > 0 {
                assert(view_items(s.drop_first())[i - 1] == view_value(s.drop_first()[i - 1]));
                assert(s.drop_first()[i - 1] == s[i]);
            }
        }
    }
}

/// A run of pair views has one pair of views per pair, in order.
pub proof fn lemma_view_pairs(ps: Seq<(Value, Value)>)
    ensures
        view_pairs(ps).len() == ps.len(),
        forall|i: int|
            0 <= i < ps.len() ==> view_pairs(ps)[i] == (
                view_value((#[trigger] ps[i]).0),
                view_value(ps[i].1),
            ),
    decreases ps,
{
    if ps.len() > 0 {
        lemma_view_pairs(ps.drop_first());
        assert forall|i: int|
            0 <= i < ps.len() implies view_pairs(ps)[i] == (
            view_value((#[trigger] ps[i]).0),
            view_value(ps[i].1),
        ) by {
            if i > 0 {
                assert(view_pairs(ps.drop_first())[i - 1] == (
                    view_value(ps.drop_first()[i - 1].0),
                    view_value(ps.drop_first()[i - 1].1),
                ));
                assert(ps.drop_first()[i - 1] == ps[i]);
            }
        }
    }
}

impl Null {
    /// Attaches an attribute, replacing any present.
    pub fn with_attr(self, attr: Attribute) -> (r: Self)
        ensures
            r.attr == Some(attr),
            r@ == (ValueV::Null { attr: Some(attr@) }),
    {
        Null { attr: Some(attr) }
    }
}

impl Default for Null {
    fn default() -> (r: Self)
        ensures
            r@ == (ValueV::Null { attr: Option::<PairsV>::None }),
    {
        Null { attr: None }
    }
}

impl View for Null {
    type V = ValueV;

    open spec fn view(&self) -> ValueV {
        ValueV::Null { attr: view_attr_opt(self.attr) }
    }
}

impl View for Boolean {
    type V = ValueV;

    open spec fn view(&self) -> ValueV {
        ValueV::Boolean { b: self.val, attr: view_attr_opt(self.attr) }
    }
}

impl Boolean {
    pub fn new(val: bool) -> (r: Self)
        ensures
            r@ == (ValueV::Boolean { b: val, attr: Option::<PairsV>::None }),
    {
        Boolean { val, attr: None }
    }

    pub fn val(&self) -> (r: bool)
        ensures
            r == self@->Boolean_b,
    {
        self.val
    }

    pub fn with_attr(self, attr: Attribute) -> (r: Self)
        ensures
            r@ == (ValueV::Boolean { b: self.val, attr: Some(attr@) }),
    {
        Boolean { val: self.val, attr: Some(attr) }
    }
}

impl View for Number {
    type V = ValueV;

    open spec fn view(&self) -> ValueV {
        ValueV::Number { n: self.val, attr: view_attr_opt(self.attr) }
    }
}

impl Number {
    pub fn new(val: i64) -> (r: Self)
        ensures
            r@ == (ValueV::Number { n: val, attr: Option::<PairsV>::None }),
    {
        Number { val, attr: None }
    }

    pub fn val(&self) -> (r: i64)
        ensures
            r == self@->Number_n,
    {
        self.val
    }

    pub fn with_attr(self, attr: Attribute) -> (r: Self)
        ensures
            r@ == (ValueV::Number { n: self.val, attr: Some(attr@) }),
    {
        Number { val: self.val, attr: Some(attr) }
    }
}


impl View for BigNumber {
    type V = ValueV;

    open spec fn view(&self) -> ValueV {
        ValueV::BigNumber { neg: self.neg, digits: self.digits@, attr: view_attr_opt(self.attr) }
    }
}

impl BigNumber {
    /// Builds a big number from a sign and a run of decimal digits, reducing
    /// it to canonical form: leading zeros are dropped and zero is never
    /// negative.
    pub fn new(neg: bool, digits: Vec<u8>) -> (r: Self)
        requires
            digits@.len() >= 1,
            all_digits(digits@),
        ensures
            r@ == (ValueV::BigNumber {
                neg: neg && strip_zeros(digits@)[0] != 0x30,
                digits: strip_zeros(digits@),
                attr: Option::<PairsV>::None,
            }),
            valid_value(r@),
    {
        proof {
            lemma_strip_zeros(digits@);
            assert(digits@.skip(0) =~= digits@);
        }
        let mut k: usize = 0;
        let len = digits.len();
        while k + 1 < len && digits[k] == 0x30
            invariant
                0 <= k < len,
                len == digits@.len(),
                digits@.len() >= 1,
                all_digits(digits@),
                strip_zeros(digits@) == strip_zeros(digits@.skip(k as int)),
            decreases len - k,
        {
            proof {
                assert(digits@.skip(k as int).len() > 1);
                assert(digits@.skip(k as int)[0] == digits@[k as int]);
                assert(digits@.skip(k as int).drop_first() =~= digits@.skip(k + 1));
            }
            k = k + 1;
        }
        proof {
            let rest = digits@.skip(k as int);
            assert(rest[0] == digits@[k as int]);
            if rest.len() > 1 {
                assert(digits@[k as int] != 0x30);
            }
            assert(strip_zeros(rest) == rest);
        }
        let mut out: Vec<u8> = Vec::new();
        let mut i: usize = k;
        while i < len
            invariant
                k <= i <= len,
                len == digits@.len(),
                out@ =~= digits@.subrange(k as int, i as int),
            decreases len - i,
        {
            let b = digits[i];
            out.push(b);
            assert(digits@.subrange(k as int, i + 1) =~= digits@.subrange(
                k as int,
                i as int,
            ).push(digits@[i as int]));
            i = i + 1;
        }
        assert(out@ =~= digits@.skip(k as int));
        let is_zero = out.len() == 1 && out[0] == 0x30;
        let final_neg = neg && !is_zero;
        proof {
            if !is_zero {
                assert(strip_zeros(digits@)[0] != 0x30);
            }
        }
        BigNumber { neg: final_neg, digits: out, attr: None }
    }

    /// The decimal literal of the number: an optional minus sign, then the
    /// canonical digits.
    pub fn literal(&self) -> (r: Vec<u8>)
        ensures
            r@ == (if self.neg {
                seq![MINUS]
            } else {
                Seq::<u8>::empty()
            }).add(self.digits@),
    {
        let mut out: Vec<u8> = Vec::new();
        if self.neg {
            out.push(MINUS);
        }
        let mut i: usize = 0;
        let ghost pre = out@;
        while i < self.digits.len()
            invariant
                0 <= i <= self.digits@.len(),
                out@ =~= pre.add(self.digits@.take(i as int)),
            decreases self.digits@.len() - i,
        {
            out.push(self.digits[i]);
            assert(self.digits@.take(i + 1) =~= self.digits@.take(i as int).push(
                self.digits@[i as int],
            ));
            i = i + 1;
        }
        assert(self.digits@.take(self.digits@.len() as int) =~= self.digits@);
        out
    }

    pub fn with_attr(self, attr: Attribute) -> (r: Self)
        ensures
            r@ == (ValueV::BigNumber {
                neg: self.neg,
                digits: self.digits@,
                attr: Some(attr@),
            }),
    {
        BigNumber { neg: self.neg, digits: self.digits, attr: Some(attr) }
    }
}

impl View for Double {
    type V = ValueV;

    open spec fn view(&self) -> ValueV {
        match *self {
            Double::Inf { sign, attr } => ValueV::Double {
                d: DoubleV::Inf(sign),
                attr: view_attr_opt(attr),
            },
            Double::Val { parts, attr } => ValueV::Double {
                d: DoubleV::Num(view_parts(parts)),
                attr: view_attr_opt(attr),
            },
        }
    }
}

impl Double {
    /// A finite double from its structural parts.
    pub fn from_parts(parts: Parts) -> (r: Self)
        ensures
            r@ == (ValueV::Double {
                d: DoubleV::Num(view_parts(parts)),
                attr: Option::<PairsV>::None,
            }),
    {
        Double::Val { parts, attr: None }
    }

    /// A signed infinity.
    pub fn inf(sign: Sign) -> (r: Self)
        ensures
            r@ == (ValueV::Double { d: DoubleV::Inf(sign), attr: Option::<PairsV>::None }),
    {
        Double::Inf { sign, attr: None }
    }

    pub fn with_attr(self, attr: Attribute) -> (r: Self)
        ensures
            r@ == (ValueV::Double { d: self@->Double_d, attr: Some(attr@) }),
    {
        match self {
            Double::Inf { sign, .. } => Double::Inf { sign, attr: Some(attr) },
            Double::Val { parts, .. } => Double::Val { parts, attr: Some(attr) },
        }
    }
}

impl View for SimpleString {
    type V = ValueV;

    open spec fn view(&self) -> ValueV {
        ValueV::SimpleString { data: self.val@, attr: view_attr_opt(self.attr) }
    }
}

impl SimpleString {
    /// Builds a simple string; the text must be nonempty, free of the
    /// delimiter bytes, and valid UTF-8.
    pub fn new(val: Vec<u8>) -> (r: Self)
        requires
            val@.len() >= 1,
            crate::model::no_crlf(val@),
            crate::utf8::is_utf8(val@),
        ensures
            r@ == (ValueV::SimpleString { data: val@, attr: Option::<PairsV>::None }),
    {
        SimpleString { val, attr: None }
    }

    pub fn val(&self) -> (r: &Vec<u8>)
        ensures
            r@ == self@->SimpleString_data,
    {
        &self.val
    }

    pub fn with_attr(self, attr: Attribute) -> (r: Self)
        ensures
            r@ == (ValueV::SimpleString { data: self.val@, attr: Some(attr@) }),
    {
        SimpleString { val: self.val, attr: Some(attr) }
    }
}

impl View for SimpleError {
    type V = ValueV;

    open spec fn view(&self) -> ValueV {
        ValueV::SimpleError { code: self.code@, msg: self.msg@, attr: view_attr_opt(self.attr) }
    }
}

impl SimpleError {
    /// Builds a simple error; the code must be uppercase letters, the
    /// message nonempty delimiter-free UTF-8.
    pub fn new(code: Vec<u8>, msg: Vec<u8>) -> (r: Self)
        requires
            code@.len() >= 1,
            crate::model::all_upper(code@),
            msg@.len() >= 1,
            crate::model::no_crlf(msg@),
            crate::utf8::is_utf8(msg@),
        ensures
            r@ == (ValueV::SimpleError { code: code@, msg: msg@, attr: Option::<PairsV>::None }),
    {
        SimpleError { code, msg, attr: None }
    }

    pub fn code(&self) -> (r: &Vec<u8>)
        ensures
            r@ == self@->SimpleError_code,
    {
        &self.code
    }

    pub fn msg(&self) -> (r: &Vec<u8>)
        ensures
            r@ == self@->SimpleError_msg,
    {
        &self.msg
    }

    pub fn with_attr(self, attr: Attribute) -> (r: Self)
        ensures
            r@ == (ValueV::SimpleError { code: self.code@, msg: self.msg@, attr: Some(attr@) }),
    {
        SimpleError { code: self.code, msg: self.msg, attr: Some(attr) }
    }
}

impl View for BlobString {
    type V = ValueV;

    open spec fn view(&self) -> ValueV {
        ValueV::BlobString { data: self.val@, attr: view_attr_opt(self.attr) }
    }
}

impl BlobString {
    pub fn new(val: Vec<u8>) -> (r: Self)
        ensures
            r@ == (ValueV::BlobString { data: val@, attr: Option::<PairsV>::None }),
    {
        BlobString { val, attr: None }
    }

    pub fn val(&self) -> (r: &Vec<u8>)
        ensures
            r@ == self@->BlobString_data,
    {
        &self.val
    }

    pub fn with_attr(self, attr: Attribute) -> (r: Self)
        ensures
            r@ == (ValueV::BlobString { data: self.val@, attr: Some(attr@) }),
    {
        BlobString { val: self.val, attr: Some(attr) }
    }
}

impl View for BlobError {
    type V = ValueV;

    open spec fn view(&self) -> ValueV {
        ValueV::BlobError { code: self.code@, msg: self.msg@, attr: view_attr_opt(self.attr) }
    }
}

impl BlobError {
    /// Builds a blob error; the code must be uppercase letters, and code,
    /// separator and message together must fit in one buffer.
    pub fn new(code: Vec<u8>, msg: Vec<u8>) -> (r: Self)
        requires
            code@.len() >= 1,
            crate::model::all_upper(code@),
            code@.len() + 1 + msg@.len() <= usize::MAX,
        ensures
            r@ == (ValueV::BlobError { code: code@, msg: msg@, attr: Option::<PairsV>::None }),
    {
        BlobError { code, msg, attr: None }
    }

    pub fn code(&self) -> (r: &Vec<u8>)
        ensures
            r@ == self@->BlobError_code,
    {
        &self.code
    }

    pub fn msg(&self) -> (r: &Vec<u8>)
        ensures
            r@ == self@->BlobError_msg,
    {
        &self.msg
    }

    pub fn with_attr(self, attr: Attribute) -> (r: Self)
        ensures
            r@ == (ValueV::BlobError { code: self.code@, msg: self.msg@, attr: Some(attr@) }),
    {
        BlobError { code: self.code, msg: self.msg, attr: Some(attr) }
    }
}

impl View for VerbatimString {
    type V = ValueV;

    open spec fn view(&self) -> ValueV {
        match *self {
            VerbatimString::Txt { val, attr } => ValueV::VerbatimString {
                kind: VerbKind::Txt,
                data: val@,
                attr: view_attr_opt(attr),
            },
            VerbatimString::Mkd { val, attr } => ValueV::VerbatimString {
                kind: VerbKind::Mkd,
                data: val@,
                attr: view_attr_opt(attr),
            },
        }
    }
}

impl VerbatimString {
    /// A verbatim string of subtype `txt`.
    pub fn txt(val: Vec<u8>) -> (r: Self)
        requires
            val@.len() + 4 <= usize::MAX,
        ensures
            r@ == (ValueV::VerbatimString {
                kind: VerbKind::Txt,
                data: val@,
                attr: Option::<PairsV>::None,
            }),
    {
        VerbatimString::Txt { val, attr: None }
    }

    /// A verbatim string of subtype `mkd`.
    pub fn mkd(val: Vec<u8>) -> (r: Self)
        requires
            val@.len() + 4 <= usize::MAX,
        ensures
            r@ == (ValueV::VerbatimString {
                kind: VerbKind::Mkd,
                data: val@,
                attr: Option::<PairsV>::None,
            }),
    {
        VerbatimString::Mkd { val, attr: None }
    }

    pub fn val(&self) -> (r: &Vec<u8>)
        ensures
            r@ == self@->VerbatimString_data,
    {
        match self {
            VerbatimString::Txt { val, .. } => val,
            VerbatimString::Mkd { val, .. } => val,
        }
    }

    pub fn with_attr(self, attr: Attribute) -> (r: Self)
        ensures
            r@ == (ValueV::VerbatimString {
                kind: self@->VerbatimString_kind,
                data: self@->VerbatimString_data,
                attr: Some(attr@),
            }),
    {
        match self {
            VerbatimString::Txt { val, .. } => VerbatimString::Txt { val, attr: Some(attr) },
            VerbatimString::Mkd { val, .. } => VerbatimString::Mkd { val, attr: Some(attr) },
        }
    }
}

impl View for Array {
    type V = ValueV;

    open spec fn view(&self) -> ValueV {
        ValueV::Array { items: view_items(self.val@), attr: view_attr_opt(self.attr) }
    }
}

impl Array {
    /// An array of the given values in the given order.
    pub fn new(val: Vec<Value>) -> (r: Self)
        ensures
            r@ == (ValueV::Array { items: view_items(val@), attr: Option::<PairsV>::None }),
    {
        Array { val, attr: None }
    }

    pub fn val(&self) -> (r: &Vec<Value>)
        ensures
            view_items(r@) == self@->Array_items,
    {
        &self.val
    }

    pub fn with_attr(self, attr: Attribute) -> (r: Self)
        ensures
            r@ == (ValueV::Array { items: view_items(self.val@), attr: Some(attr@) }),
    {
        Array { val: self.val, attr: Some(attr) }
    }
}

impl ValueSet {
    pub fn val(&self) -> (r: &Vec<Value>)
        ensures
            view_items(r@) == self@->ValueSet_items,
    {
        &self.val
    }

    pub fn with_attr(self, attr: Attribute) -> (r: Self)
        ensures
            r@ == (ValueV::ValueSet { items: view_items(self.val@), attr: Some(attr@) }),
    {
        ValueSet { val: self.val, attr: Some(attr) }
    }
}

impl View for ValueSet {
    type V = ValueV;

    open spec fn view(&self) -> ValueV {
        ValueV::ValueSet { items: view_items(self.val@), attr: view_attr_opt(self.attr) }
    }
}

impl ValueMap {
    pub fn val(&self) -> (r: &Vec<(Value, Value)>)
        ensures
            view_pairs(r@) == self@->ValueMap_pairs,
    {
        &self.val
    }

    pub fn with_attr(self, attr: Attribute) -> (r: Self)
        ensures
            r@ == (ValueV::ValueMap { pairs: view_pairs(self.val@), attr: Some(attr@) }),
    {
        ValueMap { val: self.val, attr: Some(attr) }
    }
}

impl View for ValueMap {
    type V = ValueV;

    open spec fn view(&self) -> ValueV {
        ValueV::ValueMap { pairs: view_pairs(self.val@), attr: view_attr_opt(self.attr) }
    }
}

impl Attribute {
    pub fn val(&self) -> (r: &Vec<(Value, Value)>)
        ensures
            view_pairs(r@) == self@,
    {
        &self.val
    }
}


/// Two runs are view-equal when they agree pointwise.
pub proof fn lemma_view_items_eq(a: Seq<Value>, b: Seq<ValueV>)
    requires
        b.len() == a.len(),
        forall|i: int| 0 <= i < a.len() ==> b[i] == view_value(#[trigger] a[i]),
    ensures
        view_items(a) == b,
{
    lemma_view_items(a);
    assert forall|i: int| 0 <= i < a.len() implies view_items(a)[i] == b[i] by {
        assert(view_items(a)[i] == view_value(a[i]));
        assert(b[i] == view_value(a[i]));
    }
    assert(view_items(a) =~= b);
}

/// Two pair runs are view-equal when they agree pointwise.
pub proof fn lemma_view_pairs_eq(a: Seq<(Value, Value)>, b: PairsV)
    requires
        b.len() == a.len(),
        forall|i: int|
            0 <= i < a.len() ==> b[i] == (
                view_value((#[trigger] a[i]).0),
                view_value(a[i].1),
            ),
    ensures
        view_pairs(a) == b,
{
    lemma_view_pairs(a);
    assert forall|i: int| 0 <= i < a.len() implies view_pairs(a)[i] == b[i] by {
        assert(view_pairs(a)[i] == (view_value(a[i].0), view_value(a[i].1)));
        assert(b[i] == (view_value(a[i].0), view_value(a[i].1)));
    }
    assert(view_pairs(a) =~= b);
}


impl Value {
    /// The same value with the given attribute attached in place of any
    /// present.
    pub fn attach_attr(self, a: Attribute) -> (r: Self)
        ensures
            r@ == crate::model::with_attr_of(self@, Some(a@)),
    {
        match self {
            Value::Array(x) => Value::Array(Array { val: x.val, attr: Some(a) }),
            Value::BigNumber(x) => Value::BigNumber(
                BigNumber { neg: x.neg, digits: x.digits, attr: Some(a) },
            ),
            Value::BlobError(x) => Value::BlobError(
                BlobError { code: x.code, msg: x.msg, attr: Some(a) },
            ),
            Value::BlobString(x) => Value::BlobString(BlobString { val: x.val, attr: Some(a) }),
            Value::Boolean(x) => Value::Boolean(Boolean { val: x.val, attr: Some(a) }),
            Value::Double(x) => Value::Double(
                match x {
                    Double::Inf { sign, .. } => Double::Inf { sign, attr: Some(a) },
                    Double::Val { parts, .. } => Double::Val { parts, attr: Some(a) },
                },
            ),
            Value::ValueMap(x) => Value::ValueMap(ValueMap { val: x.val, attr: Some(a) }),
            Value::Null(_) => Value::Null(Null { attr: Some(a) }),
            Value::Number(x) => Value::Number(Number { val: x.val, attr: Some(a) }),
            Value::ValueSet(x) => Value::ValueSet(ValueSet { val: x.val, attr: Some(a) }),
            Value::SimpleError(x) => Value::SimpleError(
                SimpleError { code: x.code, msg: x.msg, attr: Some(a) },
            ),
            Value::SimpleString(x) => Value::SimpleString(
                SimpleString { val: x.val, attr: Some(a) },
            ),
            Value::VerbatimString(x) => Value::VerbatimString(
                match x {
                    VerbatimString::Txt { val, .. } => VerbatimString::Txt {
                        val,
                        attr: Some(a),
                    },
                    VerbatimString::Mkd { val, .. } => VerbatimString::Mkd {
                        val,
                        attr: Some(a),
                    },
                },
            ),
        }
    }
}


/// A value and its model always carry the same variant tag.
pub proof fn lemma_view_variant(v: Value)
    ensures
        v is Array <==> v@ is Array,
        v is BigNumber <==> v@ is BigNumber,
        v is BlobError <==> v@ is BlobError,
        v is BlobString <==> v@ is BlobString,
        v is Boolean <==> v@ is Boolean,
        v is Double <==> v@ is Double,
        v is ValueMap <==> v@ is ValueMap,
        v is Null <==> v@ is Null,
        v is Number <==> v@ is Number,
        v is ValueSet <==> v@ is ValueSet,
        v is SimpleError <==> v@ is SimpleError,
        v is SimpleString <==> v@ is SimpleString,
        v is VerbatimString <==> v@ is VerbatimString,
{
    match v {
        Value::Array(x) => {
            assert(v@ is Array);
        },
        Value::BigNumber(x) => {
            assert(v@ is BigNumber);
        },
        Value::BlobError(x) => {
            assert(v@ is BlobError);
        },
        Value::BlobString(x) => {
            assert(v@ is BlobString);
        },
        Value::Boolean(x) => {
            assert(v@ is Boolean);
        },
        Value::Double(x) => {
            assert(v@ is Double);
        },
        Value::ValueMap(x) => {
            assert(v@ is ValueMap);
        },
        Value::Null(x) => {
            assert(v@ is Null);
        },
        Value::Number(x) => {
            assert(v@ is Number);
        },
        Value::ValueSet(x) => {
            assert(v@ is ValueSet);
        },
        Value::SimpleError(x) => {
            assert(v@ is SimpleError);
        },
        Value::SimpleString(x) => {
            assert(v@ is SimpleString);
        },
        Value::VerbatimString(x) => {
            assert(v@ is VerbatimString);
        },
    }
}

impl Null {
    /// The attribute attached to this value, if any.
    pub fn attr(&self) -> (r: &Option<Attribute>)
        ensures
            r == &self.attr,
            view_attr_opt(*r) == crate::model::attr_of(self@),
    {
        &self.attr
    }
}

impl Boolean {
    /// The attribute attached to this value, if any.
    pub fn attr(&self) -> (r: &Option<Attribute>)
        ensures
            r == &self.attr,
            view_attr_opt(*r) == crate::model::attr_of(self@),
    {
        &self.attr
    }
}

impl Number {
    /// The attribute attached to this value, if any.
    pub fn attr(&self) -> (r: &Option<Attribute>)
        ensures
            r == &self.attr,
            view_attr_opt(*r) == crate::model::attr_of(self@),
    {
        &self.attr
    }
}

impl BigNumber {
    /// The attribute attached to this value, if any.
    pub fn attr(&self) -> (r: &Option<Attribute>)
        ensures
            r == &self.attr,
            view_attr_opt(*r) == crate::model::attr_of(self@),
    {
        &self.attr
    }
}

impl SimpleString {
    /// The attribute attached to this value, if any.
    pub fn attr(&self) -> (r: &Option<Attribute>)
        ensures
            r == &self.attr,
            view_attr_opt(*r) == crate::model::attr_of(self@),
    {
        &self.attr
    }
}

impl SimpleError {
    /// The attribute attached to this value, if any.
    pub fn attr(&self) -> (r: &Option<Attribute>)
        ensures
            r == &self.attr,
            view_attr_opt(*r) == crate::model::attr_of(self@),
    {
        &self.attr
    }
}

impl BlobString {
    /// The attribute attached to this value, if any.
    pub fn attr(&self) -> (r: &Option<Attribute>)
        ensures
            r == &self.attr,
            view_attr_opt(*r) == crate::model::attr_of(self@),
    {
        &self.attr
    }
}

impl BlobError {
    /// The attribute attached to this value, if any.
    pub fn attr(&self) -> (r: &Option<Attribute>)
        ensures
            r == &self.attr,
            view_attr_opt(*r) == crate::model::attr_of(self@),
    {
        &self.attr
    }
}

impl Array {
    /// The attribute attached to this value, if any.
    pub fn attr(&self) -> (r: &Option<Attribute>)
        ensures
            r == &self.attr,
            view_attr_opt(*r) == crate::model::attr_of(self@),
    {
        &self.attr
    }
}

impl ValueSet {
    /// The attribute attached to this value, if any.
    pub fn attr(&self) -> (r: &Option<Attribute>)
        ensures
            r == &self.attr,
            view_attr_opt(*r) == crate::model::attr_of(self@),
    {
        &self.attr
    }
}

impl ValueMap {
    /// The attribute attached to this value, if any.
    pub fn attr(&self) -> (r: &Option<Attribute>)
        ensures
            r == &self.attr,
            view_attr_opt(*r) == crate::model::attr_of(self@),
    {
        &self.attr
    }
}

impl Double {
    /// The attribute attached to this value, if any.
    pub fn attr(&self) -> (r: &Option<Attribute>)
        ensures
            view_attr_opt(*r) == crate::model::attr_of(self@),
    {
        match self {
            Double::Inf { attr, .. } => attr,
            Double::Val { attr, .. } => attr,
        }
    }
}

impl VerbatimString {
    /// The attribute attached to this value, if any.
    pub fn attr(&self) -> (r: &Option<Attribute>)
        ensures
            view_attr_opt(*r) == crate::model::attr_of(self@),
    {
        match self {
            VerbatimString::Txt { attr, .. } => attr,
            VerbatimString::Mkd { attr, .. } => attr,
        }
    }
}

} // verus!
