//! Executable well-formedness checking.
//!
//! `Value::is_well_formed` decides `valid_value` at run time, so that
//! unverified callers — which can build values field by field — can guard a
//! call to `serialize` or to a constructor whose contract demands a
//! well-formed value.  Every value the parser or the constructors return is
//! well formed already; this check is for values built by hand.

use vstd::prelude::*;

use crate::digits::is_digit;
use crate::lexord::{lemma_lex_cmp_trans, lex_cmp, lex_compare};
use crate::model::{
    all_upper, is_upper, no_crlf, ser_value, sorted_items, sorted_pairs, valid_attr_opt,
    valid_items, valid_pairs, valid_value, lemma_valid_items_index, lemma_valid_pairs_index,
    ValueV, CR, LF,
};
use crate::value::{
    lemma_view_items, lemma_view_pairs, view_attr_opt, view_items, view_pairs, view_value,
    Array, Attribute, BigNumber, BlobError, BlobString, Boolean, Double, Null, Number,
    SimpleError, SimpleString, Value, ValueMap, ValueSet, VerbatimString,
};

verus! {

/// Decides whether every byte is an ASCII digit.
fn bytes_all_digits(v: &Vec<u8>) -> (r: bool)
    ensures
        r == crate::digits::all_digits(v@),
{
    let mut i: usize = 0;
    while i < v.len()
        invariant
            0 <= i <= v@.len(),
            forall|j: int| 0 <= j < i ==> is_digit(#[trigger] v@[j]),
        decreases v@.len() - i,
    {
        let b = v[i];
        if !(0x30 <= b && b <= 0x39) {
            assert(!is_digit(v@[i as int]));
            return false;
        }
        i = i + 1;
    }
    true
}

/// Decides whether every byte is an uppercase ASCII letter.
fn bytes_all_upper(v: &Vec<u8>) -> (r: bool)
    ensures
        r == all_upper(v@),
{
    let mut i: usize = 0;
    while i < v.len()
        invariant
            0 <= i <= v@.len(),
            forall|j: int| 0 <= j < i ==> is_upper(#[trigger] v@[j]),
        decreases v@.len() - i,
    {
        let b = v[i];
        if !(0x41 <= b && b <= 0x5A) {
            assert(!is_upper(v@[i as int]));
            return false;
        }
        i = i + 1;
    }
    true
}

/// Decides whether no byte is a carriage return or line feed.
fn bytes_no_crlf(v: &Vec<u8>) -> (r: bool)
    ensures
        r == no_crlf(v@),
{
    let mut i: usize = 0;
    while i < v.len()
        invariant
            0 <= i <= v@.len(),
            forall|j: int| 0 <= j < i ==> #[trigger] v@[j] != CR && v@[j] != LF,
        decreases v@.len() - i,
    {
        let b = v[i];
        if b == CR || b == LF {
            return false;
        }
        i = i + 1;
    }
    true
}

/// Decides whether the whole byte vector is well-formed UTF-8.
fn bytes_utf8(v: &Vec<u8>) -> (r: bool)
    ensures
        r == crate::utf8::is_utf8(v@),
{
    let n = v.len();
    let r = crate::utf8::check_utf8_range(v.as_slice(), 0, n);
    proof {
        assert(v@.subrange(0, v@.len() as int) =~= v@);
    }
    r
}

/// A run whose adjacent images ascend is ascending between any two indices.
proof fn lemma_lex_chain_items(s: Seq<ValueV>, i: int, j: int)
    requires
        forall|k: int|
            0 <= k && k + 1 < s.len() ==> lex_cmp(
                ser_value(#[trigger] s[k]),
                ser_value(s[k + 1]),
            ) == -1,
        0 <= i < j < s.len(),
    ensures
        lex_cmp(ser_value(s[i]), ser_value(s[j])) == -1,
    decreases j - i,
{
    if j == i + 1 {
        assert(lex_cmp(ser_value(s[i]), ser_value(s[i + 1])) == -1);
    } else {
        lemma_lex_chain_items(s, i, j - 1);
        assert(lex_cmp(ser_value(s[j - 1]), ser_value(s[j])) == -1);
        lemma_lex_cmp_trans(ser_value(s[i]), ser_value(s[j - 1]), ser_value(s[j]));
    }
}

/// A pair run whose adjacent key images ascend is ascending between any two
/// indices.
proof fn lemma_lex_chain_pairs(ps: Seq<(ValueV, ValueV)>, i: int, j: int)
    requires
        forall|k: int|
            0 <= k && k + 1 < ps.len() ==> lex_cmp(
                ser_value((#[trigger] ps[k]).0),
                ser_value(ps[k + 1].0),
            ) == -1,
        0 <= i < j < ps.len(),
    ensures
        lex_cmp(ser_value(ps[i].0), ser_value(ps[j].0)) == -1,
    decreases j - i,
{
    if j == i + 1 {
        assert(lex_cmp(ser_value(ps[i].0), ser_value(ps[i + 1].0)) == -1);
    } else {
        lemma_lex_chain_pairs(ps, i, j - 1);
        assert(lex_cmp(ser_value(ps[j - 1].0), ser_value(ps[j].0)) == -1);
        lemma_lex_cmp_trans(ser_value(ps[i].0), ser_value(ps[j - 1].0), ser_value(ps[j].0));
    }
}

/// Compares the wire images of the elements at `k` and `k + 1`.
#[verifier::rlimit(50)]
fn item_ascends_at(items: &Vec<Value>, k: usize) -> (r: bool)
    requires
        valid_items(view_items(items@)),
        items@.len() <= usize::MAX,
        k + 1 < items@.len(),
    ensures
        r == (lex_cmp(
            ser_value(view_items(items@)[k as int]),
            ser_value(view_items(items@)[k as int + 1]),
        ) == -1),
{
    proof {
        lemma_view_items(items@);
        lemma_valid_items_index(view_items(items@));
        assert(view_items(items@)[k as int] == view_value(items@[k as int]));
        assert(view_items(items@)[k as int + 1] == view_value(items@[k as int + 1]));
    }
    let a = items[k].serialize();
    let b = items[k + 1].serialize();
    let c = lex_compare(&a, &b);
    c == -1
}

/// Compares the wire images of the keys at `k` and `k + 1`.
#[verifier::rlimit(50)]
fn pair_keys_ascend_at(pairs: &Vec<(Value, Value)>, k: usize) -> (r: bool)
    requires
        valid_pairs(view_pairs(pairs@)),
        pairs@.len() <= usize::MAX,
        k + 1 < pairs@.len(),
    ensures
        r == (lex_cmp(
            ser_value(view_pairs(pairs@)[k as int].0),
            ser_value(view_pairs(pairs@)[k as int + 1].0),
        ) == -1),
{
    proof {
        lemma_view_pairs(pairs@);
        lemma_valid_pairs_index(view_pairs(pairs@));
        assert(view_pairs(pairs@)[k as int] == (view_value(pairs@[k as int].0), view_value(
            pairs@[k as int].1,
        )));
        assert(view_pairs(pairs@)[k as int + 1] == (view_value(pairs@[k as int + 1].0),
        view_value(pairs@[k as int + 1].1)));
    }
    let a = pairs[k].0.serialize();
    let b = pairs[k + 1].0.serialize();
    let c = lex_compare(&a, &b);
    c == -1
}

/// Decides whether a run of well-formed values ascends strictly by wire
/// image.
#[verifier::rlimit(50)]
fn check_sorted_items(items: &Vec<Value>) -> (r: bool)
    requires
        valid_items(view_items(items@)),
    ensures
        r == sorted_items(view_items(items@)),
{
    let n = items.len();
    proof {
        lemma_view_items(items@);
    }
    if n < 2 {
        return true;
    }
    let mut k: usize = 0;
    while k < n - 1
        invariant
            0 <= k <= n - 1,
            2 <= n,
            n == items@.len(),
            valid_items(view_items(items@)),
            view_items(items@).len() == items@.len(),
            forall|w: int|
                0 <= w < k ==> lex_cmp(
                    ser_value(#[trigger] view_items(items@)[w]),
                    ser_value(view_items(items@)[w + 1]),
                ) == -1,
        decreases n - k,
    {
        let ok = item_ascends_at(items, k);
        if !ok {
            proof {
                let vs = view_items(items@);
                if sorted_items(vs) {
                    assert(lex_cmp(ser_value(vs[k as int]), ser_value(vs[k as int + 1]))
                        == -1);
                }
            }
            return false;
        }
        k = k + 1;
    }
    proof {
        let vs = view_items(items@);
        assert forall|i: int, j: int| #![trigger vs[i], vs[j]]
            0 <= i < j < vs.len() implies lex_cmp(ser_value(vs[i]), ser_value(vs[j]))
            == -1 by {
            assert forall|w: int|
                0 <= w && w + 1 < vs.len() implies lex_cmp(
                ser_value(#[trigger] vs[w]),
                ser_value(vs[w + 1]),
            ) == -1 by {
                assert(lex_cmp(ser_value(view_items(items@)[w]), ser_value(
                    view_items(items@)[w + 1],
                )) == -1);
            }
            lemma_lex_chain_items(vs, i, j);
        }
    }
    true
}

/// Decides whether a run of well-formed pairs ascends strictly by the keys'
/// wire images.
#[verifier::rlimit(50)]
fn check_sorted_pairs(pairs: &Vec<(Value, Value)>) -> (r: bool)
    requires
        valid_pairs(view_pairs(pairs@)),
    ensures
        r == sorted_pairs(view_pairs(pairs@)),
{
    let n = pairs.len();
    proof {
        lemma_view_pairs(pairs@);
    }
    if n < 2 {
        return true;
    }
    let mut k: usize = 0;
    while k < n - 1
        invariant
            0 <= k <= n - 1,
            2 <= n,
            n == pairs@.len(),
            valid_pairs(view_pairs(pairs@)),
            view_pairs(pairs@).len() == pairs@.len(),
            forall|w: int|
                0 <= w < k ==> lex_cmp(
                    ser_value((#[trigger] view_pairs(pairs@)[w]).0),
                    ser_value(view_pairs(pairs@)[w + 1].0),
                ) == -1,
        decreases n - k,
    {
        let ok = pair_keys_ascend_at(pairs, k);
        if !ok {
            proof {
                let ps = view_pairs(pairs@);
                if sorted_pairs(ps) {
                    assert(lex_cmp(ser_value(ps[k as int].0), ser_value(ps[k as int + 1].0))
                        == -1);
                }
            }
            return false;
        }
        k = k + 1;
    }
    proof {
        let ps = view_pairs(pairs@);
        assert forall|i: int, j: int| #![trigger ps[i], ps[j]]
            0 <= i < j < ps.len() implies lex_cmp(ser_value(ps[i].0), ser_value(ps[j].0))
            == -1 by {
            assert forall|w: int|
                0 <= w && w + 1 < ps.len() implies lex_cmp(
                ser_value((#[trigger] ps[w]).0),
                ser_value(ps[w + 1].0),
            ) == -1 by {
                assert(lex_cmp(ser_value(view_pairs(pairs@)[w].0), ser_value(
                    view_pairs(pairs@)[w + 1].0,
                )) == -1);
            }
            lemma_lex_chain_pairs(ps, i, j);
        }
    }
    true
}

/// Decides well-formedness of every value in a run.
fn check_items(items: &Vec<Value>) -> (r: bool)
    ensures
        r == valid_items(view_items(items@)),
    decreases *items,
{
    proof {
        lemma_view_items(items@);
        lemma_valid_items_index(view_items(items@));
    }
    let mut k: usize = 0;
    while k < items.len()
        invariant
            0 <= k <= items@.len(),
            view_items(items@).len() == items@.len(),
            forall|i: int|
                0 <= i < items@.len() ==> view_items(items@)[i] == view_value(
                    #[trigger] items@[i],
                ),
            forall|i: int| 0 <= i < k ==> valid_value(#[trigger] view_items(items@)[i]),
        decreases items@.len() - k,
    {
        if !check_value(&items[k]) {
            proof {
                lemma_valid_items_index(view_items(items@));
                assert(!valid_value(view_items(items@)[k as int]));
            }
            return false;
        }
        k = k + 1;
    }
    proof {
        lemma_valid_items_index(view_items(items@));
    }
    true
}

/// Decides well-formedness of every key and value in a run of pairs.
fn check_pairs(pairs: &Vec<(Value, Value)>) -> (r: bool)
    ensures
        r == valid_pairs(view_pairs(pairs@)),
    decreases *pairs,
{
    proof {
        lemma_view_pairs(pairs@);
        lemma_valid_pairs_index(view_pairs(pairs@));
    }
    let mut k: usize = 0;
    while k < pairs.len()
        invariant
            0 <= k <= pairs@.len(),
            view_pairs(pairs@).len() == pairs@.len(),
            forall|i: int|
                0 <= i < pairs@.len() ==> view_pairs(pairs@)[i] == (
                    view_value((#[trigger] pairs@[i]).0),
                    view_value(pairs@[i].1),
                ),
            forall|i: int|
                0 <= i < k ==> valid_value((#[trigger] view_pairs(pairs@)[i]).0)
                    && valid_value(view_pairs(pairs@)[i].1),
        decreases pairs@.len() - k,
    {
        if !check_value(&pairs[k].0) {
            proof {
                lemma_valid_pairs_index(view_pairs(pairs@));
                assert(!valid_value(view_pairs(pairs@)[k as int].0));
            }
            return false;
        }
        if !check_value(&pairs[k].1) {
            proof {
                lemma_valid_pairs_index(view_pairs(pairs@));
                assert(!valid_value(view_pairs(pairs@)[k as int].1));
            }
            return false;
        }
        k = k + 1;
    }
    proof {
        lemma_valid_pairs_index(view_pairs(pairs@));
    }
    true
}

/// Decides well-formedness of an optional attribute.
fn check_attr_opt(attr: &Option<Attribute>) -> (r: bool)
    ensures
        r == valid_attr_opt(view_attr_opt(*attr)),
    decreases *attr,
{
    let ghost g = view_attr_opt(*attr);
    match attr {
        Option::None => {
            proof {
                assert(g is None);
            }
            true
        },
        Option::Some(a) => {
            let ghost ps = view_pairs(a.val@);
            proof {
                assert(g == Some(ps));
                vstd::std_specs::vec::axiom_spec_len(&a.val);
                lemma_view_pairs(a.val@);
                assert(ps.len() <= usize::MAX);
            }
            let ok1 = check_pairs(&a.val);
            if !ok1 {
                proof {
                    assert(!valid_attr_opt(g));
                }
                return false;
            }
            let ok2 = check_sorted_pairs(&a.val);
            proof {
                assert(valid_attr_opt(g) == sorted_pairs(ps));
            }
            ok2
        },
    }
}

fn check_null(x: &Null) -> (r: bool)
    ensures
        r == valid_value(x@),
    decreases *x,
{
    check_attr_opt(&x.attr)
}

fn check_boolean(x: &Boolean) -> (r: bool)
    ensures
        r == valid_value(x@),
    decreases *x,
{
    check_attr_opt(&x.attr)
}

fn check_number(x: &Number) -> (r: bool)
    ensures
        r == valid_value(x@),
    decreases *x,
{
    check_attr_opt(&x.attr)
}

fn check_big_number(x: &BigNumber) -> (r: bool)
    ensures
        r == valid_value(x@),
    decreases *x,
{
    if x.digits.len() < 1 {
        return false;
    }
    if !bytes_all_digits(&x.digits) {
        return false;
    }
    if x.digits[0] == 0x30 && x.digits.len() != 1 {
        return false;
    }
    if x.neg && x.digits[0] == 0x30 {
        return false;
    }
    check_attr_opt(&x.attr)
}

fn check_double(x: &Double) -> (r: bool)
    ensures
        r == valid_value(x@),
    decreases *x,
{
    match x {
        Double::Inf { attr, .. } => check_attr_opt(attr),
        Double::Val { parts, attr } => {
            if parts.int.len() < 1 {
                return false;
            }
            if !bytes_all_digits(&parts.int) {
                return false;
            }
            match &parts.frac {
                Option::Some(f) => {
                    if f.len() < 1 {
                        return false;
                    }
                    if !bytes_all_digits(f) {
                        return false;
                    }
                },
                Option::None => {},
            }
            check_attr_opt(attr)
        },
    }
}

fn check_simple_string(x: &SimpleString) -> (r: bool)
    ensures
        r == valid_value(x@),
    decreases *x,
{
    if x.val.len() < 1 {
        return false;
    }
    if !bytes_no_crlf(&x.val) {
        return false;
    }
    if !bytes_utf8(&x.val) {
        return false;
    }
    check_attr_opt(&x.attr)
}

fn check_simple_error(x: &SimpleError) -> (r: bool)
    ensures
        r == valid_value(x@),
    decreases *x,
{
    if x.code.len() < 1 {
        return false;
    }
    if !bytes_all_upper(&x.code) {
        return false;
    }
    if x.msg.len() < 1 {
        return false;
    }
    if !bytes_no_crlf(&x.msg) {
        return false;
    }
    if !bytes_utf8(&x.msg) {
        return false;
    }
    check_attr_opt(&x.attr)
}

fn check_blob_string(x: &BlobString) -> (r: bool)
    ensures
        r == valid_value(x@),
    decreases *x,
{
    proof {
        vstd::std_specs::vec::axiom_spec_len(&x.val);
    }
    check_attr_opt(&x.attr)
}

fn check_blob_error(x: &BlobError) -> (r: bool)
    ensures
        r == valid_value(x@),
    decreases *x,
{
    if x.code.len() < 1 {
        return false;
    }
    if !bytes_all_upper(&x.code) {
        return false;
    }
    if x.code.len() > usize::MAX - 1 {
        return false;
    }
    if x.msg.len() > usize::MAX - 1 - x.code.len() {
        return false;
    }
    check_attr_opt(&x.attr)
}

fn check_verbatim(x: &VerbatimString) -> (r: bool)
    ensures
        r == valid_value(x@),
    decreases *x,
{
    match x {
        VerbatimString::Txt { val, attr } => {
            if val.len() > usize::MAX - 4 {
                return false;
            }
            check_attr_opt(attr)
        },
        VerbatimString::Mkd { val, attr } => {
            if val.len() > usize::MAX - 4 {
                return false;
            }
            check_attr_opt(attr)
        },
    }
}

fn check_array(x: &Array) -> (r: bool)
    ensures
        r == valid_value(x@),
    decreases *x,
{
    proof {
        vstd::std_specs::vec::axiom_spec_len(&x.val);
        lemma_view_items(x.val@);
    }
    if !check_items(&x.val) {
        return false;
    }
    check_attr_opt(&x.attr)
}

fn check_set(x: &ValueSet) -> (r: bool)
    ensures
        r == valid_value(x@),
    decreases *x,
{
    proof {
        vstd::std_specs::vec::axiom_spec_len(&x.val);
        lemma_view_items(x.val@);
    }
    if !check_items(&x.val) {
        return false;
    }
    if !check_sorted_items(&x.val) {
        return false;
    }
    check_attr_opt(&x.attr)
}

fn check_map(x: &ValueMap) -> (r: bool)
    ensures
        r == valid_value(x@),
    decreases *x,
{
    proof {
        vstd::std_specs::vec::axiom_spec_len(&x.val);
        lemma_view_pairs(x.val@);
    }
    if !check_pairs(&x.val) {
        return false;
    }
    if !check_sorted_pairs(&x.val) {
        return false;
    }
    check_attr_opt(&x.attr)
}

/// Decides well-formedness of one value, children included.
fn check_value(v: &Value) -> (r: bool)
    ensures
        r == valid_value(v@),
    decreases *v,
{
    match v {
        Value::Null(x) => check_null(x),
        Value::Boolean(x) => check_boolean(x),
        Value::Number(x) => check_number(x),
        Value::BigNumber(x) => check_big_number(x),
        Value::Double(x) => check_double(x),
        Value::SimpleString(x) => check_simple_string(x),
        Value::SimpleError(x) => check_simple_error(x),
        Value::BlobString(x) => check_blob_string(x),
        Value::BlobError(x) => check_blob_error(x),
        Value::VerbatimString(x) => check_verbatim(x),
        Value::Array(x) => check_array(x),
        Value::ValueSet(x) => check_set(x),
        Value::ValueMap(x) => check_map(x),
    }
}

impl Value {
    /// Decides whether this value is well formed: the payload grammar of
    /// every node holds (uppercase codes, nonempty delimiter-free UTF-8
    /// text, canonical big-number digits, nonempty double digit runs),
    /// every set and map is sorted by wire image with distinct keys, and
    /// the declared lengths fit the machine.  `serialize` may be called
    /// exactly on values for which this returns true.
    pub fn is_well_formed(&self) -> (r: bool)
        ensures
            r == valid_value(self@),
    {
        check_value(self)
    }
}

impl Attribute {
    /// Decides whether this attribute is well formed: every key and value
    /// is, and the keys ascend strictly by wire image.
    pub fn is_well_formed(&self) -> (r: bool)
        ensures
            r == valid_attr_opt(Some(self@)),
    {
        let ghost ps = view_pairs(self.val@);
        proof {
            vstd::std_specs::vec::axiom_spec_len(&self.val);
            lemma_view_pairs(self.val@);
            assert(self@ == ps);
            assert(ps.len() <= usize::MAX);
        }
        let ok1 = check_pairs(&self.val);
        if !ok1 {
            proof {
                assert(!valid_attr_opt(Some(ps)));
            }
            return false;
        }
        let ok2 = check_sorted_pairs(&self.val);
        proof {
            assert(valid_attr_opt(Some(ps)) == sorted_pairs(ps));
        }
        ok2
    }
}

} // verus!
