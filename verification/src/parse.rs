//! The parser.
//!
//! The grammar is stated once, as the `sp_*` spec functions over a byte
//! sequence and a cursor; the executable parser is proved to return exactly
//! what they say, errors included.  Every number, length and count is a
//! greedy decimal digit run; every payload ends in `\r\n`; values nest up to
//! `MAX_DEPTH` levels, beyond which parsing fails cleanly.

use vstd::prelude::*;

use crate::canon::{canon_items, canon_pairs};
use crate::digits::{digits_val, is_digit, strip_zeros, lemma_strip_zeros};
use crate::errors::ParseError;
use crate::model::{
    valid_value, PairsV, ValueV, CR, LF, SP, MINUS, DOT, COLON, D_ARRAY, D_ATTRIBUTE, D_BIG_NUMBER,
    D_BLOB_ERROR, D_BLOB_STRING, D_BOOLEAN, D_DOUBLE, D_MAP, D_NULL, D_NUMBER, D_SET,
    D_SIMPLE_ERROR, D_SIMPLE_STRING, D_VERBATIM_STRING,
};
use crate::utf8::is_utf8;
use crate::value::{
    view_attr_opt, view_items, view_pairs, view_value, lemma_view_items, lemma_view_pairs,
    Array, Attribute, BigNumber, BlobError, BlobString, Boolean, Double, Null, Number, Parts,
    Sign, SimpleError, SimpleString, Value, ValueMap, ValueSet, VerbKind, VerbatimString,
};

verus! {

broadcast use vstd::prelude::Seq::add_empty_left, vstd::prelude::Seq::add_empty_right;

/// The end of the greedy digit run starting at `i`.
pub open spec fn digits_end(s: Seq<u8>, i: int) -> int
    decreases s.len() - i,
{
    if 0 <= i < s.len() && is_digit(s[i]) {
        digits_end(s, i + 1)
    } else {
        i
    }
}

/// The end of the greedy run of non-delimiter bytes starting at `i`.
pub open spec fn text_end(s: Seq<u8>, i: int) -> int
    decreases s.len() - i,
{
    if 0 <= i < s.len() && s[i] != CR && s[i] != LF {
        text_end(s, i + 1)
    } else {
        i
    }
}

/// The end of the greedy run of uppercase letters starting at `i`.
pub open spec fn upper_end(s: Seq<u8>, i: int) -> int
    decreases s.len() - i,
{
    if 0 <= i < s.len() && crate::model::is_upper(s[i]) {
        upper_end(s, i + 1)
    } else {
        i
    }
}

/// What the digit scanner returns: the run's bounds, its bytes, and where
/// it stops.
pub proof fn lemma_digits_end(s: Seq<u8>, i: int)
    requires
        0 <= i <= s.len(),
    ensures
        i <= digits_end(s, i) <= s.len(),
        forall|j: int| i <= j < digits_end(s, i) ==> is_digit(#[trigger] s[j]),
        digits_end(s, i) < s.len() ==> !is_digit(s[digits_end(s, i)]),
    decreases s.len() - i,
{
    if i < s.len() && is_digit(s[i]) {
        lemma_digits_end(s, i + 1);
    }
}

pub proof fn lemma_text_end(s: Seq<u8>, i: int)
    requires
        0 <= i <= s.len(),
    ensures
        i <= text_end(s, i) <= s.len(),
        forall|j: int|
            i <= j < text_end(s, i) ==> #[trigger] s[j] != CR && s[j] != LF,
        text_end(s, i) < s.len() ==> s[text_end(s, i)] == CR || s[text_end(s, i)] == LF,
    decreases s.len() - i,
{
    if i < s.len() && s[i] != CR && s[i] != LF {
        lemma_text_end(s, i + 1);
    }
}

pub proof fn lemma_upper_end(s: Seq<u8>, i: int)
    requires
        0 <= i <= s.len(),
    ensures
        i <= upper_end(s, i) <= s.len(),
        forall|j: int| i <= j < upper_end(s, i) ==> crate::model::is_upper(#[trigger] s[j]),
        upper_end(s, i) < s.len() ==> !crate::model::is_upper(s[upper_end(s, i)]),
    decreases s.len() - i,
{
    if i < s.len() && crate::model::is_upper(s[i]) {
        lemma_upper_end(s, i + 1);
    }
}

/// A run of digits ending before a non-digit is exactly what the scanner
/// finds.
pub proof fn lemma_digits_end_char(s: Seq<u8>, i: int, j: int)
    requires
        0 <= i <= j <= s.len(),
        forall|w: int| i <= w < j ==> is_digit(#[trigger] s[w]),
        j == s.len() || !is_digit(s[j]),
    ensures
        digits_end(s, i) == j,
    decreases j - i,
{
    if i < j {
        lemma_digits_end_char(s, i + 1, j);
    }
}

pub proof fn lemma_text_end_char(s: Seq<u8>, i: int, j: int)
    requires
        0 <= i <= j <= s.len(),
        forall|w: int| i <= w < j ==> #[trigger] s[w] != CR && s[w] != LF,
        j == s.len() || s[j] == CR || s[j] == LF,
    ensures
        text_end(s, i) == j,
    decreases j - i,
{
    if i < j {
        lemma_text_end_char(s, i + 1, j);
    }
}

pub proof fn lemma_upper_end_char(s: Seq<u8>, i: int, j: int)
    requires
        0 <= i <= j <= s.len(),
        forall|w: int| i <= w < j ==> crate::model::is_upper(#[trigger] s[w]),
        j == s.len() || !crate::model::is_upper(s[j]),
    ensures
        upper_end(s, i) == j,
    decreases j - i,
{
    if i < j {
        lemma_upper_end_char(s, i + 1, j);
    }
}

/// Scans the digit run starting at `i` and accumulates its value, noting
/// when the value no longer fits in 64 bits.
fn scan_digits(s: &[u8], i: usize) -> (r: (usize, u64, bool))
    requires
        i <= s@.len(),
    ensures
        r.0 as int == digits_end(s@, i as int),
        i <= r.0 <= s@.len(),
        !r.2 ==> r.1 as nat == digits_val(s@.subrange(i as int, r.0 as int)),
        r.2 <==> digits_val(s@.subrange(i as int, r.0 as int)) > u64::MAX,
{
    proof {
        lemma_digits_end(s@, i as int);
    }
    let ghost e = digits_end(s@, i as int);
    let mut k: usize = i;
    let mut acc: u64 = 0;
    let mut over: bool = false;
    proof {
        assert(s@.subrange(i as int, i as int) =~= Seq::<u8>::empty());
        assert(digits_val(Seq::<u8>::empty()) == 0);
    }
    loop
        invariant_except_break
            i <= k <= s@.len(),
            k <= e <= s@.len(),
            e == digits_end(s@, i as int),
            forall|j: int| i <= j < e ==> is_digit(#[trigger] s@[j]),
            e < s@.len() ==> !is_digit(s@[e as int]),
            !over ==> acc as nat == digits_val(s@.subrange(i as int, k as int)),
            over <==> digits_val(s@.subrange(i as int, k as int)) > u64::MAX,
        ensures
            k == e,
            !over ==> acc as nat == digits_val(s@.subrange(i as int, k as int)),
            over <==> digits_val(s@.subrange(i as int, k as int)) > u64::MAX,
        decreases s@.len() - k,
    {
        if k >= s.len() {
            proof {
                assert(k == e);
            }
            break;
        }
        let b = *vstd::slice::slice_index_get(s, k);
        if !(0x30 <= b && b <= 0x39) {
            proof {
                assert(!is_digit(s@[k as int]));
                assert(k == e) by {
                    if k < e {
                        assert(is_digit(s@[k as int]));
                    }
                }
            }
            break;
        }
        proof {
            assert(is_digit(s@[k as int]));
            assert(k < e) by {
                if k == e {
                    assert(!is_digit(s@[e as int]));
                }
            }
        }
        let d: u64 = (b - 0x30) as u64;
        let ghost run0 = s@.subrange(i as int, k as int);
        let ghost run1 = s@.subrange(i as int, k + 1);
        proof {
            assert(run1 =~= run0.push(s@[k as int]));
            crate::digits::lemma_digits_val_push(run0, s@[k as int]);
            assert(digits_val(run1) == 10 * digits_val(run0) + d);
        }
        if over {
            proof {
                assert(digits_val(run1) >= digits_val(run0)) by {
                    assert(10 * digits_val(run0) >= digits_val(run0));
                }
            }
        } else {
            if acc > (u64::MAX - d) / 10 {
                over = true;
                proof {
                    assert(10 * (acc as nat) + d > u64::MAX) by (nonlinear_arith)
                        requires
                            acc as nat > ((u64::MAX - d) as nat) / 10,
                            0 <= d <= 9,
                    ;
                }
            } else {
                acc = acc * 10 + d;
            }
        }
        k = k + 1;
    }
    (k, acc, over)
}

/// Scans the run of non-delimiter bytes starting at `i`.
fn scan_text(s: &[u8], i: usize) -> (r: usize)
    requires
        i <= s@.len(),
    ensures
        r as int == text_end(s@, i as int),
        i <= r <= s@.len(),
{
    proof {
        lemma_text_end(s@, i as int);
    }
    let ghost e = text_end(s@, i as int);
    let mut k: usize = i;
    loop
        invariant_except_break
            i <= k <= e <= s@.len(),
            e == text_end(s@, i as int),
            forall|j: int| i <= j < e ==> #[trigger] s@[j] != CR && s@[j] != LF,
            e < s@.len() ==> s@[e as int] == CR || s@[e as int] == LF,
        ensures
            k == e,
        decreases s@.len() - k,
    {
        if k >= s.len() {
            break;
        }
        let b = *vstd::slice::slice_index_get(s, k);
        if b == CR || b == LF {
            proof {
                assert(k == e) by {
                    if k < e {
                        assert(s@[k as int] != CR && s@[k as int] != LF);
                    }
                }
            }
            break;
        }
        proof {
            assert(k < e) by {
                if k == e {
                    assert(s@[e as int] == CR || s@[e as int] == LF);
                }
            }
        }
        k = k + 1;
    }
    k
}

/// Scans the run of uppercase letters starting at `i`.
fn scan_upper(s: &[u8], i: usize) -> (r: usize)
    requires
        i <= s@.len(),
    ensures
        r as int == upper_end(s@, i as int),
        i <= r <= s@.len(),
{
    proof {
        lemma_upper_end(s@, i as int);
    }
    let ghost e = upper_end(s@, i as int);
    let mut k: usize = i;
    loop
        invariant_except_break
            i <= k <= e <= s@.len(),
            e == upper_end(s@, i as int),
            forall|j: int| i <= j < e ==> crate::model::is_upper(#[trigger] s@[j]),
            e < s@.len() ==> !crate::model::is_upper(s@[e as int]),
        ensures
            k == e,
        decreases s@.len() - k,
    {
        if k >= s.len() {
            break;
        }
        let b = *vstd::slice::slice_index_get(s, k);
        if !(0x41 <= b && b <= 0x5A) {
            proof {
                assert(k == e) by {
                    if k < e {
                        assert(crate::model::is_upper(s@[k as int]));
                    }
                }
            }
            break;
        }
        proof {
            assert(k < e) by {
                if k == e {
                    assert(!crate::model::is_upper(s@[e as int]));
                }
            }
        }
        k = k + 1;
    }
    k
}


/// Reads the mandatory `\r\n` delimiter.
pub open spec fn sp_crlf(s: Seq<u8>, i: int) -> Result<int, ParseError> {
    if i + 2 <= s.len() {
        if s[i] == CR && s[i + 1] == LF {
            Ok(i + 2)
        } else {
            Err(ParseError::MissingDelimiter)
        }
    } else {
        Err(ParseError::TruncatedInput)
    }
}

/// Reads a nonempty digit run.
pub open spec fn sp_digit_run(s: Seq<u8>, i: int) -> Result<(Seq<u8>, int), ParseError> {
    let e = digits_end(s, i);
    if e == i {
        if i >= s.len() {
            Err(ParseError::TruncatedInput)
        } else {
            Err(ParseError::InvalidLength)
        }
    } else {
        Ok((s.subrange(i, e), e))
    }
}

/// Reads a length or count prefix: a digit run whose value fits in `usize`.
pub open spec fn sp_length(s: Seq<u8>, i: int) -> Result<(int, int), ParseError> {
    match sp_digit_run(s, i) {
        Err(e) => Err(e),
        Ok((run, e)) => if digits_val(run) > usize::MAX {
            Err(ParseError::InvalidLength)
        } else {
            Ok((digits_val(run) as int, e))
        },
    }
}

/// Reads a signed 64-bit integer payload.
pub open spec fn sp_i64(s: Seq<u8>, i: int) -> Result<(i64, int), ParseError> {
    let neg = i < s.len() && s[i] == MINUS;
    let j = if neg {
        i + 1
    } else {
        i
    };
    match sp_digit_run(s, j) {
        Err(e) => Err(e),
        Ok((run, e)) => {
            let m = digits_val(run);
            if neg {
                if m > 0x8000_0000_0000_0000 {
                    Err(ParseError::NumericOverflow)
                } else {
                    Ok(((-(m as int)) as i64, e))
                }
            } else {
                if m > 0x7FFF_FFFF_FFFF_FFFF {
                    Err(ParseError::NumericOverflow)
                } else {
                    Ok((m as i64, e))
                }
            }
        },
    }
}

/// Reads an arbitrary-precision integer payload, reduced to its canonical
/// sign and digits.
pub open spec fn sp_big(s: Seq<u8>, i: int) -> Result<((bool, Seq<u8>), int), ParseError> {
    let neg = i < s.len() && s[i] == MINUS;
    let j = if neg {
        i + 1
    } else {
        i
    };
    match sp_digit_run(s, j) {
        Err(e) => Err(e),
        Ok((run, e)) => {
            let ds = strip_zeros(run);
            Ok(((neg && ds[0] != 0x30, ds), e))
        },
    }
}

/// Reads a double payload: `inf` with an optional sign, or a decimal
/// literal whose digit runs are kept byte for byte as written.
pub open spec fn sp_double_payload(s: Seq<u8>, i: int) -> Result<(crate::model::DoubleV, int), ParseError> {
    let neg = i < s.len() && s[i] == MINUS;
    let j = if neg {
        i + 1
    } else {
        i
    };
    let sign = if neg {
        Sign::Minus
    } else {
        Sign::Plus
    };
    if j < s.len() && s[j] == 0x69 {
        if j + 3 <= s.len() {
            if s[j + 1] == 0x6E && s[j + 2] == 0x66 {
                Ok((crate::model::DoubleV::Inf(sign), j + 3))
            } else {
                Err(ParseError::InvalidEncoding)
            }
        } else {
            Err(ParseError::TruncatedInput)
        }
    } else {
        match sp_digit_run(s, j) {
            Err(e) => Err(e),
            Ok((irun, e1)) => if e1 < s.len() && s[e1] == DOT {
                match sp_digit_run(s, e1 + 1) {
                    Err(e) => Err(e),
                    Ok((frun, e2)) => Ok((
                        crate::model::DoubleV::Num(
                            crate::model::PartsV { sign, int: irun, frac: Some(frun) },
                        ),
                        e2,
                    )),
                }
            } else {
                Ok((
                    crate::model::DoubleV::Num(
                        crate::model::PartsV { sign, int: irun, frac: None },
                    ),
                    e1,
                ))
            },
        }
    }
}

/// Parses a null after its `_` discriminator at `i`.
pub open spec fn sp_null(s: Seq<u8>, i: int) -> Result<(ValueV, int), ParseError> {
    match sp_crlf(s, i + 1) {
        Err(e) => Err(e),
        Ok(j) => Ok((ValueV::Null { attr: None }, j)),
    }
}

/// Parses a boolean after its `#` discriminator at `i`.
pub open spec fn sp_boolean(s: Seq<u8>, i: int) -> Result<(ValueV, int), ParseError> {
    if i + 1 >= s.len() {
        Err(ParseError::TruncatedInput)
    } else if s[i + 1] == 0x74 || s[i + 1] == 0x66 {
        match sp_crlf(s, i + 2) {
            Err(e) => Err(e),
            Ok(j) => Ok((ValueV::Boolean { b: s[i + 1] == 0x74, attr: None }, j)),
        }
    } else {
        Err(ParseError::InvalidEncoding)
    }
}

/// Parses a number after its `:` discriminator at `i`.
pub open spec fn sp_number(s: Seq<u8>, i: int) -> Result<(ValueV, int), ParseError> {
    match sp_i64(s, i + 1) {
        Err(e) => Err(e),
        Ok((n, j)) => match sp_crlf(s, j) {
            Err(e) => Err(e),
            Ok(k) => Ok((ValueV::Number { n, attr: None }, k)),
        },
    }
}

/// Parses a big number after its `(` discriminator at `i`.
pub open spec fn sp_big_number(s: Seq<u8>, i: int) -> Result<(ValueV, int), ParseError> {
    match sp_big(s, i + 1) {
        Err(e) => Err(e),
        Ok(((neg, ds), j)) => match sp_crlf(s, j) {
            Err(e) => Err(e),
            Ok(k) => Ok((ValueV::BigNumber { neg, digits: ds, attr: None }, k)),
        },
    }
}

/// Parses a double after its `,` discriminator at `i`.
pub open spec fn sp_double(s: Seq<u8>, i: int) -> Result<(ValueV, int), ParseError> {
    match sp_double_payload(s, i + 1) {
        Err(e) => Err(e),
        Ok((dd, j)) => match sp_crlf(s, j) {
            Err(e) => Err(e),
            Ok(k) => Ok((ValueV::Double { d: dd, attr: None }, k)),
        },
    }
}

/// Parses a simple string after its `+` discriminator at `i`.
pub open spec fn sp_simple_string(s: Seq<u8>, i: int) -> Result<(ValueV, int), ParseError> {
    let e = text_end(s, i + 1);
    if e == i + 1 {
        if i + 1 >= s.len() {
            Err(ParseError::TruncatedInput)
        } else {
            Err(ParseError::InvalidEncoding)
        }
    } else {
        let data = s.subrange(i + 1, e);
        if !is_utf8(data) {
            Err(ParseError::InvalidEncoding)
        } else {
            match sp_crlf(s, e) {
                Err(er) => Err(er),
                Ok(j) => Ok((ValueV::SimpleString { data, attr: None }, j)),
            }
        }
    }
}

/// Parses a simple error after its `-` discriminator at `i`.
pub open spec fn sp_simple_error(s: Seq<u8>, i: int) -> Result<(ValueV, int), ParseError> {
    let ce = upper_end(s, i + 1);
    if ce == i + 1 {
        if i + 1 >= s.len() {
            Err(ParseError::TruncatedInput)
        } else {
            Err(ParseError::InvalidCodeFormat)
        }
    } else if ce >= s.len() {
        Err(ParseError::TruncatedInput)
    } else if s[ce] != SP {
        Err(ParseError::InvalidCodeFormat)
    } else {
        let code = s.subrange(i + 1, ce);
        let me = text_end(s, ce + 1);
        if me == ce + 1 {
            if ce + 1 >= s.len() {
                Err(ParseError::TruncatedInput)
            } else {
                Err(ParseError::InvalidEncoding)
            }
        } else {
            let msg = s.subrange(ce + 1, me);
            if !is_utf8(msg) {
                Err(ParseError::InvalidEncoding)
            } else {
                match sp_crlf(s, me) {
                    Err(er) => Err(er),
                    Ok(j) => Ok((ValueV::SimpleError { code, msg, attr: None }, j)),
                }
            }
        }
    }
}

/// Parses a blob string after its `$` discriminator at `i`.
pub open spec fn sp_blob_string(s: Seq<u8>, i: int) -> Result<(ValueV, int), ParseError> {
    match sp_length(s, i + 1) {
        Err(e) => Err(e),
        Ok((n, j)) => match sp_crlf(s, j) {
            Err(e) => Err(e),
            Ok(j2) => if j2 + n > s.len() {
                Err(ParseError::TruncatedInput)
            } else {
                let data = s.subrange(j2, j2 + n);
                match sp_crlf(s, j2 + n) {
                    Err(e) => Err(e),
                    Ok(k) => Ok((ValueV::BlobString { data, attr: None }, k)),
                }
            },
        },
    }
}

/// Parses a blob error after its `!` discriminator at `i`: the raw payload
/// is split into the leading uppercase code, one space, and the message.
pub open spec fn sp_blob_error(s: Seq<u8>, i: int) -> Result<(ValueV, int), ParseError> {
    match sp_length(s, i + 1) {
        Err(e) => Err(e),
        Ok((n, j)) => match sp_crlf(s, j) {
            Err(e) => Err(e),
            Ok(j2) => if j2 + n > s.len() {
                Err(ParseError::TruncatedInput)
            } else {
                let data = s.subrange(j2, j2 + n);
                let ce = upper_end(data, 0);
                if ce == 0 || ce >= data.len() || data[ce] != SP {
                    Err(ParseError::InvalidCodeFormat)
                } else {
                    match sp_crlf(s, j2 + n) {
                        Err(e) => Err(e),
                        Ok(k) => Ok((
                            ValueV::BlobError {
                                code: data.subrange(0, ce),
                                msg: data.subrange(ce + 1, data.len() as int),
                                attr: None,
                            },
                            k,
                        )),
                    }
                }
            },
        },
    }
}

/// Parses a verbatim string after its `=` discriminator at `i`: the declared
/// length covers the three-byte subtype tag and the colon.
pub open spec fn sp_verbatim(s: Seq<u8>, i: int) -> Result<(ValueV, int), ParseError> {
    match sp_length(s, i + 1) {
        Err(e) => Err(e),
        Ok((n, j)) => if n < 4 {
            Err(ParseError::InvalidLength)
        } else {
            match sp_crlf(s, j) {
                Err(e) => Err(e),
                Ok(j2) => if j2 + n > s.len() {
                    Err(ParseError::TruncatedInput)
                } else {
                    let is_txt = s[j2] == 0x74 && s[j2 + 1] == 0x78 && s[j2 + 2] == 0x74;
                    let is_mkd = s[j2] == 0x6D && s[j2 + 1] == 0x6B && s[j2 + 2] == 0x64;
                    if (!is_txt && !is_mkd) || s[j2 + 3] != COLON {
                        Err(ParseError::UnknownSubtype)
                    } else {
                        let data = s.subrange(j2 + 4, j2 + n);
                        match sp_crlf(s, j2 + n) {
                            Err(e) => Err(e),
                            Ok(k) => Ok((
                                ValueV::VerbatimString {
                                    kind: if is_txt {
                                        VerbKind::Txt
                                    } else {
                                        VerbKind::Mkd
                                    },
                                    data,
                                    attr: None,
                                },
                                k,
                            )),
                        }
                    }
                },
            }
        },
    }
}

/// Parses `n` consecutive values.
pub open spec fn sp_items(s: Seq<u8>, i: int, n: int, d: nat) -> Result<
    (Seq<ValueV>, int),
    ParseError,
>
    decreases d, 4int, n,
{
    if n <= 0 {
        Ok((Seq::empty(), i))
    } else {
        match sp_value(s, i, d) {
            Err(e) => Err(e),
            Ok((v, j)) => match sp_items(s, j, n - 1, d) {
                Err(e) => Err(e),
                Ok((vs, k)) => Ok((seq![v].add(vs), k)),
            },
        }
    }
}

/// Parses `n` consecutive key/value pairs.
pub open spec fn sp_pairs(s: Seq<u8>, i: int, n: int, d: nat) -> Result<
    (PairsV, int),
    ParseError,
>
    decreases d, 4int, n,
{
    if n <= 0 {
        Ok((Seq::empty(), i))
    } else {
        match sp_value(s, i, d) {
            Err(e) => Err(e),
            Ok((k0, j)) => match sp_value(s, j, d) {
                Err(e) => Err(e),
                Ok((v0, j2)) => match sp_pairs(s, j2, n - 1, d) {
                    Err(e) => Err(e),
                    Ok((ps, k)) => Ok((seq![(k0, v0)].add(ps), k)),
                },
            },
        }
    }
}

/// Parses an array after its `*` discriminator at `i`; the elements keep
/// their order.
pub open spec fn sp_array(s: Seq<u8>, i: int, d: nat) -> Result<(ValueV, int), ParseError>
    decreases d, 2int, 0int,
{
    if d == 0 {
        Err(ParseError::RecursionLimitExceeded)
    } else {
        match sp_length(s, i + 1) {
            Err(e) => Err(e),
            Ok((n, j)) => match sp_crlf(s, j) {
                Err(e) => Err(e),
                Ok(j2) => match sp_items(s, j2, n, (d - 1) as nat) {
                    Err(e) => Err(e),
                    Ok((vs, k)) => Ok((ValueV::Array { items: vs, attr: None }, k)),
                },
            },
        }
    }
}

/// Parses a set after its `~` discriminator at `i`; the elements are
/// deduplicated and sorted by their wire images.
pub open spec fn sp_set(s: Seq<u8>, i: int, d: nat) -> Result<(ValueV, int), ParseError>
    decreases d, 2int, 0int,
{
    if d == 0 {
        Err(ParseError::RecursionLimitExceeded)
    } else {
        match sp_length(s, i + 1) {
            Err(e) => Err(e),
            Ok((n, j)) => match sp_crlf(s, j) {
                Err(e) => Err(e),
                Ok(j2) => match sp_items(s, j2, n, (d - 1) as nat) {
                    Err(e) => Err(e),
                    Ok((vs, k)) => Ok((ValueV::ValueSet { items: canon_items(vs), attr: None }, k)),
                },
            },
        }
    }
}

/// Parses a map after its `%` discriminator at `i`; the pairs are sorted by
/// the keys' wire images, a repeated key keeping the pair seen last.
pub open spec fn sp_map(s: Seq<u8>, i: int, d: nat) -> Result<(ValueV, int), ParseError>
    decreases d, 2int, 0int,
{
    if d == 0 {
        Err(ParseError::RecursionLimitExceeded)
    } else {
        match sp_length(s, i + 1) {
            Err(e) => Err(e),
            Ok((n, j)) => match sp_crlf(s, j) {
                Err(e) => Err(e),
                Ok(j2) => match sp_pairs(s, j2, n, (d - 1) as nat) {
                    Err(e) => Err(e),
                    Ok((ps, k)) => Ok((ValueV::ValueMap { pairs: canon_pairs(ps), attr: None }, k)),
                },
            },
        }
    }
}

/// Parses an attribute prefix after its `|` discriminator at `i`; its pairs
/// are sorted like a map's.
pub open spec fn sp_attr(s: Seq<u8>, i: int, d: nat) -> Result<(PairsV, int), ParseError>
    decreases d, 2int, 0int,
{
    if d == 0 {
        Err(ParseError::RecursionLimitExceeded)
    } else {
        match sp_length(s, i + 1) {
            Err(e) => Err(e),
            Ok((n, j)) => match sp_crlf(s, j) {
                Err(e) => Err(e),
                Ok(j2) => match sp_pairs(s, j2, n, (d - 1) as nat) {
                    Err(e) => Err(e),
                    Ok((ps, k)) => Ok((canon_pairs(ps), k)),
                },
            },
        }
    }
}

/// Dispatches on the discriminator byte at `i`; the attribute prefix has
/// already been consumed.
pub open spec fn sp_core(s: Seq<u8>, i: int, d: nat) -> Result<(ValueV, int), ParseError>
    decreases d, 2int, 1int,
{
    if !(0 <= i < s.len()) {
        Err(ParseError::TruncatedInput)
    } else {
        let b = s[i];
        if b == D_NULL {
            sp_null(s, i)
        } else if b == D_BOOLEAN {
            sp_boolean(s, i)
        } else if b == D_NUMBER {
            sp_number(s, i)
        } else if b == D_BIG_NUMBER {
            sp_big_number(s, i)
        } else if b == D_DOUBLE {
            sp_double(s, i)
        } else if b == D_SIMPLE_STRING {
            sp_simple_string(s, i)
        } else if b == D_SIMPLE_ERROR {
            sp_simple_error(s, i)
        } else if b == D_BLOB_STRING {
            sp_blob_string(s, i)
        } else if b == D_BLOB_ERROR {
            sp_blob_error(s, i)
        } else if b == D_VERBATIM_STRING {
            sp_verbatim(s, i)
        } else if b == D_ARRAY {
            sp_array(s, i, d)
        } else if b == D_SET {
            sp_set(s, i, d)
        } else if b == D_MAP {
            sp_map(s, i, d)
        } else {
            Err(ParseError::MalformedDiscriminator)
        }
    }
}

/// Parses one value at `i`: an optional attribute prefix, then the value it
/// decorates, which may nest at most `d` levels.
pub open spec fn sp_value(s: Seq<u8>, i: int, d: nat) -> Result<(ValueV, int), ParseError>
    decreases d, 3int, 0int,
{
    if d == 0 {
        Err(ParseError::RecursionLimitExceeded)
    } else if !(0 <= i < s.len()) {
        Err(ParseError::TruncatedInput)
    } else if s[i] == D_ATTRIBUTE {
        match sp_attr(s, i, d) {
            Err(e) => Err(e),
            Ok((ps, j)) => match sp_core(s, j, d) {
                Err(e) => Err(e),
                Ok((v, k)) => Ok((crate::model::with_attr_of(v, Some(ps)), k)),
            },
        }
    } else {
        sp_core(s, i, d)
    }
}


/// Reads the `\r\n` delimiter at `i`.
fn p_crlf(s: &[u8], i: usize) -> (r: Result<usize, ParseError>)
    requires
        i <= s@.len(),
    ensures
        match r {
            Ok(j) => sp_crlf(s@, i as int) == Ok::<int, ParseError>(j as int) && i < j
                <= s@.len(),
            Err(e) => sp_crlf(s@, i as int) == Err::<int, ParseError>(e),
        },
{
    if s.len() - i < 2 {
        return Err(ParseError::TruncatedInput);
    }
    let a = *vstd::slice::slice_index_get(s, i);
    let b = *vstd::slice::slice_index_get(s, i + 1);
    if a == CR && b == LF {
        Ok(i + 2)
    } else {
        Err(ParseError::MissingDelimiter)
    }
}

/// Reads a length or count prefix at `i`.
fn p_length(s: &[u8], i: usize) -> (r: Result<(usize, usize), ParseError>)
    requires
        i <= s@.len(),
    ensures
        match r {
            Ok((n, j)) => sp_length(s@, i as int) == Ok::<(int, int), ParseError>(
                (n as int, j as int),
            ) && i <= j <= s@.len(),
            Err(e) => sp_length(s@, i as int) == Err::<(int, int), ParseError>(e),
        },
{
    let (e, v, over) = scan_digits(s, i);
    if e == i {
        if i >= s.len() {
            return Err(ParseError::TruncatedInput);
        }
        return Err(ParseError::InvalidLength);
    }
    if over {
        return Err(ParseError::InvalidLength);
    }
    if v > usize::MAX as u64 {
        return Err(ParseError::InvalidLength);
    }
    Ok((v as usize, e))
}

/// Reads a signed 64-bit integer payload at `i`.
fn p_i64(s: &[u8], i: usize) -> (r: Result<(i64, usize), ParseError>)
    requires
        i <= s@.len(),
    ensures
        match r {
            Ok((n, j)) => sp_i64(s@, i as int) == Ok::<(i64, int), ParseError>(
                (n, j as int),
            ) && i <= j <= s@.len(),
            Err(e) => sp_i64(s@, i as int) == Err::<(i64, int), ParseError>(e),
        },
{
    let neg = i < s.len() && *vstd::slice::slice_index_get(s, i) == MINUS;
    let j = if neg {
        i + 1
    } else {
        i
    };
    let (e, v, over) = scan_digits(s, j);
    if e == j {
        if j >= s.len() {
            return Err(ParseError::TruncatedInput);
        }
        return Err(ParseError::InvalidLength);
    }
    if neg {
        if over || v > 0x8000_0000_0000_0000 {
            return Err(ParseError::NumericOverflow);
        }
        let n: i64 = if v == 0x8000_0000_0000_0000 {
            i64::MIN
        } else {
            -(v as i64)
        };
        assert(n as int == -(v as int));
        Ok((n, e))
    } else {
        if over || v > 0x7FFF_FFFF_FFFF_FFFF {
            return Err(ParseError::NumericOverflow);
        }
        Ok((v as i64, e))
    }
}

/// Reads an arbitrary-precision integer payload at `i`, reduced to its
/// canonical sign and digits.
fn p_big(s: &[u8], i: usize) -> (r: Result<((bool, Vec<u8>), usize), ParseError>)
    requires
        i <= s@.len(),
    ensures
        match r {
            Ok(((neg, ds), j)) => sp_big(s@, i as int) matches Ok(((sneg, sds), sj))
                && sneg == neg && sds == ds@ && sj == j as int && i <= j <= s@.len(),
            Err(e) => sp_big(s@, i as int) == Err::<((bool, Seq<u8>), int), ParseError>(e),
        },
{
    let neg = i < s.len() && *vstd::slice::slice_index_get(s, i) == MINUS;
    let j = if neg {
        i + 1
    } else {
        i
    };
    let (e, _, _) = scan_digits(s, j);
    if e == j {
        if j >= s.len() {
            return Err(ParseError::TruncatedInput);
        }
        return Err(ParseError::InvalidLength);
    }
    let run = vstd::slice::slice_to_vec(vstd::slice::slice_subrange(s, j, e));
    proof {
        lemma_digits_end(s@, j as int);
        lemma_strip_zeros(run@);
    }
    let mut k: usize = 0;
    let len = run.len();
    proof {
        assert(run@.skip(0) =~= run@);
    }
    while k + 1 < len && run[k] == 0x30
        invariant
            0 <= k < len,
            len == run@.len(),
            run@.len() >= 1,
            crate::digits::all_digits(run@),
            strip_zeros(run@) == strip_zeros(run@.skip(k as int)),
        decreases len - k,
    {
        proof {
            assert(run@.skip(k as int).len() > 1);
            assert(run@.skip(k as int)[0] == run@[k as int]);
            assert(run@.skip(k as int).drop_first() =~= run@.skip(k + 1));
        }
        k = k + 1;
    }
    proof {
        let rest = run@.skip(k as int);
        assert(rest[0] == run@[k as int]);
        if rest.len() > 1 {
            assert(run@[k as int] != 0x30);
        }
        assert(strip_zeros(rest) == rest);
    }
    let mut ds: Vec<u8> = Vec::new();
    let mut w: usize = k;
    while w < len
        invariant
            k <= w <= len,
            len == run@.len(),
            ds@ =~= run@.subrange(k as int, w as int),
        decreases len - w,
    {
        let b = run[w];
        ds.push(b);
        assert(run@.subrange(k as int, w + 1) =~= run@.subrange(k as int, w as int).push(
            run@[w as int],
        ));
        w = w + 1;
    }
    assert(ds@ =~= run@.skip(k as int));
    let is_zero = ds.len() == 1 && ds[0] == 0x30;
    proof {
        if !is_zero {
            assert(strip_zeros(run@)[0] != 0x30);
        }
    }
    Ok(((neg && !is_zero, ds), e))
}

/// Reads a double payload at `i`.
fn p_double_payload(s: &[u8], i: usize) -> (r: Result<(Double, usize), ParseError>)
    requires
        i <= s@.len(),
    ensures
        match r {
            Ok((dv, j)) => ({
                &&& sp_double_payload(s@, i as int) matches Ok((sd, sj))
                &&& dv@ == (ValueV::Double { d: sd, attr: Option::<PairsV>::None })
                &&& sj == j as int
                &&& i <= j <= s@.len()
                &&& crate::model::valid_double(sd)
            }),
            Err(e) => sp_double_payload(s@, i as int) == Err::<(crate::model::DoubleV, int), ParseError>(
                e,
            ),
        },
{
    let neg = i < s.len() && *vstd::slice::slice_index_get(s, i) == MINUS;
    let j = if neg {
        i + 1
    } else {
        i
    };
    let sign = if neg {
        Sign::Minus
    } else {
        Sign::Plus
    };
    if j < s.len() && *vstd::slice::slice_index_get(s, j) == 0x69 {
        if s.len() - j < 3 {
            return Err(ParseError::TruncatedInput);
        }
        let b1 = *vstd::slice::slice_index_get(s, j + 1);
        let b2 = *vstd::slice::slice_index_get(s, j + 2);
        if b1 == 0x6E && b2 == 0x66 {
            return Ok((Double::Inf { sign, attr: None }, j + 3));
        }
        return Err(ParseError::InvalidEncoding);
    }
    let (e1, _, _) = scan_digits(s, j);
    if e1 == j {
        if j >= s.len() {
            return Err(ParseError::TruncatedInput);
        }
        return Err(ParseError::InvalidLength);
    }
    proof {
        lemma_digits_end(s@, j as int);
    }
    let irun = vstd::slice::slice_to_vec(vstd::slice::slice_subrange(s, j, e1));
    if e1 < s.len() && *vstd::slice::slice_index_get(s, e1) == DOT {
        let (e2, _, _) = scan_digits(s, e1 + 1);
        if e2 == e1 + 1 {
            if e1 + 1 >= s.len() {
                return Err(ParseError::TruncatedInput);
            }
            return Err(ParseError::InvalidLength);
        }
        proof {
            lemma_digits_end(s@, e1 + 1);
        }
        let frun = vstd::slice::slice_to_vec(vstd::slice::slice_subrange(s, e1 + 1, e2));
        Ok((
            Double::Val { parts: Parts { sign, int: irun, frac: Some(frun) }, attr: None },
            e2,
        ))
    } else {
        Ok((Double::Val { parts: Parts { sign, int: irun, frac: None }, attr: None }, e1))
    }
}


/// Parses a null at `i`.
fn p_null(s: &[u8], i: usize) -> (r: Result<(Value, usize), ParseError>)
    requires
        i < s@.len(),
        s@.len() <= usize::MAX,
        s@[i as int] == D_NULL,
    ensures
        match r {
            Ok((v, j)) => sp_null(s@, i as int) == Ok::<(ValueV, int), ParseError>(
                (v@, j as int),
            ) && i <= j <= s@.len() && valid_value(v@),
            Err(e) => sp_null(s@, i as int) == Err::<(ValueV, int), ParseError>(e),
        },
{
    match p_crlf(s, i + 1) {
        Err(e) => Err(e),
        Ok(j) => Ok((Value::Null(Null { attr: None }), j)),
    }
}

/// Parses a boolean at `i`.
fn p_boolean(s: &[u8], i: usize) -> (r: Result<(Value, usize), ParseError>)
    requires
        i < s@.len(),
        s@.len() <= usize::MAX,
        s@[i as int] == D_BOOLEAN,
    ensures
        match r {
            Ok((v, j)) => sp_boolean(s@, i as int) == Ok::<(ValueV, int), ParseError>(
                (v@, j as int),
            ) && i <= j <= s@.len() && valid_value(v@),
            Err(e) => sp_boolean(s@, i as int) == Err::<(ValueV, int), ParseError>(e),
        },
{
    if i + 1 >= s.len() {
        return Err(ParseError::TruncatedInput);
    }
    let b = *vstd::slice::slice_index_get(s, i + 1);
    if b == 0x74 || b == 0x66 {
        match p_crlf(s, i + 2) {
            Err(e) => Err(e),
            Ok(j) => Ok((Value::Boolean(Boolean { val: b == 0x74, attr: None }), j)),
        }
    } else {
        Err(ParseError::InvalidEncoding)
    }
}

/// Parses a number at `i`.
fn p_number(s: &[u8], i: usize) -> (r: Result<(Value, usize), ParseError>)
    requires
        i < s@.len(),
        s@.len() <= usize::MAX,
        s@[i as int] == D_NUMBER,
    ensures
        match r {
            Ok((v, j)) => sp_number(s@, i as int) == Ok::<(ValueV, int), ParseError>(
                (v@, j as int),
            ) && i <= j <= s@.len() && valid_value(v@),
            Err(e) => sp_number(s@, i as int) == Err::<(ValueV, int), ParseError>(e),
        },
{
    match p_i64(s, i + 1) {
        Err(e) => Err(e),
        Ok((n, j)) => match p_crlf(s, j) {
            Err(e) => Err(e),
            Ok(k) => Ok((Value::Number(Number { val: n, attr: None }), k)),
        },
    }
}

/// Parses a big number at `i`.
fn p_big_number(s: &[u8], i: usize) -> (r: Result<(Value, usize), ParseError>)
    requires
        i < s@.len(),
        s@.len() <= usize::MAX,
        s@[i as int] == D_BIG_NUMBER,
    ensures
        match r {
            Ok((v, j)) => sp_big_number(s@, i as int) == Ok::<(ValueV, int), ParseError>(
                (v@, j as int),
            ) && i <= j <= s@.len() && valid_value(v@),
            Err(e) => sp_big_number(s@, i as int) == Err::<(ValueV, int), ParseError>(e),
        },
{
    match p_big(s, i + 1) {
        Err(e) => Err(e),
        Ok(((neg, ds), j)) => match p_crlf(s, j) {
            Err(e) => Err(e),
            Ok(k) => {
                proof {
                    let run0 = match sp_digit_run(
                        s@,
                        if i + 1 < s@.len() && s@[i + 1] == MINUS {
                            i + 2
                        } else {
                            i + 1
                        },
                    ) {
                        Ok((rr, _)) => rr,
                        Err(_) => Seq::empty(),
                    };
                    lemma_digits_end(
                        s@,
                        if i + 1 < s@.len() && s@[i + 1] == MINUS {
                            i + 2
                        } else {
                            i + 1
                        },
                    );
                    assert(crate::digits::all_digits(run0));
                    lemma_strip_zeros(run0);
                }
                Ok((Value::BigNumber(BigNumber { neg, digits: ds, attr: None }), k))
            },
        },
    }
}

/// Parses a double at `i`.
fn p_double(s: &[u8], i: usize) -> (r: Result<(Value, usize), ParseError>)
    requires
        i < s@.len(),
        s@.len() <= usize::MAX,
        s@[i as int] == D_DOUBLE,
    ensures
        match r {
            Ok((v, j)) => sp_double(s@, i as int) == Ok::<(ValueV, int), ParseError>(
                (v@, j as int),
            ) && i <= j <= s@.len() && valid_value(v@),
            Err(e) => sp_double(s@, i as int) == Err::<(ValueV, int), ParseError>(e),
        },
{
    match p_double_payload(s, i + 1) {
        Err(e) => Err(e),
        Ok((dv, j)) => match p_crlf(s, j) {
            Err(e) => Err(e),
            Ok(k) => Ok((Value::Double(dv), k)),
        },
    }
}

/// Parses a simple string at `i`.
fn p_simple_string(s: &[u8], i: usize) -> (r: Result<(Value, usize), ParseError>)
    requires
        i < s@.len(),
        s@.len() <= usize::MAX,
        s@[i as int] == D_SIMPLE_STRING,
    ensures
        match r {
            Ok((v, j)) => sp_simple_string(s@, i as int) == Ok::<(ValueV, int), ParseError>(
                (v@, j as int),
            ) && i <= j <= s@.len() && valid_value(v@),
            Err(e) => sp_simple_string(s@, i as int) == Err::<(ValueV, int), ParseError>(e),
        },
{
    let e = scan_text(s, i + 1);
    if e == i + 1 {
        if i + 1 >= s.len() {
            return Err(ParseError::TruncatedInput);
        }
        return Err(ParseError::InvalidEncoding);
    }
    if !crate::utf8::check_utf8_range(s, i + 1, e) {
        return Err(ParseError::InvalidEncoding);
    }
    let val = vstd::slice::slice_to_vec(vstd::slice::slice_subrange(s, i + 1, e));
    proof {
        lemma_text_end(s@, i + 1);
    }
    match p_crlf(s, e) {
        Err(er) => Err(er),
        Ok(j) => Ok((Value::SimpleString(SimpleString { val, attr: None }), j)),
    }
}

/// Parses a simple error at `i`.
fn p_simple_error(s: &[u8], i: usize) -> (r: Result<(Value, usize), ParseError>)
    requires
        i < s@.len(),
        s@.len() <= usize::MAX,
        s@[i as int] == D_SIMPLE_ERROR,
    ensures
        match r {
            Ok((v, j)) => sp_simple_error(s@, i as int) == Ok::<(ValueV, int), ParseError>(
                (v@, j as int),
            ) && i <= j <= s@.len() && valid_value(v@),
            Err(e) => sp_simple_error(s@, i as int) == Err::<(ValueV, int), ParseError>(e),
        },
{
    let ce = scan_upper(s, i + 1);
    if ce == i + 1 {
        if i + 1 >= s.len() {
            return Err(ParseError::TruncatedInput);
        }
        return Err(ParseError::InvalidCodeFormat);
    }
    if ce >= s.len() {
        return Err(ParseError::TruncatedInput);
    }
    if *vstd::slice::slice_index_get(s, ce) != SP {
        return Err(ParseError::InvalidCodeFormat);
    }
    let code = vstd::slice::slice_to_vec(vstd::slice::slice_subrange(s, i + 1, ce));
    let me = scan_text(s, ce + 1);
    if me == ce + 1 {
        if ce + 1 >= s.len() {
            return Err(ParseError::TruncatedInput);
        }
        return Err(ParseError::InvalidEncoding);
    }
    if !crate::utf8::check_utf8_range(s, ce + 1, me) {
        return Err(ParseError::InvalidEncoding);
    }
    let msg = vstd::slice::slice_to_vec(vstd::slice::slice_subrange(s, ce + 1, me));
    proof {
        lemma_upper_end(s@, i + 1);
        lemma_text_end(s@, ce + 1);
    }
    match p_crlf(s, me) {
        Err(er) => Err(er),
        Ok(j) => Ok((Value::SimpleError(SimpleError { code, msg, attr: None }), j)),
    }
}

/// Parses a blob string at `i`.
fn p_blob_string(s: &[u8], i: usize) -> (r: Result<(Value, usize), ParseError>)
    requires
        i < s@.len(),
        s@.len() <= usize::MAX,
        s@[i as int] == D_BLOB_STRING,
    ensures
        match r {
            Ok((v, j)) => sp_blob_string(s@, i as int) == Ok::<(ValueV, int), ParseError>(
                (v@, j as int),
            ) && i <= j <= s@.len() && valid_value(v@),
            Err(e) => sp_blob_string(s@, i as int) == Err::<(ValueV, int), ParseError>(e),
        },
{
    match p_length(s, i + 1) {
        Err(e) => Err(e),
        Ok((n, j)) => match p_crlf(s, j) {
            Err(e) => Err(e),
            Ok(j2) => {
                if n > s.len() - j2 {
                    return Err(ParseError::TruncatedInput);
                }
                let val = vstd::slice::slice_to_vec(
                    vstd::slice::slice_subrange(s, j2, j2 + n),
                );
                match p_crlf(s, j2 + n) {
                    Err(e) => Err(e),
                    Ok(k) => Ok((Value::BlobString(BlobString { val, attr: None }), k)),
                }
            },
        },
    }
}

/// Parses a blob error at `i`.
fn p_blob_error(s: &[u8], i: usize) -> (r: Result<(Value, usize), ParseError>)
    requires
        i < s@.len(),
        s@.len() <= usize::MAX,
        s@[i as int] == D_BLOB_ERROR,
    ensures
        match r {
            Ok((v, j)) => sp_blob_error(s@, i as int) == Ok::<(ValueV, int), ParseError>(
                (v@, j as int),
            ) && i <= j <= s@.len() && valid_value(v@),
            Err(e) => sp_blob_error(s@, i as int) == Err::<(ValueV, int), ParseError>(e),
        },
{
    match p_length(s, i + 1) {
        Err(e) => Err(e),
        Ok((n, j)) => match p_crlf(s, j) {
            Err(e) => Err(e),
            Ok(j2) => {
                if n > s.len() - j2 {
                    return Err(ParseError::TruncatedInput);
                }
                let data = vstd::slice::slice_subrange(s, j2, j2 + n);
                let ce = scan_upper(data, 0);
                proof {
                    lemma_upper_end(data@, 0);
                }
                if ce == 0 || ce >= n {
                    return Err(ParseError::InvalidCodeFormat);
                }
                if *vstd::slice::slice_index_get(data, ce) != SP {
                    return Err(ParseError::InvalidCodeFormat);
                }
                let code = vstd::slice::slice_to_vec(
                    vstd::slice::slice_subrange(data, 0, ce),
                );
                let msg = vstd::slice::slice_to_vec(
                    vstd::slice::slice_subrange(data, ce + 1, n),
                );
                proof {
                    assert(code@ =~= data@.subrange(0, ce as int));
                    assert(msg@ =~= data@.subrange(ce + 1, data@.len() as int));
                }
                match p_crlf(s, j2 + n) {
                    Err(e) => Err(e),
                    Ok(k) => Ok((Value::BlobError(BlobError { code, msg, attr: None }), k)),
                }
            },
        },
    }
}

/// Parses a verbatim string at `i`.
fn p_verbatim(s: &[u8], i: usize) -> (r: Result<(Value, usize), ParseError>)
    requires
        i < s@.len(),
        s@.len() <= usize::MAX,
        s@[i as int] == D_VERBATIM_STRING,
    ensures
        match r {
            Ok((v, j)) => sp_verbatim(s@, i as int) == Ok::<(ValueV, int), ParseError>(
                (v@, j as int),
            ) && i <= j <= s@.len() && valid_value(v@),
            Err(e) => sp_verbatim(s@, i as int) == Err::<(ValueV, int), ParseError>(e),
        },
{
    match p_length(s, i + 1) {
        Err(e) => Err(e),
        Ok((n, j)) => {
            if n < 4 {
                return Err(ParseError::InvalidLength);
            }
            match p_crlf(s, j) {
                Err(e) => Err(e),
                Ok(j2) => {
                    if n > s.len() - j2 {
                        return Err(ParseError::TruncatedInput);
                    }
                    let b0 = *vstd::slice::slice_index_get(s, j2);
                    let b1 = *vstd::slice::slice_index_get(s, j2 + 1);
                    let b2 = *vstd::slice::slice_index_get(s, j2 + 2);
                    let b3 = *vstd::slice::slice_index_get(s, j2 + 3);
                    let is_txt = b0 == 0x74 && b1 == 0x78 && b2 == 0x74;
                    let is_mkd = b0 == 0x6D && b1 == 0x6B && b2 == 0x64;
                    if (!is_txt && !is_mkd) || b3 != COLON {
                        return Err(ParseError::UnknownSubtype);
                    }
                    let val = vstd::slice::slice_to_vec(
                        vstd::slice::slice_subrange(s, j2 + 4, j2 + n),
                    );
                    match p_crlf(s, j2 + n) {
                        Err(e) => Err(e),
                        Ok(k) => {
                            if is_txt {
                                Ok((
                                    Value::VerbatimString(
                                        VerbatimString::Txt { val, attr: None },
                                    ),
                                    k,
                                ))
                            } else {
                                Ok((
                                    Value::VerbatimString(
                                        VerbatimString::Mkd { val, attr: None },
                                    ),
                                    k,
                                ))
                            }
                        },
                    }
                },
            }
        },
    }
}


/// Parses `n` consecutive values starting at `i`.
#[verifier::rlimit(100)]
fn p_items(s: &[u8], i: usize, n: usize, d: usize) -> (r: Result<
    (Vec<Value>, usize),
    ParseError,
>)
    requires
        i <= s@.len(),
        s@.len() <= usize::MAX,
    ensures
        match r {
            Ok((vs, j)) => ({
                &&& sp_items(s@, i as int, n as int, d as nat) == Ok::<
                    (Seq<ValueV>, int),
                    ParseError,
                >((view_items(vs@), j as int))
                &&& i <= j <= s@.len()
                &&& crate::model::valid_items(view_items(vs@))
            }),
            Err(e) => sp_items(s@, i as int, n as int, d as nat) == Err::<
                (Seq<ValueV>, int),
                ParseError,
            >(e),
        },
    decreases d, 4int, 0int,
{
    let mut acc: Vec<Value> = Vec::new();
    let mut cur: usize = i;
    let mut k: usize = 0;
    proof {
        assert(view_items(acc@) =~= Seq::<ValueV>::empty());
    }
    while k < n
        invariant
            0 <= k <= n,
            i <= cur <= s@.len(),
            s@.len() <= usize::MAX,
            crate::model::valid_items(view_items(acc@)),
            (sp_items(s@, cur as int, n - k, d as nat) matches Ok((vs, j)) ==> sp_items(
                s@,
                i as int,
                n as int,
                d as nat,
            ) == Ok::<(Seq<ValueV>, int), ParseError>((view_items(acc@).add(vs), j))),
            (sp_items(s@, cur as int, n - k, d as nat) matches Err(e) ==> sp_items(
                s@,
                i as int,
                n as int,
                d as nat,
            ) == Err::<(Seq<ValueV>, int), ParseError>(e)),
        decreases n - k,
    {
        let ghost pre = view_items(acc@);
        match p_value(s, cur, d) {
            Err(e) => {
                return Err(e);
            },
            Ok((v, j)) => {
                proof {
                    crate::model::lemma_valid_items_index(pre);
                    lemma_view_items(acc@);
                }
                acc.push(v);
                proof {
                    lemma_view_items(acc@);
                    assert(view_items(acc@) =~= pre.add(seq![v@])) by {
                        crate::value::lemma_view_items_eq(acc@, pre.add(seq![v@]));
                    }
                    crate::model::lemma_valid_items_index(view_items(acc@));
                    assert forall|q: int|
                        0 <= q < view_items(acc@).len() implies valid_value(
                        #[trigger] view_items(acc@)[q],
                    ) by {
                        if q < pre.len() {
                            assert(view_items(acc@)[q] == pre[q]);
                        } else {
                            assert(view_items(acc@)[q] == v@);
                        }
                    }
                }
                cur = j;
                k = k + 1;
                proof {
                    assert forall|vs2: Seq<ValueV>, j2: int|
                        sp_items(s@, cur as int, n - k, d as nat) == Ok::<
                            (Seq<ValueV>, int),
                            ParseError,
                        >((vs2, j2)) implies sp_items(s@, i as int, n as int, d as nat)
                        == Ok::<(Seq<ValueV>, int), ParseError>((
                        view_items(acc@).add(vs2),
                        j2,
                    )) by {
                        assert(sp_items(s@, cur as int, n - k, d as nat) == Ok::<
                            (Seq<ValueV>, int),
                            ParseError,
                        >((vs2, j2)));
                        assert(pre.add(seq![v@].add(vs2)) =~= pre.add(seq![v@]).add(vs2));
                    }
                }
            },
        }
    }
    proof {
        assert(sp_items(s@, cur as int, 0, d as nat) == Ok::<(Seq<ValueV>, int), ParseError>(
            (Seq::<ValueV>::empty(), cur as int),
        ));
        assert(view_items(acc@).add(Seq::<ValueV>::empty()) =~= view_items(acc@));
    }
    Ok((acc, cur))
}

/// Parses `n` consecutive key/value pairs starting at `i`.
#[verifier::rlimit(100)]
fn p_pairs(s: &[u8], i: usize, n: usize, d: usize) -> (r: Result<
    (Vec<(Value, Value)>, usize),
    ParseError,
>)
    requires
        i <= s@.len(),
        s@.len() <= usize::MAX,
    ensures
        match r {
            Ok((ps, j)) => ({
                &&& sp_pairs(s@, i as int, n as int, d as nat) == Ok::<
                    (PairsV, int),
                    ParseError,
                >((view_pairs(ps@), j as int))
                &&& i <= j <= s@.len()
                &&& crate::model::valid_pairs(view_pairs(ps@))
            }),
            Err(e) => sp_pairs(s@, i as int, n as int, d as nat) == Err::<
                (PairsV, int),
                ParseError,
            >(e),
        },
    decreases d, 4int, 0int,
{
    let mut acc: Vec<(Value, Value)> = Vec::new();
    let mut cur: usize = i;
    let mut k: usize = 0;
    proof {
        assert(view_pairs(acc@) =~= Seq::<(ValueV, ValueV)>::empty());
    }
    while k < n
        invariant
            0 <= k <= n,
            i <= cur <= s@.len(),
            s@.len() <= usize::MAX,
            crate::model::valid_pairs(view_pairs(acc@)),
            (sp_pairs(s@, cur as int, n - k, d as nat) matches Ok((ps, j)) ==> sp_pairs(
                s@,
                i as int,
                n as int,
                d as nat,
            ) == Ok::<(PairsV, int), ParseError>((view_pairs(acc@).add(ps), j))),
            (sp_pairs(s@, cur as int, n - k, d as nat) matches Err(e) ==> sp_pairs(
                s@,
                i as int,
                n as int,
                d as nat,
            ) == Err::<(PairsV, int), ParseError>(e)),
        decreases n - k,
    {
        let ghost pre = view_pairs(acc@);
        match p_value(s, cur, d) {
            Err(e) => {
                return Err(e);
            },
            Ok((kv, j1)) => {
                match p_value(s, j1, d) {
                    Err(e) => {
                        return Err(e);
                    },
                    Ok((vv, j2)) => {
                        proof {
                            crate::model::lemma_valid_pairs_index(pre);
                            lemma_view_pairs(acc@);
                        }
                        let ghost kvv = kv@;
                        let ghost vvv = vv@;
                        acc.push((kv, vv));
                        proof {
                            lemma_view_pairs(acc@);
                            assert(view_pairs(acc@) =~= pre.add(seq![(kvv, vvv)])) by {
                                crate::value::lemma_view_pairs_eq(
                                    acc@,
                                    pre.add(seq![(kvv, vvv)]),
                                );
                            }
                            crate::model::lemma_valid_pairs_index(view_pairs(acc@));
                            assert forall|q: int|
                                0 <= q < view_pairs(acc@).len() implies valid_value(
                                (#[trigger] view_pairs(acc@)[q]).0,
                            ) && valid_value(view_pairs(acc@)[q].1) by {
                                if q < pre.len() {
                                    assert(view_pairs(acc@)[q] == pre[q]);
                                } else {
                                    assert(view_pairs(acc@)[q] == (kvv, vvv));
                                }
                            }
                        }
                        cur = j2;
                        k = k + 1;
                        proof {
                            assert forall|ps2: PairsV, jj: int|
                                sp_pairs(s@, cur as int, n - k, d as nat) == Ok::<
                                    (PairsV, int),
                                    ParseError,
                                >((ps2, jj)) implies sp_pairs(s@, i as int, n as int, d as nat)
                                == Ok::<(PairsV, int), ParseError>((
                                view_pairs(acc@).add(ps2),
                                jj,
                            )) by {
                                assert(pre.add(seq![(kvv, vvv)].add(ps2)) =~= pre.add(
                                    seq![(kvv, vvv)],
                                ).add(ps2));
                            }
                        }
                    },
                }
            },
        }
    }
    proof {
        assert(sp_pairs(s@, cur as int, 0, d as nat) == Ok::<(PairsV, int), ParseError>(
            (Seq::<(ValueV, ValueV)>::empty(), cur as int),
        ));
        assert(view_pairs(acc@).add(Seq::<(ValueV, ValueV)>::empty()) =~= view_pairs(acc@));
    }
    Ok((acc, cur))
}

/// Parses an attribute prefix at `i`.
fn p_attr(s: &[u8], i: usize, d: usize) -> (r: Result<(Attribute, usize), ParseError>)
    requires
        i < s@.len(),
        s@.len() <= usize::MAX,
    ensures
        match r {
            Ok((a, j)) => ({
                &&& sp_attr(s@, i as int, d as nat) == Ok::<(PairsV, int), ParseError>(
                    (a@, j as int),
                )
                &&& i <= j <= s@.len()
                &&& crate::model::valid_attr_opt(Some(a@))
            }),
            Err(e) => sp_attr(s@, i as int, d as nat) == Err::<(PairsV, int), ParseError>(e),
        },
    decreases d, 2int, 0int,
{
    if d == 0 {
        return Err(ParseError::RecursionLimitExceeded);
    }
    match p_length(s, i + 1) {
        Err(e) => Err(e),
        Ok((n, j)) => match p_crlf(s, j) {
            Err(e) => Err(e),
            Ok(j2) => match p_pairs(s, j2, n, d - 1) {
                Err(e) => Err(e),
                Ok((ps, k)) => {
                    let val = crate::canon::canonicalize_pairs(ps);
                    proof {
                        vstd::std_specs::vec::axiom_spec_len(&val);
                        lemma_view_pairs(val@);
                    }
                    Ok((Attribute { val }, k))
                },
            },
        },
    }
}

/// Parses an array at `i`.
fn p_array(s: &[u8], i: usize, d: usize) -> (r: Result<(Value, usize), ParseError>)
    requires
        i < s@.len(),
        s@.len() <= usize::MAX,
        s@[i as int] == D_ARRAY,
    ensures
        match r {
            Ok((v, j)) => sp_array(s@, i as int, d as nat) == Ok::<(ValueV, int), ParseError>(
                (v@, j as int),
            ) && i <= j <= s@.len() && valid_value(v@),
            Err(e) => sp_array(s@, i as int, d as nat) == Err::<(ValueV, int), ParseError>(e),
        },
    decreases d, 2int, 0int,
{
    if d == 0 {
        return Err(ParseError::RecursionLimitExceeded);
    }
    match p_length(s, i + 1) {
        Err(e) => Err(e),
        Ok((n, j)) => match p_crlf(s, j) {
            Err(e) => Err(e),
            Ok(j2) => match p_items(s, j2, n, d - 1) {
                Err(e) => Err(e),
                Ok((vs, k)) => {
                    proof {
                        vstd::std_specs::vec::axiom_spec_len(&vs);
                        lemma_view_items(vs@);
                    }
                    Ok((Value::Array(Array { val: vs, attr: None }), k))
                },
            },
        },
    }
}

/// Parses a set at `i`.
fn p_set(s: &[u8], i: usize, d: usize) -> (r: Result<(Value, usize), ParseError>)
    requires
        i < s@.len(),
        s@.len() <= usize::MAX,
        s@[i as int] == D_SET,
    ensures
        match r {
            Ok((v, j)) => sp_set(s@, i as int, d as nat) == Ok::<(ValueV, int), ParseError>(
                (v@, j as int),
            ) && i <= j <= s@.len() && valid_value(v@),
            Err(e) => sp_set(s@, i as int, d as nat) == Err::<(ValueV, int), ParseError>(e),
        },
    decreases d, 2int, 0int,
{
    if d == 0 {
        return Err(ParseError::RecursionLimitExceeded);
    }
    match p_length(s, i + 1) {
        Err(e) => Err(e),
        Ok((n, j)) => match p_crlf(s, j) {
            Err(e) => Err(e),
            Ok(j2) => match p_items(s, j2, n, d - 1) {
                Err(e) => Err(e),
                Ok((vs, k)) => {
                    let val = crate::canon::canonicalize_items(vs);
                    proof {
                        vstd::std_specs::vec::axiom_spec_len(&val);
                        lemma_view_items(val@);
                    }
                    Ok((Value::ValueSet(ValueSet { val, attr: None }), k))
                },
            },
        },
    }
}

/// Parses a map at `i`.
fn p_map(s: &[u8], i: usize, d: usize) -> (r: Result<(Value, usize), ParseError>)
    requires
        i < s@.len(),
        s@.len() <= usize::MAX,
        s@[i as int] == D_MAP,
    ensures
        match r {
            Ok((v, j)) => sp_map(s@, i as int, d as nat) == Ok::<(ValueV, int), ParseError>(
                (v@, j as int),
            ) && i <= j <= s@.len() && valid_value(v@),
            Err(e) => sp_map(s@, i as int, d as nat) == Err::<(ValueV, int), ParseError>(e),
        },
    decreases d, 2int, 0int,
{
    if d == 0 {
        return Err(ParseError::RecursionLimitExceeded);
    }
    match p_length(s, i + 1) {
        Err(e) => Err(e),
        Ok((n, j)) => match p_crlf(s, j) {
            Err(e) => Err(e),
            Ok(j2) => match p_pairs(s, j2, n, d - 1) {
                Err(e) => Err(e),
                Ok((ps, k)) => {
                    let val = crate::canon::canonicalize_pairs(ps);
                    proof {
                        vstd::std_specs::vec::axiom_spec_len(&val);
                        lemma_view_pairs(val@);
                    }
                    Ok((Value::ValueMap(ValueMap { val, attr: None }), k))
                },
            },
        },
    }
}

/// Dispatches on the discriminator at `i`; the attribute prefix has been
/// consumed.
fn p_core(s: &[u8], i: usize, d: usize) -> (r: Result<(Value, usize), ParseError>)
    requires
        i <= s@.len(),
        s@.len() <= usize::MAX,
        d >= 1,
    ensures
        match r {
            Ok((v, j)) => sp_core(s@, i as int, d as nat) == Ok::<(ValueV, int), ParseError>(
                (v@, j as int),
            ) && i <= j <= s@.len() && valid_value(v@),
            Err(e) => sp_core(s@, i as int, d as nat) == Err::<(ValueV, int), ParseError>(e),
        },
    decreases d, 2int, 1int,
{
    if i >= s.len() {
        return Err(ParseError::TruncatedInput);
    }
    let b = *vstd::slice::slice_index_get(s, i);
    if b == D_NULL {
        p_null(s, i)
    } else if b == D_BOOLEAN {
        p_boolean(s, i)
    } else if b == D_NUMBER {
        p_number(s, i)
    } else if b == D_BIG_NUMBER {
        p_big_number(s, i)
    } else if b == D_DOUBLE {
        p_double(s, i)
    } else if b == D_SIMPLE_STRING {
        p_simple_string(s, i)
    } else if b == D_SIMPLE_ERROR {
        p_simple_error(s, i)
    } else if b == D_BLOB_STRING {
        p_blob_string(s, i)
    } else if b == D_BLOB_ERROR {
        p_blob_error(s, i)
    } else if b == D_VERBATIM_STRING {
        p_verbatim(s, i)
    } else if b == D_ARRAY {
        p_array(s, i, d)
    } else if b == D_SET {
        p_set(s, i, d)
    } else if b == D_MAP {
        p_map(s, i, d)
    } else {
        Err(ParseError::MalformedDiscriminator)
    }
}

/// Parses one value at `i`: an optional attribute prefix, then the value it
/// decorates.
pub(crate) fn p_value(s: &[u8], i: usize, d: usize) -> (r: Result<(Value, usize), ParseError>)
    requires
        i <= s@.len(),
        s@.len() <= usize::MAX,
    ensures
        match r {
            Ok((v, j)) => sp_value(s@, i as int, d as nat) == Ok::<(ValueV, int), ParseError>(
                (v@, j as int),
            ) && i <= j <= s@.len() && valid_value(v@),
            Err(e) => sp_value(s@, i as int, d as nat) == Err::<(ValueV, int), ParseError>(e),
        },
    decreases d, 3int, 0int,
{
    if d == 0 {
        return Err(ParseError::RecursionLimitExceeded);
    }
    if i >= s.len() {
        return Err(ParseError::TruncatedInput);
    }
    let b = *vstd::slice::slice_index_get(s, i);
    if b == D_ATTRIBUTE {
        match p_attr(s, i, d) {
            Err(e) => Err(e),
            Ok((at, j)) => match p_core(s, j, d) {
                Err(e) => Err(e),
                Ok((v, k)) => {
                    proof {
                        crate::model::lemma_with_attr_valid(v@, Some(at@));
                    }
                    Ok((v.attach_attr(at), k))
                },
            },
        }
    } else {
        p_core(s, i, d)
    }
}


/// Parses one value that must carry the given discriminator, after an
/// optional attribute prefix.  This is what the per-variant `parse`
/// functions mean: any other discriminator is rejected without consuming
/// input.
pub open spec fn sp_variant(s: Seq<u8>, d: nat, disc: u8) -> Result<(ValueV, int), ParseError> {
    if d == 0 {
        Err(ParseError::RecursionLimitExceeded)
    } else if s.len() == 0 {
        Err(ParseError::TruncatedInput)
    } else if s[0] == D_ATTRIBUTE {
        match sp_attr(s, 0, d) {
            Err(e) => Err(e),
            Ok((ps, j)) => if j >= s.len() {
                Err(ParseError::TruncatedInput)
            } else if s[j] != disc {
                Err(ParseError::MalformedDiscriminator)
            } else {
                match sp_core(s, j, d) {
                    Err(e) => Err(e),
                    Ok((v, k)) => Ok((crate::model::with_attr_of(v, Some(ps)), k)),
                }
            },
        }
    } else if s[0] != disc {
        Err(ParseError::MalformedDiscriminator)
    } else {
        sp_core(s, 0, d)
    }
}

/// A successful variant parse yields the variant of its discriminator.
proof fn lemma_sp_variant_tag(s: Seq<u8>, d: nat, disc: u8)
    requires
        sp_variant(s, d, disc) is Ok,
    ensures
        ({
            let v = sp_variant(s, d, disc)->Ok_0.0;
            &&& disc == D_NULL ==> v is Null
            &&& disc == D_BOOLEAN ==> v is Boolean
            &&& disc == D_NUMBER ==> v is Number
            &&& disc == D_BIG_NUMBER ==> v is BigNumber
            &&& disc == D_DOUBLE ==> v is Double
            &&& disc == D_SIMPLE_STRING ==> v is SimpleString
            &&& disc == D_SIMPLE_ERROR ==> v is SimpleError
            &&& disc == D_BLOB_STRING ==> v is BlobString
            &&& disc == D_BLOB_ERROR ==> v is BlobError
            &&& disc == D_VERBATIM_STRING ==> v is VerbatimString
            &&& disc == D_ARRAY ==> v is Array
            &&& disc == D_SET ==> v is ValueSet
            &&& disc == D_MAP ==> v is ValueMap
        }),
{
    let j = if s[0] == D_ATTRIBUTE {
        sp_attr(s, 0, d)->Ok_0.1
    } else {
        0
    };
    assert(sp_core(s, j, d) is Ok);
    assert(0 <= j < s.len() && s[j] == disc);
    let core = sp_core(s, j, d)->Ok_0.0;
    let v = sp_variant(s, d, disc)->Ok_0.0;
    assert(v == core || v == crate::model::with_attr_of(core, Some(sp_attr(s, 0, d)->Ok_0.0)));
}

/// Shared body of the per-variant `parse` functions.
fn p_variant(s: &[u8], disc: u8, d: usize) -> (r: Result<(Value, usize), ParseError>)
    requires
        s@.len() <= usize::MAX,
        d >= 1,
    ensures
        match r {
            Ok((v, j)) => sp_variant(s@, d as nat, disc) == Ok::<(ValueV, int), ParseError>(
                (v@, j as int),
            ) && j <= s@.len() && valid_value(v@),
            Err(e) => sp_variant(s@, d as nat, disc) == Err::<(ValueV, int), ParseError>(e),
        },
{
    if s.len() == 0 {
        return Err(ParseError::TruncatedInput);
    }
    let b = *vstd::slice::slice_index_get(s, 0);
    if b == D_ATTRIBUTE {
        match p_attr(s, 0, d) {
            Err(e) => Err(e),
            Ok((at, j)) => {
                if j >= s.len() {
                    return Err(ParseError::TruncatedInput);
                }
                let b2 = *vstd::slice::slice_index_get(s, j);
                if b2 != disc {
                    return Err(ParseError::MalformedDiscriminator);
                }
                match p_core(s, j, d) {
                    Err(e) => Err(e),
                    Ok((v, k)) => {
                        proof {
                            crate::model::lemma_with_attr_valid(v@, Some(at@));
                        }
                        Ok((v.attach_attr(at), k))
                    },
                }
            },
        }
    } else if b != disc {
        Err(ParseError::MalformedDiscriminator)
    } else {
        p_core(s, 0, d)
    }
}

impl Value {
    /// Parses one value from the front of `input` and returns the unconsumed
    /// remainder beside it.  Fails exactly when the input does not start
    /// with a well-formed value; the remainder is untouched input.
    pub fn parse(input: &[u8]) -> (r: Result<(&[u8], Self), ParseError>)
        ensures
            match r {
                Ok((rest, v)) => ({
                    &&& sp_value(input@, 0, crate::model::MAX_DEPTH as nat) == Ok::<
                        (ValueV, int),
                        ParseError,
                    >((v@, input@.len() - rest@.len()))
                    &&& rest@ == input@.skip(input@.len() - rest@.len())
                    &&& valid_value(v@)
                }),
                Err(e) => sp_value(input@, 0, crate::model::MAX_DEPTH as nat) == Err::<
                    (ValueV, int),
                    ParseError,
                >(e),
            },
    {
        let n = input.len();
        match p_value(input, 0, crate::model::MAX_DEPTH) {
            Err(e) => Err(e),
            Ok((v, j)) => {
                let rest = vstd::slice::slice_subrange(input, j, n);
                assert(rest@ =~= input@.skip(j as int));
                Ok((rest, v))
            },
        }
    }
}

impl Attribute {
    /// Parses an attribute from the front of `input` and returns the
    /// unconsumed remainder beside it.
    pub fn parse(input: &[u8]) -> (r: Result<(&[u8], Self), ParseError>)
        ensures
            match r {
                Ok((rest, a)) => ({
                    &&& input@.len() > 0 && input@[0] == D_ATTRIBUTE
                    &&& sp_attr(input@, 0, crate::model::MAX_DEPTH as nat) == Ok::<
                        (PairsV, int),
                        ParseError,
                    >((a@, input@.len() - rest@.len()))
                    &&& rest@ == input@.skip(input@.len() - rest@.len())
                    &&& crate::model::valid_attr_opt(Some(a@))
                }),
                Err(e) => ({
                    ||| input@.len() == 0 && e == ParseError::TruncatedInput
                    ||| input@.len() > 0 && input@[0] != D_ATTRIBUTE
                        && e == ParseError::MalformedDiscriminator
                    ||| input@.len() > 0 && input@[0] == D_ATTRIBUTE && sp_attr(
                        input@,
                        0,
                        crate::model::MAX_DEPTH as nat,
                    ) == Err::<(PairsV, int), ParseError>(e)
                }),
            },
    {
        let n = input.len();
        if n == 0 {
            return Err(ParseError::TruncatedInput);
        }
        let b = *vstd::slice::slice_index_get(input, 0);
        if b != D_ATTRIBUTE {
            return Err(ParseError::MalformedDiscriminator);
        }
        match p_attr(input, 0, crate::model::MAX_DEPTH) {
            Err(e) => Err(e),
            Ok((a, j)) => {
                let rest = vstd::slice::slice_subrange(input, j, n);
                assert(rest@ =~= input@.skip(j as int));
                Ok((rest, a))
            },
        }
    }
}

impl Null {
    /// Parses a null (with an optional attribute prefix) from the front
    /// of `input` and returns the unconsumed remainder beside it.  Input
    /// that starts with any other variant is rejected.
    pub fn parse(input: &[u8]) -> (r: Result<(&[u8], Self), ParseError>)
        ensures
            match r {
                Ok((rest, x)) => ({
                    &&& sp_variant(input@, crate::model::MAX_DEPTH as nat, D_NULL) == Ok::<
                        (ValueV, int),
                        ParseError,
                    >((x@, input@.len() - rest@.len()))
                    &&& rest@ == input@.skip(input@.len() - rest@.len())
                    &&& valid_value(x@)
                }),
                Err(e) => sp_variant(input@, crate::model::MAX_DEPTH as nat, D_NULL) == Err::<
                    (ValueV, int),
                    ParseError,
                >(e),
            },
    {
        let n = input.len();
        match p_variant(input, D_NULL, crate::model::MAX_DEPTH) {
            Err(e) => Err(e),
            Ok((v, j)) => {
                proof {
                    lemma_sp_variant_tag(input@, crate::model::MAX_DEPTH as nat, D_NULL);
                    crate::value::lemma_view_variant(v);
                }
                let rest = vstd::slice::slice_subrange(input, j, n);
                assert(rest@ =~= input@.skip(j as int));
                match v {
                    Value::Null(x) => Ok((rest, x)),
                    _ => Err(ParseError::MalformedDiscriminator),
                }
            },
        }
    }
}

impl Boolean {
    /// Parses a boolean (with an optional attribute prefix) from the front
    /// of `input` and returns the unconsumed remainder beside it.  Input
    /// that starts with any other variant is rejected.
    pub fn parse(input: &[u8]) -> (r: Result<(&[u8], Self), ParseError>)
        ensures
            match r {
                Ok((rest, x)) => ({
                    &&& sp_variant(input@, crate::model::MAX_DEPTH as nat, D_BOOLEAN) == Ok::<
                        (ValueV, int),
                        ParseError,
                    >((x@, input@.len() - rest@.len()))
                    &&& rest@ == input@.skip(input@.len() - rest@.len())
                    &&& valid_value(x@)
                }),
                Err(e) => sp_variant(input@, crate::model::MAX_DEPTH as nat, D_BOOLEAN) == Err::<
                    (ValueV, int),
                    ParseError,
                >(e),
            },
    {
        let n = input.len();
        match p_variant(input, D_BOOLEAN, crate::model::MAX_DEPTH) {
            Err(e) => Err(e),
            Ok((v, j)) => {
                proof {
                    lemma_sp_variant_tag(input@, crate::model::MAX_DEPTH as nat, D_BOOLEAN);
                    crate::value::lemma_view_variant(v);
                }
                let rest = vstd::slice::slice_subrange(input, j, n);
                assert(rest@ =~= input@.skip(j as int));
                match v {
                    Value::Boolean(x) => Ok((rest, x)),
                    _ => Err(ParseError::MalformedDiscriminator),
                }
            },
        }
    }
}

impl Number {
    /// Parses a number (with an optional attribute prefix) from the front
    /// of `input` and returns the unconsumed remainder beside it.  Input
    /// that starts with any other variant is rejected.
    pub fn parse(input: &[u8]) -> (r: Result<(&[u8], Self), ParseError>)
        ensures
            match r {
                Ok((rest, x)) => ({
                    &&& sp_variant(input@, crate::model::MAX_DEPTH as nat, D_NUMBER) == Ok::<
                        (ValueV, int),
                        ParseError,
                    >((x@, input@.len() - rest@.len()))
                    &&& rest@ == input@.skip(input@.len() - rest@.len())
                    &&& valid_value(x@)
                }),
                Err(e) => sp_variant(input@, crate::model::MAX_DEPTH as nat, D_NUMBER) == Err::<
                    (ValueV, int),
                    ParseError,
                >(e),
            },
    {
        let n = input.len();
        match p_variant(input, D_NUMBER, crate::model::MAX_DEPTH) {
            Err(e) => Err(e),
            Ok((v, j)) => {
                proof {
                    lemma_sp_variant_tag(input@, crate::model::MAX_DEPTH as nat, D_NUMBER);
                    crate::value::lemma_view_variant(v);
                }
                let rest = vstd::slice::slice_subrange(input, j, n);
                assert(rest@ =~= input@.skip(j as int));
                match v {
                    Value::Number(x) => Ok((rest, x)),
                    _ => Err(ParseError::MalformedDiscriminator),
                }
            },
        }
    }
}

impl BigNumber {
    /// Parses a big number (with an optional attribute prefix) from the front
    /// of `input` and returns the unconsumed remainder beside it.  Input
    /// that starts with any other variant is rejected.
    pub fn parse(input: &[u8]) -> (r: Result<(&[u8], Self), ParseError>)
        ensures
            match r {
                Ok((rest, x)) => ({
                    &&& sp_variant(input@, crate::model::MAX_DEPTH as nat, D_BIG_NUMBER) == Ok::<
                        (ValueV, int),
                        ParseError,
                    >((x@, input@.len() - rest@.len()))
                    &&& rest@ == input@.skip(input@.len() - rest@.len())
                    &&& valid_value(x@)
                }),
                Err(e) => sp_variant(input@, crate::model::MAX_DEPTH as nat, D_BIG_NUMBER) == Err::<
                    (ValueV, int),
                    ParseError,
                >(e),
            },
    {
        let n = input.len();
        match p_variant(input, D_BIG_NUMBER, crate::model::MAX_DEPTH) {
            Err(e) => Err(e),
            Ok((v, j)) => {
                proof {
                    lemma_sp_variant_tag(input@, crate::model::MAX_DEPTH as nat, D_BIG_NUMBER);
                    crate::value::lemma_view_variant(v);
                }
                let rest = vstd::slice::slice_subrange(input, j, n);
                assert(rest@ =~= input@.skip(j as int));
                match v {
                    Value::BigNumber(x) => Ok((rest, x)),
                    _ => Err(ParseError::MalformedDiscriminator),
                }
            },
        }
    }
}

impl Double {
    /// Parses a double (with an optional attribute prefix) from the front
    /// of `input` and returns the unconsumed remainder beside it.  Input
    /// that starts with any other variant is rejected.
    pub fn parse(input: &[u8]) -> (r: Result<(&[u8], Self), ParseError>)
        ensures
            match r {
                Ok((rest, x)) => ({
                    &&& sp_variant(input@, crate::model::MAX_DEPTH as nat, D_DOUBLE) == Ok::<
                        (ValueV, int),
                        ParseError,
                    >((x@, input@.len() - rest@.len()))
                    &&& rest@ == input@.skip(input@.len() - rest@.len())
                    &&& valid_value(x@)
                }),
                Err(e) => sp_variant(input@, crate::model::MAX_DEPTH as nat, D_DOUBLE) == Err::<
                    (ValueV, int),
                    ParseError,
                >(e),
            },
    {
        let n = input.len();
        match p_variant(input, D_DOUBLE, crate::model::MAX_DEPTH) {
            Err(e) => Err(e),
            Ok((v, j)) => {
                proof {
                    lemma_sp_variant_tag(input@, crate::model::MAX_DEPTH as nat, D_DOUBLE);
                    crate::value::lemma_view_variant(v);
                }
                let rest = vstd::slice::slice_subrange(input, j, n);
                assert(rest@ =~= input@.skip(j as int));
                match v {
                    Value::Double(x) => Ok((rest, x)),
                    _ => Err(ParseError::MalformedDiscriminator),
                }
            },
        }
    }
}

impl SimpleString {
    /// Parses a simple string (with an optional attribute prefix) from the front
    /// of `input` and returns the unconsumed remainder beside it.  Input
    /// that starts with any other variant is rejected.
    pub fn parse(input: &[u8]) -> (r: Result<(&[u8], Self), ParseError>)
        ensures
            match r {
                Ok((rest, x)) => ({
                    &&& sp_variant(input@, crate::model::MAX_DEPTH as nat, D_SIMPLE_STRING) == Ok::<
                        (ValueV, int),
                        ParseError,
                    >((x@, input@.len() - rest@.len()))
                    &&& rest@ == input@.skip(input@.len() - rest@.len())
                    &&& valid_value(x@)
                }),
                Err(e) => sp_variant(input@, crate::model::MAX_DEPTH as nat, D_SIMPLE_STRING) == Err::<
                    (ValueV, int),
                    ParseError,
                >(e),
            },
    {
        let n = input.len();
        match p_variant(input, D_SIMPLE_STRING, crate::model::MAX_DEPTH) {
            Err(e) => Err(e),
            Ok((v, j)) => {
                proof {
                    lemma_sp_variant_tag(input@, crate::model::MAX_DEPTH as nat, D_SIMPLE_STRING);
                    crate::value::lemma_view_variant(v);
                }
                let rest = vstd::slice::slice_subrange(input, j, n);
                assert(rest@ =~= input@.skip(j as int));
                match v {
                    Value::SimpleString(x) => Ok((rest, x)),
                    _ => Err(ParseError::MalformedDiscriminator),
                }
            },
        }
    }
}

impl SimpleError {
    /// Parses a simple error (with an optional attribute prefix) from the front
    /// of `input` and returns the unconsumed remainder beside it.  Input
    /// that starts with any other variant is rejected.
    #[verifier::rlimit(50)]
    #[verifier::spinoff_prover]
    pub fn parse(input: &[u8]) -> (r: Result<(&[u8], Self), ParseError>)
        ensures
            match r {
                Ok((rest, x)) => ({
                    &&& sp_variant(input@, crate::model::MAX_DEPTH as nat, D_SIMPLE_ERROR) == Ok::<
                        (ValueV, int),
                        ParseError,
                    >((x@, input@.len() - rest@.len()))
                    &&& rest@ == input@.skip(input@.len() - rest@.len())
                    &&& valid_value(x@)
                }),
                Err(e) => sp_variant(input@, crate::model::MAX_DEPTH as nat, D_SIMPLE_ERROR) == Err::<
                    (ValueV, int),
                    ParseError,
                >(e),
            },
    {
        let n = input.len();
        match p_variant(input, D_SIMPLE_ERROR, crate::model::MAX_DEPTH) {
            Err(e) => Err(e),
            Ok((v, j)) => {
                proof {
                    lemma_sp_variant_tag(input@, crate::model::MAX_DEPTH as nat, D_SIMPLE_ERROR);
                    crate::value::lemma_view_variant(v);
                }
                let rest = vstd::slice::slice_subrange(input, j, n);
                assert(rest@ =~= input@.skip(j as int));
                match v {
                    Value::SimpleError(x) => Ok((rest, x)),
                    _ => Err(ParseError::MalformedDiscriminator),
                }
            },
        }
    }
}

impl BlobString {
    /// Parses a blob string (with an optional attribute prefix) from the front
    /// of `input` and returns the unconsumed remainder beside it.  Input
    /// that starts with any other variant is rejected.
    pub fn parse(input: &[u8]) -> (r: Result<(&[u8], Self), ParseError>)
        ensures
            match r {
                Ok((rest, x)) => ({
                    &&& sp_variant(input@, crate::model::MAX_DEPTH as nat, D_BLOB_STRING) == Ok::<
                        (ValueV, int),
                        ParseError,
                    >((x@, input@.len() - rest@.len()))
                    &&& rest@ == input@.skip(input@.len() - rest@.len())
                    &&& valid_value(x@)
                }),
                Err(e) => sp_variant(input@, crate::model::MAX_DEPTH as nat, D_BLOB_STRING) == Err::<
                    (ValueV, int),
                    ParseError,
                >(e),
            },
    {
        let n = input.len();
        match p_variant(input, D_BLOB_STRING, crate::model::MAX_DEPTH) {
            Err(e) => Err(e),
            Ok((v, j)) => {
                proof {
                    lemma_sp_variant_tag(input@, crate::model::MAX_DEPTH as nat, D_BLOB_STRING);
                    crate::value::lemma_view_variant(v);
                }
                let rest = vstd::slice::slice_subrange(input, j, n);
                assert(rest@ =~= input@.skip(j as int));
                match v {
                    Value::BlobString(x) => Ok((rest, x)),
                    _ => Err(ParseError::MalformedDiscriminator),
                }
            },
        }
    }
}

impl BlobError {
    /// Parses a blob error (with an optional attribute prefix) from the front
    /// of `input` and returns the unconsumed remainder beside it.  Input
    /// that starts with any other variant is rejected.
    pub fn parse(input: &[u8]) -> (r: Result<(&[u8], Self), ParseError>)
        ensures
            match r {
                Ok((rest, x)) => ({
                    &&& sp_variant(input@, crate::model::MAX_DEPTH as nat, D_BLOB_ERROR) == Ok::<
                        (ValueV, int),
                        ParseError,
                    >((x@, input@.len() - rest@.len()))
                    &&& rest@ == input@.skip(input@.len() - rest@.len())
                    &&& valid_value(x@)
                }),
                Err(e) => sp_variant(input@, crate::model::MAX_DEPTH as nat, D_BLOB_ERROR) == Err::<
                    (ValueV, int),
                    ParseError,
                >(e),
            },
    {
        let n = input.len();
        match p_variant(input, D_BLOB_ERROR, crate::model::MAX_DEPTH) {
            Err(e) => Err(e),
            Ok((v, j)) => {
                proof {
                    lemma_sp_variant_tag(input@, crate::model::MAX_DEPTH as nat, D_BLOB_ERROR);
                    crate::value::lemma_view_variant(v);
                }
                let rest = vstd::slice::slice_subrange(input, j, n);
                assert(rest@ =~= input@.skip(j as int));
                match v {
                    Value::BlobError(x) => Ok((rest, x)),
                    _ => Err(ParseError::MalformedDiscriminator),
                }
            },
        }
    }
}

impl VerbatimString {
    /// Parses a verbatim string (with an optional attribute prefix) from the front
    /// of `input` and returns the unconsumed remainder beside it.  Input
    /// that starts with any other variant is rejected.
    pub fn parse(input: &[u8]) -> (r: Result<(&[u8], Self), ParseError>)
        ensures
            match r {
                Ok((rest, x)) => ({
                    &&& sp_variant(input@, crate::model::MAX_DEPTH as nat, D_VERBATIM_STRING) == Ok::<
                        (ValueV, int),
                        ParseError,
                    >((x@, input@.len() - rest@.len()))
                    &&& rest@ == input@.skip(input@.len() - rest@.len())
                    &&& valid_value(x@)
                }),
                Err(e) => sp_variant(input@, crate::model::MAX_DEPTH as nat, D_VERBATIM_STRING) == Err::<
                    (ValueV, int),
                    ParseError,
                >(e),
            },
    {
        let n = input.len();
        match p_variant(input, D_VERBATIM_STRING, crate::model::MAX_DEPTH) {
            Err(e) => Err(e),
            Ok((v, j)) => {
                proof {
                    lemma_sp_variant_tag(input@, crate::model::MAX_DEPTH as nat, D_VERBATIM_STRING);
                    crate::value::lemma_view_variant(v);
                }
                let rest = vstd::slice::slice_subrange(input, j, n);
                assert(rest@ =~= input@.skip(j as int));
                match v {
                    Value::VerbatimString(x) => Ok((rest, x)),
                    _ => Err(ParseError::MalformedDiscriminator),
                }
            },
        }
    }
}

impl Array {
    /// Parses a array (with an optional attribute prefix) from the front
    /// of `input` and returns the unconsumed remainder beside it.  Input
    /// that starts with any other variant is rejected.
    pub fn parse(input: &[u8]) -> (r: Result<(&[u8], Self), ParseError>)
        ensures
            match r {
                Ok((rest, x)) => ({
                    &&& sp_variant(input@, crate::model::MAX_DEPTH as nat, D_ARRAY) == Ok::<
                        (ValueV, int),
                        ParseError,
                    >((x@, input@.len() - rest@.len()))
                    &&& rest@ == input@.skip(input@.len() - rest@.len())
                    &&& valid_value(x@)
                }),
                Err(e) => sp_variant(input@, crate::model::MAX_DEPTH as nat, D_ARRAY) == Err::<
                    (ValueV, int),
                    ParseError,
                >(e),
            },
    {
        let n = input.len();
        match p_variant(input, D_ARRAY, crate::model::MAX_DEPTH) {
            Err(e) => Err(e),
            Ok((v, j)) => {
                proof {
                    lemma_sp_variant_tag(input@, crate::model::MAX_DEPTH as nat, D_ARRAY);
                    crate::value::lemma_view_variant(v);
                }
                let rest = vstd::slice::slice_subrange(input, j, n);
                assert(rest@ =~= input@.skip(j as int));
                match v {
                    Value::Array(x) => Ok((rest, x)),
                    _ => Err(ParseError::MalformedDiscriminator),
                }
            },
        }
    }
}

impl ValueSet {
    /// Parses a set (with an optional attribute prefix) from the front
    /// of `input` and returns the unconsumed remainder beside it.  Input
    /// that starts with any other variant is rejected.
    pub fn parse(input: &[u8]) -> (r: Result<(&[u8], Self), ParseError>)
        ensures
            match r {
                Ok((rest, x)) => ({
                    &&& sp_variant(input@, crate::model::MAX_DEPTH as nat, D_SET) == Ok::<
                        (ValueV, int),
                        ParseError,
                    >((x@, input@.len() - rest@.len()))
                    &&& rest@ == input@.skip(input@.len() - rest@.len())
                    &&& valid_value(x@)
                }),
                Err(e) => sp_variant(input@, crate::model::MAX_DEPTH as nat, D_SET) == Err::<
                    (ValueV, int),
                    ParseError,
                >(e),
            },
    {
        let n = input.len();
        match p_variant(input, D_SET, crate::model::MAX_DEPTH) {
            Err(e) => Err(e),
            Ok((v, j)) => {
                proof {
                    lemma_sp_variant_tag(input@, crate::model::MAX_DEPTH as nat, D_SET);
                    crate::value::lemma_view_variant(v);
                }
                let rest = vstd::slice::slice_subrange(input, j, n);
                assert(rest@ =~= input@.skip(j as int));
                match v {
                    Value::ValueSet(x) => Ok((rest, x)),
                    _ => Err(ParseError::MalformedDiscriminator),
                }
            },
        }
    }
}

impl ValueMap {
    /// Parses a map (with an optional attribute prefix) from the front
    /// of `input` and returns the unconsumed remainder beside it.  Input
    /// that starts with any other variant is rejected.
    pub fn parse(input: &[u8]) -> (r: Result<(&[u8], Self), ParseError>)
        ensures
            match r {
                Ok((rest, x)) => ({
                    &&& sp_variant(input@, crate::model::MAX_DEPTH as nat, D_MAP) == Ok::<
                        (ValueV, int),
                        ParseError,
                    >((x@, input@.len() - rest@.len()))
                    &&& rest@ == input@.skip(input@.len() - rest@.len())
                    &&& valid_value(x@)
                }),
                Err(e) => sp_variant(input@, crate::model::MAX_DEPTH as nat, D_MAP) == Err::<
                    (ValueV, int),
                    ParseError,
                >(e),
            },
    {
        let n = input.len();
        match p_variant(input, D_MAP, crate::model::MAX_DEPTH) {
            Err(e) => Err(e),
            Ok((v, j)) => {
                proof {
                    lemma_sp_variant_tag(input@, crate::model::MAX_DEPTH as nat, D_MAP);
                    crate::value::lemma_view_variant(v);
                }
                let rest = vstd::slice::slice_subrange(input, j, n);
                assert(rest@ =~= input@.skip(j as int));
                match v {
                    Value::ValueMap(x) => Ok((rest, x)),
                    _ => Err(ParseError::MalformedDiscriminator),
                }
            },
        }
    }
}

} // verus!
