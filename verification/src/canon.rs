//! Canonical order of set elements and map keys.
//!
//! Sets and maps keep their contents sorted by the wire images of the
//! elements (for maps, of the keys), with duplicates collapsed: a repeated
//! set element is kept once, a repeated map key keeps the pair seen last.
//! `canon_items`/`canon_pairs` state that construction; the lemmas show that
//! it yields a sorted run and leaves an already sorted run unchanged, which
//! is what the round-trip proof needs.

use vstd::prelude::*;

use crate::lexord::{
    lemma_lex_cmp_antisym, lemma_lex_cmp_eq, lemma_lex_cmp_range, lemma_lex_cmp_trans, lex_cmp,
};
use crate::model::{
    ser_value, sorted_items, sorted_pairs, valid_items, valid_pairs, valid_value,
    lemma_valid_items_index, lemma_valid_pairs_index, PairsV, ValueV,
};
use crate::value::{
    lemma_view_items, lemma_view_items_eq, lemma_view_pairs, lemma_view_pairs_eq, view_items,
    view_pairs, view_value, Value,
};

verus! {

/// Inserts a value into a run sorted by wire image: before the first element
/// not below it, replacing that element when their images coincide.
pub open spec fn insert_item(s: Seq<ValueV>, v: ValueV) -> Seq<ValueV>
    decreases s.len(),
{
    if s.len() == 0 {
        seq![v]
    } else {
        let c = lex_cmp(ser_value(v), ser_value(s[0]));
        if c == -1 {
            seq![v].add(s)
        } else if c == 0 {
            seq![v].add(s.drop_first())
        } else {
            seq![s[0]].add(insert_item(s.drop_first(), v))
        }
    }
}

/// The sorted, deduplicated form of a run of values, built by inserting the
/// elements first to last.
pub open spec fn canon_items(s: Seq<ValueV>) -> Seq<ValueV>
    decreases s.len(),
{
    if s.len() == 0 {
        Seq::empty()
    } else {
        insert_item(canon_items(s.drop_last()), s.last())
    }
}

/// Inserts a pair into a run sorted by the keys' wire images, replacing the
/// pair whose key image coincides.
pub open spec fn insert_pair(ps: PairsV, p: (ValueV, ValueV)) -> PairsV
    decreases ps.len(),
{
    if ps.len() == 0 {
        seq![p]
    } else {
        let c = lex_cmp(ser_value(p.0), ser_value(ps[0].0));
        if c == -1 {
            seq![p].add(ps)
        } else if c == 0 {
            seq![p].add(ps.drop_first())
        } else {
            seq![ps[0]].add(insert_pair(ps.drop_first(), p))
        }
    }
}

/// The sorted form of a run of pairs, keys deduplicated with the last pair
/// winning.
pub open spec fn canon_pairs(ps: PairsV) -> PairsV
    decreases ps.len(),
{
    if ps.len() == 0 {
        Seq::empty()
    } else {
        insert_pair(canon_pairs(ps.drop_last()), ps.last())
    }
}

/// Inserting into a sorted run keeps it sorted, adds no element but the one
/// inserted, and keeps every element well formed.
pub proof fn lemma_insert_item_props(s: Seq<ValueV>, v: ValueV)
    requires
        sorted_items(s),
    ensures
        sorted_items(insert_item(s, v)),
        insert_item(s, v).len() >= 1,
        s.len() <= insert_item(s, v).len() <= s.len() + 1,
        forall|j: int|
            0 <= j < insert_item(s, v).len() ==> #[trigger] insert_item(s, v)[j] == v
                || s.contains(insert_item(s, v)[j]),
    decreases s.len(),
{
    let r = insert_item(s, v);
    if s.len() == 0 {
        assert(r =~= seq![v]);
    } else {
        let c = lex_cmp(ser_value(v), ser_value(s[0]));
        lemma_lex_cmp_range(ser_value(v), ser_value(s[0]));
        if c == -1 {
            assert(r =~= seq![v].add(s));
            assert forall|i: int, j: int| #![trigger r[i], r[j]]
                0 <= i < j < r.len() implies lex_cmp(ser_value(r[i]), ser_value(r[j])) == -1 by {
                if i == 0 {
                    if j == 1 {
                        assert(r[j] == s[0]);
                    } else {
                        assert(r[j] == s[j - 1]);
                        assert(lex_cmp(ser_value(s[0]), ser_value(s[j - 1])) == -1);
                        lemma_lex_cmp_trans(ser_value(v), ser_value(s[0]), ser_value(s[j - 1]));
                    }
                } else {
                    assert(r[i] == s[i - 1] && r[j] == s[j - 1]);
                }
            }
            assert forall|j: int| 0 <= j < r.len() implies #[trigger] r[j] == v || s.contains(
                r[j],
            ) by {
                if j > 0 {
                    assert(r[j] == s[j - 1]);
                }
            }
        } else if c == 0 {
            lemma_lex_cmp_eq(ser_value(v), ser_value(s[0]));
            assert(r =~= seq![v].add(s.drop_first()));
            assert forall|i: int, j: int| #![trigger r[i], r[j]]
                0 <= i < j < r.len() implies lex_cmp(ser_value(r[i]), ser_value(r[j])) == -1 by {
                if i == 0 {
                    assert(r[j] == s[j]);
                    assert(lex_cmp(ser_value(s[0]), ser_value(s[j])) == -1);
                } else {
                    assert(r[i] == s[i] && r[j] == s[j]);
                }
            }
            assert forall|j: int| 0 <= j < r.len() implies #[trigger] r[j] == v || s.contains(
                r[j],
            ) by {
                if j > 0 {
                    assert(r[j] == s[j]);
                }
            }
        } else {
            let s1 = s.drop_first();
            assert(sorted_items(s1)) by {
                assert forall|i: int, j: int| #![trigger s1[i], s1[j]]
                    0 <= i < j < s1.len() implies lex_cmp(ser_value(s1[i]), ser_value(s1[j]))
                    == -1 by {
                    assert(s1[i] == s[i + 1] && s1[j] == s[j + 1]);
                }
            }
            lemma_insert_item_props(s1, v);
            let r1 = insert_item(s1, v);
            assert(r =~= seq![s[0]].add(r1));
            lemma_lex_cmp_antisym(ser_value(v), ser_value(s[0]));
            assert forall|i: int, j: int| #![trigger r[i], r[j]]
                0 <= i < j < r.len() implies lex_cmp(ser_value(r[i]), ser_value(r[j])) == -1 by {
                if i == 0 {
                    assert(r[j] == r1[j - 1]);
                    if r1[j - 1] == v {
                        assert(lex_cmp(ser_value(s[0]), ser_value(v)) == -1);
                    } else {
                        assert(s1.contains(r1[j - 1]));
                        let w = choose|w: int| 0 <= w < s1.len() && s1[w] == r1[j - 1];
                        assert(s1[w] == s[w + 1]);
                        assert(lex_cmp(ser_value(s[0]), ser_value(s[w + 1])) == -1);
                    }
                } else {
                    assert(r[i] == r1[i - 1] && r[j] == r1[j - 1]);
                }
            }
            assert forall|j: int| 0 <= j < r.len() implies #[trigger] r[j] == v || s.contains(
                r[j],
            ) by {
                if j == 0 {
                    assert(s.contains(s[0]));
                } else {
                    assert(r[j] == r1[j - 1]);
                    if r1[j - 1] != v {
                        assert(s1.contains(r1[j - 1]));
                        let w = choose|w: int| 0 <= w < s1.len() && s1[w] == r1[j - 1];
                        assert(s1[w] == s[w + 1]);
                        assert(s.contains(s[w + 1]));
                    }
                }
            }
        }
    }
}

/// Inserting a well-formed value into a well-formed run keeps every element
/// well formed.
pub proof fn lemma_insert_item_valid(s: Seq<ValueV>, v: ValueV)
    requires
        sorted_items(s),
        valid_items(s),
        valid_value(v),
    ensures
        valid_items(insert_item(s, v)),
{
    let r = insert_item(s, v);
    lemma_insert_item_props(s, v);
    lemma_valid_items_index(s);
    lemma_valid_items_index(r);
    assert forall|j: int| 0 <= j < r.len() implies valid_value(#[trigger] r[j]) by {
        if r[j] != v {
            assert(s.contains(r[j]));
            let w = choose|w: int| 0 <= w < s.len() && s[w] == r[j];
            assert(valid_value(s[w]));
        }
    }
}

/// Inserting a value above every element appends it.
pub proof fn lemma_insert_item_all_less(s: Seq<ValueV>, v: ValueV)
    requires
        forall|i: int| 0 <= i < s.len() ==> lex_cmp(ser_value(#[trigger] s[i]), ser_value(v))
            == -1,
    ensures
        insert_item(s, v) == s.push(v),
    decreases s.len(),
{
    if s.len() == 0 {
        assert(insert_item(s, v) =~= s.push(v));
    } else {
        lemma_lex_cmp_antisym(ser_value(v), ser_value(s[0]));
        assert(lex_cmp(ser_value(s[0]), ser_value(v)) == -1);
        let s1 = s.drop_first();
        assert forall|i: int|
            0 <= i < s1.len() implies lex_cmp(ser_value(#[trigger] s1[i]), ser_value(v))
            == -1 by {
            assert(s1[i] == s[i + 1]);
        }
        lemma_insert_item_all_less(s1, v);
        assert(insert_item(s, v) =~= s.push(v));
    }
}

/// Canonicalizing keeps sortedness and well-formedness.
pub proof fn lemma_canon_items_props(s: Seq<ValueV>)
    requires
        valid_items(s),
    ensures
        sorted_items(canon_items(s)),
        valid_items(canon_items(s)),
        canon_items(s).len() <= s.len(),
    decreases s.len(),
{
    if s.len() == 0 {
        assert(sorted_items(canon_items(s)));
    } else {
        let s0 = s.drop_last();
        lemma_valid_items_index(s);
        lemma_valid_items_index(s0);
        lemma_canon_items_props(s0);
        lemma_insert_item_props(canon_items(s0), s.last());
        lemma_insert_item_valid(canon_items(s0), s.last());
    }
}

/// A sorted run is already canonical.
pub proof fn lemma_canon_items_id(s: Seq<ValueV>)
    requires
        sorted_items(s),
    ensures
        canon_items(s) == s,
    decreases s.len(),
{
    if s.len() > 0 {
        let s0 = s.drop_last();
        assert(sorted_items(s0)) by {
            assert forall|i: int, j: int| #![trigger s0[i], s0[j]]
                0 <= i < j < s0.len() implies lex_cmp(ser_value(s0[i]), ser_value(s0[j]))
                == -1 by {
                assert(s0[i] == s[i] && s0[j] == s[j]);
            }
        }
        lemma_canon_items_id(s0);
        assert forall|i: int|
            0 <= i < s0.len() implies lex_cmp(ser_value(#[trigger] s0[i]), ser_value(s.last()))
            == -1 by {
            assert(s0[i] == s[i]);
            assert(lex_cmp(ser_value(s[i]), ser_value(s[s.len() - 1])) == -1);
        }
        lemma_insert_item_all_less(s0, s.last());
        assert(s0.push(s.last()) =~= s);
    }
}

/// Inserting into a key-sorted run keeps it sorted, adds no pair but the one
/// inserted, and keeps every pair well formed.
pub proof fn lemma_insert_pair_props(ps: PairsV, p: (ValueV, ValueV))
    requires
        sorted_pairs(ps),
    ensures
        sorted_pairs(insert_pair(ps, p)),
        insert_pair(ps, p).len() >= 1,
        ps.len() <= insert_pair(ps, p).len() <= ps.len() + 1,
        forall|j: int|
            0 <= j < insert_pair(ps, p).len() ==> #[trigger] insert_pair(ps, p)[j] == p
                || ps.contains(insert_pair(ps, p)[j]),
    decreases ps.len(),
{
    let r = insert_pair(ps, p);
    if ps.len() == 0 {
        assert(r =~= seq![p]);
    } else {
        let c = lex_cmp(ser_value(p.0), ser_value(ps[0].0));
        lemma_lex_cmp_range(ser_value(p.0), ser_value(ps[0].0));
        if c == -1 {
            assert(r =~= seq![p].add(ps));
            assert forall|i: int, j: int| #![trigger r[i], r[j]]
                0 <= i < j < r.len() implies lex_cmp(ser_value(r[i].0), ser_value(r[j].0))
                == -1 by {
                if i == 0 {
                    if j == 1 {
                        assert(r[j] == ps[0]);
                    } else {
                        assert(r[j] == ps[j - 1]);
                        assert(lex_cmp(ser_value(ps[0].0), ser_value(ps[j - 1].0)) == -1);
                        lemma_lex_cmp_trans(
                            ser_value(p.0),
                            ser_value(ps[0].0),
                            ser_value(ps[j - 1].0),
                        );
                    }
                } else {
                    assert(r[i] == ps[i - 1] && r[j] == ps[j - 1]);
                }
            }
            assert forall|j: int| 0 <= j < r.len() implies #[trigger] r[j] == p || ps.contains(
                r[j],
            ) by {
                if j > 0 {
                    assert(r[j] == ps[j - 1]);
                }
            }
        } else if c == 0 {
            assert(r =~= seq![p].add(ps.drop_first()));
            lemma_lex_cmp_eq(ser_value(p.0), ser_value(ps[0].0));
            assert forall|i: int, j: int| #![trigger r[i], r[j]]
                0 <= i < j < r.len() implies lex_cmp(ser_value(r[i].0), ser_value(r[j].0))
                == -1 by {
                if i == 0 {
                    assert(r[j] == ps[j]);
                    assert(lex_cmp(ser_value(ps[0].0), ser_value(ps[j].0)) == -1);
                } else {
                    assert(r[i] == ps[i] && r[j] == ps[j]);
                }
            }
            assert forall|j: int| 0 <= j < r.len() implies #[trigger] r[j] == p || ps.contains(
                r[j],
            ) by {
                if j > 0 {
                    assert(r[j] == ps[j]);
                }
            }
        } else {
            let ps1 = ps.drop_first();
            assert(sorted_pairs(ps1)) by {
                assert forall|i: int, j: int| #![trigger ps1[i], ps1[j]]
                    0 <= i < j < ps1.len() implies lex_cmp(
                    ser_value(ps1[i].0),
                    ser_value(ps1[j].0),
                ) == -1 by {
                    assert(ps1[i] == ps[i + 1] && ps1[j] == ps[j + 1]);
                }
            }
            lemma_insert_pair_props(ps1, p);
            let r1 = insert_pair(ps1, p);
            assert(r =~= seq![ps[0]].add(r1));
            lemma_lex_cmp_antisym(ser_value(p.0), ser_value(ps[0].0));
            assert forall|i: int, j: int| #![trigger r[i], r[j]]
                0 <= i < j < r.len() implies lex_cmp(ser_value(r[i].0), ser_value(r[j].0))
                == -1 by {
                if i == 0 {
                    assert(r[j] == r1[j - 1]);
                    if r1[j - 1] == p {
                        assert(lex_cmp(ser_value(ps[0].0), ser_value(p.0)) == -1);
                    } else {
                        assert(ps1.contains(r1[j - 1]));
                        let w = choose|w: int| 0 <= w < ps1.len() && ps1[w] == r1[j - 1];
                        assert(ps1[w] == ps[w + 1]);
                        assert(lex_cmp(ser_value(ps[0].0), ser_value(ps[w + 1].0)) == -1);
                    }
                } else {
                    assert(r[i] == r1[i - 1] && r[j] == r1[j - 1]);
                }
            }
            assert forall|j: int| 0 <= j < r.len() implies #[trigger] r[j] == p || ps.contains(
                r[j],
            ) by {
                if j == 0 {
                    assert(ps.contains(ps[0]));
                } else {
                    assert(r[j] == r1[j - 1]);
                    if r1[j - 1] != p {
                        assert(ps1.contains(r1[j - 1]));
                        let w = choose|w: int| 0 <= w < ps1.len() && ps1[w] == r1[j - 1];
                        assert(ps1[w] == ps[w + 1]);
                        assert(ps.contains(ps[w + 1]));
                    }
                }
            }
        }
    }
}

/// Inserting a well-formed pair into a well-formed run keeps every pair well
/// formed.
pub proof fn lemma_insert_pair_valid(ps: PairsV, p: (ValueV, ValueV))
    requires
        sorted_pairs(ps),
        valid_pairs(ps),
        valid_value(p.0),
        valid_value(p.1),
    ensures
        valid_pairs(insert_pair(ps, p)),
{
    let r = insert_pair(ps, p);
    lemma_insert_pair_props(ps, p);
    lemma_valid_pairs_index(ps);
    lemma_valid_pairs_index(r);
    assert forall|j: int|
        0 <= j < r.len() implies valid_value((#[trigger] r[j]).0) && valid_value(r[j].1) by {
        if r[j] != p {
            assert(ps.contains(r[j]));
            let w = choose|w: int| 0 <= w < ps.len() && ps[w] == r[j];
            assert(valid_value(ps[w].0) && valid_value(ps[w].1));
        }
    }
}

/// Inserting a pair whose key is above every key appends it.
pub proof fn lemma_insert_pair_all_less(ps: PairsV, p: (ValueV, ValueV))
    requires
        forall|i: int|
            0 <= i < ps.len() ==> lex_cmp(ser_value((#[trigger] ps[i]).0), ser_value(p.0)) == -1,
    ensures
        insert_pair(ps, p) == ps.push(p),
    decreases ps.len(),
{
    if ps.len() == 0 {
        assert(insert_pair(ps, p) =~= ps.push(p));
    } else {
        lemma_lex_cmp_antisym(ser_value(p.0), ser_value(ps[0].0));
        assert(lex_cmp(ser_value(ps[0].0), ser_value(p.0)) == -1);
        let ps1 = ps.drop_first();
        assert forall|i: int|
            0 <= i < ps1.len() implies lex_cmp(ser_value((#[trigger] ps1[i]).0), ser_value(p.0))
            == -1 by {
            assert(ps1[i] == ps[i + 1]);
        }
        lemma_insert_pair_all_less(ps1, p);
        assert(insert_pair(ps, p) =~= ps.push(p));
    }
}

/// Canonicalizing keeps key order and well-formedness.
pub proof fn lemma_canon_pairs_props(ps: PairsV)
    requires
        valid_pairs(ps),
    ensures
        sorted_pairs(canon_pairs(ps)),
        valid_pairs(canon_pairs(ps)),
        canon_pairs(ps).len() <= ps.len(),
    decreases ps.len(),
{
    if ps.len() == 0 {
        assert(sorted_pairs(canon_pairs(ps)));
    } else {
        let ps0 = ps.drop_last();
        lemma_valid_pairs_index(ps);
        lemma_valid_pairs_index(ps0);
        lemma_canon_pairs_props(ps0);
        lemma_insert_pair_props(canon_pairs(ps0), ps.last());
        lemma_insert_pair_valid(canon_pairs(ps0), ps.last());
    }
}

/// A key-sorted run is already canonical.
pub proof fn lemma_canon_pairs_id(ps: PairsV)
    requires
        sorted_pairs(ps),
    ensures
        canon_pairs(ps) == ps,
    decreases ps.len(),
{
    if ps.len() > 0 {
        let ps0 = ps.drop_last();
        assert(sorted_pairs(ps0)) by {
            assert forall|i: int, j: int| #![trigger ps0[i], ps0[j]]
                0 <= i < j < ps0.len() implies lex_cmp(ser_value(ps0[i].0), ser_value(ps0[j].0))
                == -1 by {
                assert(ps0[i] == ps[i] && ps0[j] == ps[j]);
            }
        }
        lemma_canon_pairs_id(ps0);
        assert forall|i: int|
            0 <= i < ps0.len() implies lex_cmp(
            ser_value((#[trigger] ps0[i]).0),
            ser_value(ps.last().0),
        ) == -1 by {
            assert(ps0[i] == ps[i]);
            assert(lex_cmp(ser_value(ps[i].0), ser_value(ps[ps.len() - 1].0)) == -1);
        }
        lemma_insert_pair_all_less(ps0, ps.last());
        assert(ps0.push(ps.last()) =~= ps);
    }
}


/// Inserting past a prefix of smaller elements keeps the prefix.
pub proof fn lemma_insert_item_split(s: Seq<ValueV>, v: ValueV, k: int)
    requires
        0 <= k <= s.len(),
        forall|i: int| 0 <= i < k ==> lex_cmp(ser_value(#[trigger] s[i]), ser_value(v)) == -1,
    ensures
        insert_item(s, v) == s.take(k).add(insert_item(s.skip(k), v)),
    decreases k,
{
    if k == 0 {
        assert(s.skip(0) =~= s);
        assert(s.take(0).add(insert_item(s, v)) =~= insert_item(s, v));
    } else {
        lemma_lex_cmp_antisym(ser_value(v), ser_value(s[0]));
        assert(lex_cmp(ser_value(v), ser_value(s[0])) == 1);
        let s1 = s.drop_first();
        assert forall|i: int|
            0 <= i < k - 1 implies lex_cmp(ser_value(#[trigger] s1[i]), ser_value(v)) == -1 by {
            assert(s1[i] == s[i + 1]);
        }
        lemma_insert_item_split(s1, v, k - 1);
        assert(s1.take(k - 1) =~= s.take(k).drop_first());
        assert(s1.skip(k - 1) =~= s.skip(k));
        assert(insert_item(s, v) =~= seq![s[0]].add(s1.take(k - 1).add(insert_item(
            s.skip(k),
            v,
        ))));
        assert(seq![s[0]].add(s1.take(k - 1).add(insert_item(s.skip(k), v))) =~= s.take(
            k,
        ).add(insert_item(s.skip(k), v)));
    }
}

/// Inserting past a prefix of smaller keys keeps the prefix.
pub proof fn lemma_insert_pair_split(ps: PairsV, p: (ValueV, ValueV), k: int)
    requires
        0 <= k <= ps.len(),
        forall|i: int|
            0 <= i < k ==> lex_cmp(ser_value((#[trigger] ps[i]).0), ser_value(p.0)) == -1,
    ensures
        insert_pair(ps, p) == ps.take(k).add(insert_pair(ps.skip(k), p)),
    decreases k,
{
    if k == 0 {
        assert(ps.skip(0) =~= ps);
        assert(ps.take(0).add(insert_pair(ps, p)) =~= insert_pair(ps, p));
    } else {
        lemma_lex_cmp_antisym(ser_value(p.0), ser_value(ps[0].0));
        assert(lex_cmp(ser_value(p.0), ser_value(ps[0].0)) == 1);
        let ps1 = ps.drop_first();
        assert forall|i: int|
            0 <= i < k - 1 implies lex_cmp(ser_value((#[trigger] ps1[i]).0), ser_value(p.0))
            == -1 by {
            assert(ps1[i] == ps[i + 1]);
        }
        lemma_insert_pair_split(ps1, p, k - 1);
        assert(ps1.take(k - 1) =~= ps.take(k).drop_first());
        assert(ps1.skip(k - 1) =~= ps.skip(k));
        assert(insert_pair(ps, p) =~= seq![ps[0]].add(ps1.take(k - 1).add(insert_pair(
            ps.skip(k),
            p,
        ))));
        assert(seq![ps[0]].add(ps1.take(k - 1).add(insert_pair(ps.skip(k), p))) =~= ps.take(
            k,
        ).add(insert_pair(ps.skip(k), p)));
    }
}

/// Inserts a well-formed value into a sorted list at its canonical place.
#[verifier::rlimit(100)]
#[verifier::spinoff_prover]
fn insert_sorted_item(list: &mut Vec<Value>, v: Value)
    requires
        valid_value(v@),
        valid_items(view_items(old(list)@)),
        sorted_items(view_items(old(list)@)),
    ensures
        view_items(final(list)@) == insert_item(view_items(old(list)@), v@),
        valid_items(view_items(final(list)@)),
        sorted_items(view_items(final(list)@)),
{
    let ghost s = view_items(list@);
    proof {
        lemma_view_items(list@);
        lemma_valid_items_index(s);
        lemma_insert_item_props(s, v@);
        lemma_insert_item_valid(s, v@);
    }
    let vb = v.serialize();
    let mut k: usize = 0;
    loop
        invariant_except_break
            0 <= k <= list@.len(),
            s == view_items(list@),
            s.len() == list@.len(),
            vb@ == ser_value(v@),
            valid_value(v@),
            forall|i: int| 0 <= i < list@.len() ==> s[i] == view_value(#[trigger] list@[i]),
            forall|i: int| 0 <= i < s.len() ==> valid_value(#[trigger] s[i]),
            forall|i: int|
                0 <= i < k ==> lex_cmp(ser_value(#[trigger] s[i]), ser_value(v@)) == -1,
        ensures
            0 <= k <= list@.len(),
            forall|i: int|
                0 <= i < k ==> lex_cmp(ser_value(#[trigger] s[i]), ser_value(v@)) == -1,
            k == list@.len() || lex_cmp(ser_value(s[k as int]), ser_value(v@)) >= 0,
        decreases list@.len() - k,
    {
        if k >= list.len() {
            break;
        }
        let eb = list[k].serialize();
        proof {
            assert(s[k as int] == view_value(list@[k as int]));
        }
        let c = crate::lexord::lex_compare(&eb, &vb);
        proof {
            lemma_lex_cmp_range(eb@, vb@);
        }
        if c >= 0 {
            break;
        }
        k = k + 1;
    }
    let ghost ins = insert_item(s, v@);
    proof {
        lemma_insert_item_split(s, v@, k as int);
    }
    if k >= list.len() {
        proof {
            assert(s.skip(k as int).len() == 0);
            assert(insert_item(s.skip(k as int), v@) =~= seq![v@]);
            assert(ins =~= s.push(v@));
        }
        list.push(v);
        proof {
            assert forall|i: int| 0 <= i < list@.len() implies ins[i] == view_value(
                #[trigger] list@[i],
            ) by {
                if i < s.len() {
                    assert(list@[i] == old(list)@[i]);
                }
            }
            lemma_view_items_eq(list@, ins);
        }
    } else {
        let eb = list[k].serialize();
        proof {
            assert(s[k as int] == view_value(list@[k as int]));
        }
        let c = crate::lexord::lex_compare(&eb, &vb);
        proof {
            lemma_lex_cmp_antisym(ser_value(s[k as int]), ser_value(v@));
            lemma_lex_cmp_range(ser_value(s[k as int]), ser_value(v@));
            assert(s.skip(k as int)[0] == s[k as int]);
        }
        if c == 0 {
            proof {
                assert(lex_cmp(ser_value(v@), ser_value(s[k as int])) == 0);
                assert(insert_item(s.skip(k as int), v@) =~= seq![v@].add(
                    s.skip(k as int).drop_first(),
                ));
                assert(s.skip(k as int).drop_first() =~= s.skip(k + 1));
                assert(ins =~= s.update(k as int, v@));
            }
            list.set(k, v);
            proof {
                assert forall|i: int| 0 <= i < list@.len() implies ins[i] == view_value(
                    #[trigger] list@[i],
                ) by {
                    if i != k {
                        assert(list@[i] == old(list)@[i]);
                    }
                }
                lemma_view_items_eq(list@, ins);
            }
        } else {
            proof {
                assert(lex_cmp(ser_value(v@), ser_value(s[k as int])) == -1);
                assert(insert_item(s.skip(k as int), v@) =~= seq![v@].add(s.skip(k as int)));
                assert(ins =~= s.insert(k as int, v@));
            }
            list.insert(k, v);
            proof {
                assert forall|i: int| 0 <= i < list@.len() implies ins[i] == view_value(
                    #[trigger] list@[i],
                ) by {
                    if i < k {
                        assert(list@[i] == old(list)@[i]);
                        assert(ins[i] == s[i]);
                    } else if i > k {
                        assert(list@[i] == old(list)@[i - 1]);
                        assert(ins[i] == s[i - 1]);
                    }
                }
                lemma_view_items_eq(list@, ins);
            }
        }
    }
}

/// Inserts a well-formed pair into a key-sorted list at its canonical place.
#[verifier::rlimit(100)]
#[verifier::spinoff_prover]
fn insert_sorted_pair(list: &mut Vec<(Value, Value)>, p: (Value, Value))
    requires
        valid_value(p.0@),
        valid_value(p.1@),
        valid_pairs(view_pairs(old(list)@)),
        sorted_pairs(view_pairs(old(list)@)),
    ensures
        view_pairs(final(list)@) == insert_pair(view_pairs(old(list)@), (p.0@, p.1@)),
        valid_pairs(view_pairs(final(list)@)),
        sorted_pairs(view_pairs(final(list)@)),
{
    let ghost s = view_pairs(list@);
    let ghost pv = (p.0@, p.1@);
    proof {
        lemma_view_pairs(list@);
        lemma_valid_pairs_index(s);
        lemma_insert_pair_props(s, pv);
        lemma_insert_pair_valid(s, pv);
        assert forall|i: int| 0 <= i < s.len() implies valid_value((#[trigger] s[i]).0) by {
            assert(valid_value(s[i].0) && valid_value(s[i].1));
        }
    }
    let kb = p.0.serialize();
    let mut k: usize = 0;
    loop
        invariant_except_break
            0 <= k <= list@.len(),
            s.len() == list@.len(),
            kb@ == ser_value(pv.0),
            forall|i: int|
                0 <= i < list@.len() ==> s[i] == (
                    view_value((#[trigger] list@[i]).0),
                    view_value(list@[i].1),
                ),
            forall|i: int| 0 <= i < s.len() ==> valid_value((#[trigger] s[i]).0),
            forall|i: int|
                0 <= i < k ==> lex_cmp(ser_value((#[trigger] s[i]).0), ser_value(pv.0)) == -1,
        ensures
            0 <= k <= list@.len(),
            forall|i: int|
                0 <= i < k ==> lex_cmp(ser_value((#[trigger] s[i]).0), ser_value(pv.0)) == -1,
            k == list@.len() || lex_cmp(ser_value(s[k as int].0), ser_value(pv.0)) >= 0,
        decreases list@.len() - k,
    {
        if k >= list.len() {
            break;
        }
        let eb = list[k].0.serialize();
        proof {
            assert(s[k as int] == (view_value(list@[k as int].0), view_value(
                list@[k as int].1,
            )));
            assert(eb@ == ser_value(s[k as int].0));
        }
        let c = crate::lexord::lex_compare(&eb, &kb);
        proof {
            lemma_lex_cmp_range(eb@, kb@);
        }
        if c >= 0 {
            break;
        }
        k = k + 1;
    }
    let ghost ins = insert_pair(s, pv);
    proof {
        lemma_insert_pair_split(s, pv, k as int);
    }
    if k >= list.len() {
        proof {
            assert(s.skip(k as int).len() == 0);
            assert(insert_pair(s.skip(k as int), pv) =~= seq![pv]);
            assert(ins =~= s.push(pv));
        }
        list.push(p);
        proof {
            assert forall|i: int| 0 <= i < list@.len() implies ins[i] == (
                view_value((#[trigger] list@[i]).0),
                view_value(list@[i].1),
            ) by {
                if i < s.len() {
                    assert(list@[i] == old(list)@[i]);
                }
            }
            lemma_view_pairs_eq(list@, ins);
        }
    } else {
        let eb = list[k].0.serialize();
        proof {
            assert(s[k as int] == (view_value(list@[k as int].0), view_value(
                list@[k as int].1,
            )));
            assert(eb@ == ser_value(s[k as int].0));
        }
        let c = crate::lexord::lex_compare(&eb, &kb);
        proof {
            lemma_lex_cmp_antisym(ser_value(s[k as int].0), ser_value(pv.0));
            lemma_lex_cmp_range(ser_value(s[k as int].0), ser_value(pv.0));
            assert(s.skip(k as int)[0] == s[k as int]);
        }
        if c == 0 {
            proof {
                assert(lex_cmp(ser_value(pv.0), ser_value(s[k as int].0)) == 0);
                assert(insert_pair(s.skip(k as int), pv) =~= seq![pv].add(
                    s.skip(k as int).drop_first(),
                ));
                assert(s.skip(k as int).drop_first() =~= s.skip(k + 1));
                assert(ins =~= s.update(k as int, pv));
            }
            list.set(k, p);
            proof {
                assert forall|i: int| 0 <= i < list@.len() implies ins[i] == (
                    view_value((#[trigger] list@[i]).0),
                    view_value(list@[i].1),
                ) by {
                    if i != k {
                        assert(list@[i] == old(list)@[i]);
                    }
                }
                lemma_view_pairs_eq(list@, ins);
            }
        } else {
            proof {
                assert(lex_cmp(ser_value(pv.0), ser_value(s[k as int].0)) == -1);
                assert(insert_pair(s.skip(k as int), pv) =~= seq![pv].add(s.skip(k as int)));
                assert(ins =~= s.insert(k as int, pv));
            }
            list.insert(k, p);
            proof {
                assert forall|i: int| 0 <= i < list@.len() implies ins[i] == (
                    view_value((#[trigger] list@[i]).0),
                    view_value(list@[i].1),
                ) by {
                    if i < k {
                        assert(list@[i] == old(list)@[i]);
                        assert(ins[i] == s[i]);
                    } else if i > k {
                        assert(list@[i] == old(list)@[i - 1]);
                        assert(ins[i] == s[i - 1]);
                    }
                }
                lemma_view_pairs_eq(list@, ins);
            }
        }
    }
}

/// Collapses a list of values into sorted, deduplicated canonical order.
#[verifier::rlimit(50)]
pub(crate) fn canonicalize_items(items: Vec<Value>) -> (r: Vec<Value>)
    requires
        valid_items(view_items(items@)),
    ensures
        view_items(r@) == canon_items(view_items(items@)),
        valid_items(view_items(r@)),
        sorted_items(view_items(r@)),
{
    let ghost vs = view_items(items@);
    proof {
        lemma_view_items(items@);
        lemma_valid_items_index(vs);
    }
    let mut out: Vec<Value> = Vec::new();
    let mut src = items;
    proof {
        assert(view_items(out@) =~= canon_items(vs.take(0)));
        assert(view_items(src@) == vs);
        assert(vs.skip(0) =~= vs);
    }
    while src.len() > 0
        invariant
            src@.len() <= vs.len(),
            view_items(src@) == vs.skip(vs.len() - src@.len()),
            view_items(out@) == canon_items(vs.take(vs.len() - src@.len())),
            valid_items(view_items(out@)),
            sorted_items(view_items(out@)),
            forall|i: int| 0 <= i < vs.len() ==> valid_value(#[trigger] vs[i]),
        decreases src@.len(),
    {
        let ghost c = vs.len() - src@.len();
        let ghost srcv = view_items(src@);
        proof {
            lemma_view_items(src@);
            assert(srcv[0] == view_value(src@[0]));
            assert(srcv[0] == vs.skip(c)[0]);
            assert(vs.skip(c)[0] == vs[c]);
        }
        let v = src.remove(0);
        proof {
            assert(v@ == vs[c]);
            assert(valid_value(v@));
            lemma_view_items(src@);
            assert(view_items(src@) =~= vs.skip(c + 1)) by {
                lemma_view_items(src@);
                assert forall|i: int|
                    0 <= i < src@.len() implies view_items(src@)[i] == vs.skip(c + 1)[i] by {
                    assert(view_items(src@)[i] == view_value(src@[i]));
                    assert(srcv[i + 1] == view_value(src@[i]));
                    assert(srcv[i + 1] == vs.skip(c)[i + 1]);
                    assert(vs.skip(c)[i + 1] == vs[c + 1 + i]);
                    assert(vs.skip(c + 1)[i] == vs[c + 1 + i]);
                }
            }
        }
        insert_sorted_item(&mut out, v);
        proof {
            let t = vs.take(c + 1);
            assert(t.drop_last() =~= vs.take(c));
            assert(t.last() == vs[c]);
            assert(canon_items(t) == insert_item(canon_items(vs.take(c)), vs[c]));
        }
    }
    proof {
        assert(vs.take(vs.len() as int) =~= vs);
    }
    out
}

/// Collapses a list of pairs into canonical order: keys sorted, a repeated
/// key keeping the pair seen last.
#[verifier::rlimit(50)]
pub(crate) fn canonicalize_pairs(pairs: Vec<(Value, Value)>) -> (r: Vec<(Value, Value)>)
    requires
        valid_pairs(view_pairs(pairs@)),
    ensures
        view_pairs(r@) == canon_pairs(view_pairs(pairs@)),
        valid_pairs(view_pairs(r@)),
        sorted_pairs(view_pairs(r@)),
{
    let ghost vs = view_pairs(pairs@);
    proof {
        lemma_view_pairs(pairs@);
        lemma_valid_pairs_index(vs);
    }
    let mut out: Vec<(Value, Value)> = Vec::new();
    let mut src = pairs;
    proof {
        assert(view_pairs(out@) =~= canon_pairs(vs.take(0)));
        assert(view_pairs(src@) == vs);
        assert(vs.skip(0) =~= vs);
    }
    while src.len() > 0
        invariant
            src@.len() <= vs.len(),
            view_pairs(src@) == vs.skip(vs.len() - src@.len()),
            view_pairs(out@) == canon_pairs(vs.take(vs.len() - src@.len())),
            valid_pairs(view_pairs(out@)),
            sorted_pairs(view_pairs(out@)),
            forall|i: int|
                0 <= i < vs.len() ==> valid_value((#[trigger] vs[i]).0) && valid_value(vs[i].1),
        decreases src@.len(),
    {
        let ghost c = vs.len() - src@.len();
        let ghost srcv = view_pairs(src@);
        proof {
            lemma_view_pairs(src@);
            assert(srcv[0] == (view_value(src@[0].0), view_value(src@[0].1)));
            assert(srcv[0] == vs.skip(c)[0]);
            assert(vs.skip(c)[0] == vs[c]);
        }
        let p = src.remove(0);
        proof {
            assert((p.0@, p.1@) == vs[c]);
            assert(valid_value(p.0@) && valid_value(p.1@));
            assert(view_pairs(src@) =~= vs.skip(c + 1)) by {
                lemma_view_pairs(src@);
                assert forall|i: int|
                    0 <= i < src@.len() implies view_pairs(src@)[i] == vs.skip(c + 1)[i] by {
                    assert(view_pairs(src@)[i] == (view_value(src@[i].0), view_value(
                        src@[i].1,
                    )));
                    assert(srcv[i + 1] == (view_value(src@[i].0), view_value(src@[i].1)));
                    assert(srcv[i + 1] == vs.skip(c)[i + 1]);
                    assert(vs.skip(c)[i + 1] == vs[c + 1 + i]);
                    assert(vs.skip(c + 1)[i] == vs[c + 1 + i]);
                }
            }
        }
        insert_sorted_pair(&mut out, p);
        proof {
            let t = vs.take(c + 1);
            assert(t.drop_last() =~= vs.take(c));
            assert(t.last() == vs[c]);
            assert(canon_pairs(t) == insert_pair(canon_pairs(vs.take(c)), vs[c]));
        }
    }
    proof {
        assert(vs.take(vs.len() as int) =~= vs);
    }
    out
}

impl crate::value::ValueSet {
    /// Builds a set from the given values: duplicates are collapsed and the
    /// elements are kept in the canonical order of their wire images.
    pub fn new(items: Vec<Value>) -> (r: Self)
        requires
            valid_items(view_items(items@)),
        ensures
            r@ == (ValueV::ValueSet {
                items: canon_items(view_items(items@)),
                attr: Option::<PairsV>::None,
            }),
            valid_value(r@),
    {
        let val = canonicalize_items(items);
        proof {
            vstd::std_specs::vec::axiom_spec_len(&val);
            lemma_view_items(val@);
        }
        crate::value::ValueSet { val, attr: None }
    }
}

impl crate::value::ValueMap {
    /// Builds a map from the given pairs: keys are deduplicated with the
    /// last pair winning, and the pairs are kept sorted by the keys' wire
    /// images.
    pub fn new(pairs: Vec<(Value, Value)>) -> (r: Self)
        requires
            valid_pairs(view_pairs(pairs@)),
        ensures
            r@ == (ValueV::ValueMap {
                pairs: canon_pairs(view_pairs(pairs@)),
                attr: Option::<PairsV>::None,
            }),
            valid_value(r@),
    {
        let val = canonicalize_pairs(pairs);
        proof {
            vstd::std_specs::vec::axiom_spec_len(&val);
            lemma_view_pairs(val@);
        }
        crate::value::ValueMap { val, attr: None }
    }
}

impl crate::value::Attribute {
    /// Builds an attribute from the given pairs: keys are deduplicated with
    /// the last pair winning, and the pairs are kept sorted by the keys'
    /// wire images.
    pub fn new(pairs: Vec<(Value, Value)>) -> (r: Self)
        requires
            valid_pairs(view_pairs(pairs@)),
        ensures
            r@ == canon_pairs(view_pairs(pairs@)),
            crate::model::valid_attr_opt(Some(r@)),
    {
        let val = canonicalize_pairs(pairs);
        proof {
            vstd::std_specs::vec::axiom_spec_len(&val);
            lemma_view_pairs(val@);
        }
        crate::value::Attribute { val }
    }
}

} // verus!
