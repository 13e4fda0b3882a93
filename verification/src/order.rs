//! Putting rows in order. A row is stood for by a key: up to two texts and a
//! number to order by, and its position in its table, which breaks every tie.

use vstd::prelude::*;

use crate::text::{
    lemma_text_le_antisym, lemma_text_le_total, lemma_text_le_trans, str_eq, str_lt, text_le,
    text_lt,
};

verus! {

/// What a row is ordered by.
#[derive(Debug, Clone, PartialEq, Eq)]
pub struct SortKey {
    pub major: String,
    pub minor: String,
    pub number: i64,
    pub position: usize,
}

pub struct SortKeyView {
    pub major: Seq<char>,
    pub minor: Seq<char>,
    pub number: i64,
    pub position: usize,
}

impl View for SortKey {
    type V = SortKeyView;

    open spec fn view(&self) -> SortKeyView {
        SortKeyView {
            major: self.major@,
            minor: self.minor@,
            number: self.number,
            position: self.position,
        }
    }
}

/// `a` sorts before `b`: by the first text, then the second, then the number,
/// then the position.
pub open spec fn key_lt(a: SortKeyView, b: SortKeyView) -> bool {
    if a.major != b.major {
        text_lt(a.major, b.major)
    } else if a.minor != b.minor {
        text_lt(a.minor, b.minor)
    } else if a.number != b.number {
        a.number < b.number
    } else {
        a.position < b.position
    }
}

/// What a sequence of keys holds.
pub open spec fn keys_view(keys: Seq<SortKey>) -> Seq<SortKeyView> {
    keys.map_values(|k: SortKey| k@)
}

/// The positions that a vector of positions holds.
pub open spec fn positions(picks: Seq<usize>) -> Seq<int> {
    picks.map_values(|p: usize| p as int)
}

/// No two keys stand for the same position.
pub open spec fn distinct_positions(keys: Seq<SortKeyView>) -> bool {
    forall|i: int, j: int|
        0 <= i < j < keys.len() ==> (#[trigger] keys[i]).position != (#[trigger] keys[j]).position
}

/// Each key sorts before all that follow it.
pub open spec fn ascending(keys: Seq<SortKeyView>) -> bool {
    forall|i: int, j: int| 0 <= i < j < keys.len() ==> key_lt(#[trigger] keys[i], #[trigger] keys[j])
}

/// `x` is among `keys`.
pub open spec fn member(keys: Seq<SortKeyView>, x: SortKeyView) -> bool {
    exists|j: int| 0 <= j < keys.len() && #[trigger] keys[j] == x
}

/// The two sequences hold the same keys, as often.
pub open spec fn same_keys(a: Seq<SortKeyView>, b: Seq<SortKeyView>) -> bool {
    &&& a.len() == b.len()
    &&& forall|i: int| 0 <= i < a.len() ==> member(b, #[trigger] a[i])
    &&& forall|j: int| 0 <= j < b.len() ==> member(a, #[trigger] b[j])
}

/// The order is transitive.
pub proof fn lemma_key_lt_trans(a: SortKeyView, b: SortKeyView, c: SortKeyView)
    requires
        key_lt(a, b),
        key_lt(b, c),
    ensures
        key_lt(a, c),
{
    if a.major != b.major || b.major != c.major {
        lemma_text_le_total(a.major, b.major);
        lemma_text_le_total(b.major, c.major);
        lemma_text_le_trans(a.major, b.major, c.major);
        if a.major == c.major {
            lemma_text_le_antisym(a.major, b.major);
        }
    } else if a.minor != b.minor || b.minor != c.minor {
        lemma_text_le_total(a.minor, b.minor);
        lemma_text_le_total(b.minor, c.minor);
        lemma_text_le_trans(a.minor, b.minor, c.minor);
        if a.minor == c.minor {
            lemma_text_le_antisym(a.minor, b.minor);
        }
    }
}

/// Of two keys for different positions, one sorts before the other.
pub proof fn lemma_key_lt_total(a: SortKeyView, b: SortKeyView)
    requires
        a.position != b.position,
    ensures
        key_lt(a, b) || key_lt(b, a),
{
    lemma_text_le_total(a.major, b.major);
    lemma_text_le_total(a.minor, b.minor);
}

/// No key sorts before itself, and no two sort before each other.
pub proof fn lemma_key_lt_asym(a: SortKeyView, b: SortKeyView)
    requires
        key_lt(a, b),
    ensures
        !key_lt(b, a),
        a != b,
{
    if a.major != b.major {
        if text_le(b.major, a.major) {
            lemma_text_le_antisym(a.major, b.major);
        }
    } else if a.minor != b.minor {
        if text_le(b.minor, a.minor) {
            lemma_text_le_antisym(a.minor, b.minor);
        }
    }
}

/// Whether `a` sorts before `b`.
pub fn key_before(a: &SortKey, b: &SortKey) -> (r: bool)
    ensures
        r == key_lt(a@, b@),
{
    if !str_eq(a.major.as_str(), b.major.as_str()) {
        str_lt(a.major.as_str(), b.major.as_str())
    } else if !str_eq(a.minor.as_str(), b.minor.as_str()) {
        str_lt(a.minor.as_str(), b.minor.as_str())
    } else if a.number != b.number {
        a.number < b.number
    } else {
        a.position < b.position
    }
}

/// Puts keys in ascending order.
pub fn sort_keys(keys: Vec<SortKey>) -> (out: Vec<SortKey>)
    requires
        distinct_positions(keys_view(keys@)),
    ensures
        ascending(keys_view(out@)),
        same_keys(keys_view(keys@), keys_view(out@)),
{
    let ghost all = keys_view(keys@);
    let mut rest = keys;
    let mut out: Vec<SortKey> = Vec::new();
    while rest.len() > 0
        invariant
            distinct_positions(all),
            rest.len() + out.len() == all.len(),
            keys_view(rest@) == all.subrange(0, rest.len() as int),
            ascending(keys_view(out@)),
            forall|i: int|
                0 <= i < out.len() ==> exists|j: int|
                    rest.len() <= j < all.len() && all[j] == #[trigger] keys_view(out@)[i],
            forall|j: int|
                rest.len() <= j < all.len() ==> member(keys_view(out@), #[trigger] all[j]),
        decreases rest.len(),
    {
        let ghost n = rest.len() as int;
        let ghost before = keys_view(out@);
        let ghost rest0 = rest@;
        let ghost out0 = out@;
        let key = rest.pop().unwrap();
        assert(key@ == all[n - 1]) by {
            assert(keys_view(rest0)[n - 1] == rest0[n - 1]@);
        }
        let mut p: usize = 0;
        while p < out.len() && !key_before(&key, &out[p])
            invariant
                p <= out.len(),
                before == keys_view(out@),
                forall|i: int| 0 <= i < p ==> !key_lt(key@, #[trigger] before[i]),
            decreases out.len() - p,
        {
            assert(before[p as int] == out@[p as int]@);
            p = p + 1;
        }
        out.insert(p, key);
        proof {
            let after = keys_view(out@);
            before.insert_ensures(p as int, key@);
            assert(after =~= before.insert(p as int, key@)) by {
                out0.insert_ensures(p as int, key);
            }
            assert(keys_view(rest@) =~= all.subrange(0, n - 1));
            if p < before.len() {
                assert(before[p as int] == out0[p as int]@);
            }
            assert forall|i: int, j: int| 0 <= i < j < after.len() implies key_lt(
                #[trigger] after[i],
                #[trigger] after[j],
            ) by {
                if j == p {
                    assert(after[i] == before[i]);
                    let w = choose|w: int| n <= w < all.len() && all[w] == before[i];
                    lemma_key_lt_total(key@, before[i]);
                } else if i == p {
                    assert(after[j] == before[j - 1]);
                    if j - 1 > p {
                        lemma_key_lt_trans(key@, before[p as int], before[j - 1]);
                    }
                } else if i < p && j < p {
                    assert(after[i] == before[i] && after[j] == before[j]);
                } else if i < p && j > p {
                    assert(after[i] == before[i] && after[j] == before[j - 1]);
                } else {
                    assert(after[i] == before[i - 1] && after[j] == before[j - 1]);
                }
            }
            assert forall|i: int| 0 <= i < after.len() implies exists|j: int|
                n - 1 <= j < all.len() && all[j] == #[trigger] after[i] by {
                if i == p {
                    assert(all[n - 1] == after[i]);
                } else if i < p {
                    assert(after[i] == before[i]);
                    let w = choose|w: int| n <= w < all.len() && all[w] == before[i];
                    assert(all[w] == after[i]);
                } else {
                    assert(after[i] == before[i - 1]);
                    let w = choose|w: int| n <= w < all.len() && all[w] == before[i - 1];
                    assert(all[w] == after[i]);
                }
            }
            assert forall|j: int| n - 1 <= j < all.len() implies member(
                after,
                #[trigger] all[j],
            ) by {
                if j == n - 1 {
                    assert(after[p as int] == all[j]);
                } else {
                    let w = choose|w: int| 0 <= w < before.len() && before[w] == all[j];
                    if w < p {
                        assert(after[w] == all[j]);
                    } else {
                        assert(after[w + 1] == all[j]);
                    }
                }
            }
        }
    }
    proof {
        let sorted = keys_view(out@);
        assert forall|i: int| 0 <= i < sorted.len() implies member(all, #[trigger] sorted[i]) by {
            let w = choose|w: int| 0 <= w < all.len() && all[w] == sorted[i];
            assert(all[w] == sorted[i]);
        }
    }
    out
}

} // verus!
