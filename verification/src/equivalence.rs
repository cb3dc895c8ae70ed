use vstd::prelude::*;
use vstd::relations::injective_on;
use vstd::set_lib::{lemma_int_range, lemma_map_size, lemma_subset_equality, set_int_range};

use crate::value::{find_key, lookup, map_insert, map_swap_remove, value_wf, veq, SpecValue};

verus! {

/// Symmetry and transitivity of value equality, stated around `a`: with `a`
/// first, and with `a` in each position of a chain of two equalities.
pub open spec fn veq_laws(a: SpecValue, b: SpecValue, c: SpecValue) -> bool {
    &&& veq(a, b) ==> veq(b, a)
    &&& veq(b, a) ==> veq(a, b)
    &&& veq(a, b) && veq(b, c) ==> veq(a, c)
    &&& veq(b, a) && veq(a, c) ==> veq(b, c)
    &&& veq(b, c) && veq(c, a) ==> veq(b, a)
}

/// The laws hold around every element of the list, with any well-formed
/// partners.
spec fn elems_obey(l: Seq<SpecValue>) -> bool {
    forall|i: int, y: SpecValue, z: SpecValue|
        0 <= i < l.len() && value_wf(y) && value_wf(z) ==> #[trigger] veq_laws(l[i], y, z)
}

/// The laws hold around every key and every value of the map, with any
/// well-formed partners.
spec fn entries_obey(m: Seq<(SpecValue, SpecValue)>) -> bool {
    &&& forall|i: int, y: SpecValue, z: SpecValue|
        0 <= i < m.len() && value_wf(y) && value_wf(z) ==> #[trigger] veq_laws(m[i].0, y, z)
    &&& forall|i: int, y: SpecValue, z: SpecValue|
        0 <= i < m.len() && value_wf(y) && value_wf(z) ==> #[trigger] veq_laws(m[i].1, y, z)
}

/// What a lookup finds: the first entry whose key `key` equals.
pub(crate) proof fn lemma_find_key_spec(m: Seq<(SpecValue, SpecValue)>, key: SpecValue, start: nat)
    ensures
        match find_key(m, key, start) {
            Some(j) => start <= j < m.len() && veq(key, m[j as int].0) && forall|k: int|
                start <= k < j ==> !veq(key, #[trigger] m[k].0),
            None => forall|k: int| start <= k < m.len() ==> !veq(key, #[trigger] m[k].0),
        },
    decreases m.len() - start,
{
    if start < m.len() {
        lemma_find_key_spec(m, key, start + 1);
    }
}

/// Some index in `0..n` is mapped to `j`.
spec fn reached(f: spec_fn(int) -> int, n: int, j: int) -> bool {
    exists|i: int| 0 <= i < n && #[trigger] f(i) == j
}

/// A one-to-one map of `0..n` into itself reaches every index.
proof fn lemma_injection_onto(f: spec_fn(int) -> int, n: int)
    requires
        0 <= n,
        forall|i: int| 0 <= i < n ==> 0 <= #[trigger] f(i) < n,
        forall|i: int, k: int| 0 <= i < n && 0 <= k < n && #[trigger] f(i) == #[trigger] f(k) ==> i == k,
    ensures
        forall|j: int| 0 <= j < n ==> #[trigger] reached(f, n, j),
{
    let r = set_int_range(0, n);
    lemma_int_range(0, n);
    let img = r.map(f);
    assert(injective_on(f, r));
    lemma_map_size(r, img, f);
    assert(img.subset_of(r));
    lemma_subset_equality(img, r);
    assert forall|j: int| 0 <= j < n implies #[trigger] reached(f, n, j) by {
        assert(r.contains(j));
        assert(img.contains(j));
    }
}

/// The index at which `key` is found in `m` (meaningful when it is found).
spec fn found_at(m: Seq<(SpecValue, SpecValue)>, key: SpecValue) -> int {
    match find_key(m, key, 0) {
        Some(j) => j as int,
        None => -1,
    }
}

proof fn lemma_dict_sym(ma: Seq<(SpecValue, SpecValue)>, mb: Seq<(SpecValue, SpecValue)>)
    requires
        value_wf(SpecValue::Dict(ma)),
        value_wf(SpecValue::Dict(mb)),
        entries_obey(ma),
        veq(SpecValue::Dict(ma), SpecValue::Dict(mb)),
    ensures
        veq(SpecValue::Dict(mb), SpecValue::Dict(ma)),
{
    let n = ma.len() as int;
    let f = |i: int| found_at(mb, ma[i].0);
    assert forall|i: int| 0 <= i < n implies 0 <= #[trigger] f(i) < n && veq(ma[i].0, mb[f(i)].0)
        && veq(ma[i].1, mb[f(i)].1) by {
        lemma_find_key_spec(mb, ma[i].0, 0);
    }
    assert forall|i: int, k: int| 0 <= i < n && 0 <= k < n && #[trigger] f(i) == #[trigger] f(
        k,
    ) implies i == k by {
        let y = mb[f(i)].0;
        assert(veq_laws(ma[k].0, y, y));
        assert(veq_laws(ma[i].0, y, ma[k].0));
        if i != k {
            assert(!veq(ma[i].0, ma[k].0));
        }
    }
    lemma_injection_onto(f, n);
    assert forall|j: int| 0 <= j < n implies match find_key(ma, #[trigger] mb[j].0, 0) {
        Some(i) => veq(mb[j].1, ma[i as int].1),
        None => false,
    } by {
        assert(reached(f, n, j));
        let i = choose|i: int| 0 <= i < n && #[trigger] f(i) == j;
        let x = ma[i].0;
        let y = mb[j].0;
        assert(veq_laws(x, y, y));
        lemma_find_key_spec(ma, y, 0);
        let k = found_at(ma, y);
        if k != i {
            assert(veq_laws(ma[k].0, y, y));
            assert(veq_laws(x, ma[k].0, y));
            assert(!veq(ma[k].0, x));
        }
        assert(veq_laws(ma[i].1, mb[j].1, mb[j].1));
    }
}

proof fn lemma_dict_sym_back(ma: Seq<(SpecValue, SpecValue)>, mb: Seq<(SpecValue, SpecValue)>)
    requires
        value_wf(SpecValue::Dict(ma)),
        value_wf(SpecValue::Dict(mb)),
        entries_obey(ma),
        veq(SpecValue::Dict(mb), SpecValue::Dict(ma)),
    ensures
        veq(SpecValue::Dict(ma), SpecValue::Dict(mb)),
{
    let n = mb.len() as int;
    let g = |j: int| found_at(ma, mb[j].0);
    assert forall|j: int| 0 <= j < n implies 0 <= #[trigger] g(j) < n && veq(mb[j].0, ma[g(j)].0)
        && veq(mb[j].1, ma[g(j)].1) by {
        lemma_find_key_spec(ma, mb[j].0, 0);
    }
    assert forall|j: int, k: int| 0 <= j < n && 0 <= k < n && #[trigger] g(j) == #[trigger] g(
        k,
    ) implies j == k by {
        let x = ma[g(j)].0;
        assert(veq_laws(x, mb[k].0, mb[k].0));
        assert(veq_laws(x, mb[j].0, mb[k].0));
        if j != k {
            assert(!veq(mb[j].0, mb[k].0));
        }
    }
    lemma_injection_onto(g, n);
    assert forall|i: int| 0 <= i < n implies match find_key(mb, #[trigger] ma[i].0, 0) {
        Some(j) => veq(ma[i].1, mb[j as int].1),
        None => false,
    } by {
        assert(reached(g, n, i));
        let j = choose|j: int| 0 <= j < n && #[trigger] g(j) == i;
        let x = ma[i].0;
        let y = mb[j].0;
        assert(veq_laws(x, y, y));
        lemma_find_key_spec(mb, x, 0);
        let k = found_at(mb, x);
        if k != j {
            assert(veq_laws(x, mb[k].0, mb[k].0));
            assert(veq_laws(x, mb[k].0, y));
            assert(!veq(mb[k].0, y));
        }
        assert(veq_laws(ma[i].1, mb[j].1, mb[j].1));
    }
}

proof fn lemma_dict_trans(
    ma: Seq<(SpecValue, SpecValue)>,
    mb: Seq<(SpecValue, SpecValue)>,
    mc: Seq<(SpecValue, SpecValue)>,
)
    requires
        value_wf(SpecValue::Dict(ma)),
        value_wf(SpecValue::Dict(mb)),
        value_wf(SpecValue::Dict(mc)),
        entries_obey(ma),
        veq(SpecValue::Dict(ma), SpecValue::Dict(mb)),
        veq(SpecValue::Dict(mb), SpecValue::Dict(mc)),
    ensures
        veq(SpecValue::Dict(ma), SpecValue::Dict(mc)),
{
    assert forall|i: int| 0 <= i < ma.len() implies match find_key(mc, #[trigger] ma[i].0, 0) {
        Some(k) => veq(ma[i].1, mc[k as int].1),
        None => false,
    } by {
        let x = ma[i].0;
        lemma_find_key_spec(mb, x, 0);
        let j = found_at(mb, x);
        let y = mb[j].0;
        assert(y == mb[j].0);
        lemma_find_key_spec(mc, y, 0);
        let k = found_at(mc, y);
        let z = mc[k].0;
        assert(veq_laws(x, y, z));
        lemma_find_key_spec(mc, x, 0);
        let k2 = found_at(mc, x);
        if k2 != k {
            assert(veq_laws(x, mc[k2].0, mc[k2].0));
            assert(veq_laws(x, mc[k2].0, z));
            assert(!veq(mc[k2].0, z));
        }
        assert(veq_laws(ma[i].1, mb[j].1, mc[k].1));
    }
}

proof fn lemma_dict_trans_mid(
    ma: Seq<(SpecValue, SpecValue)>,
    mb: Seq<(SpecValue, SpecValue)>,
    mc: Seq<(SpecValue, SpecValue)>,
)
    requires
        value_wf(SpecValue::Dict(ma)),
        value_wf(SpecValue::Dict(mb)),
        value_wf(SpecValue::Dict(mc)),
        entries_obey(ma),
        veq(SpecValue::Dict(mb), SpecValue::Dict(ma)),
        veq(SpecValue::Dict(ma), SpecValue::Dict(mc)),
    ensures
        veq(SpecValue::Dict(mb), SpecValue::Dict(mc)),
{
    assert forall|j: int| 0 <= j < mb.len() implies match find_key(mc, #[trigger] mb[j].0, 0) {
        Some(k) => veq(mb[j].1, mc[k as int].1),
        None => false,
    } by {
        let y = mb[j].0;
        lemma_find_key_spec(ma, y, 0);
        let i = found_at(ma, y);
        let x = ma[i].0;
        lemma_find_key_spec(mc, x, 0);
        let k = found_at(mc, x);
        let z = mc[k].0;
        assert(veq_laws(x, y, z));
        lemma_find_key_spec(mc, y, 0);
        let k2 = found_at(mc, y);
        if k2 != k {
            let w = mc[k2].0;
            assert(veq_laws(x, y, y));
            assert(veq_laws(x, y, w));
            assert(veq_laws(x, w, w));
            assert(veq_laws(x, w, z));
            assert(!veq(w, z));
        }
        assert(veq_laws(ma[i].1, mb[j].1, mc[k].1));
    }
}

proof fn lemma_dict_trans_last(
    ma: Seq<(SpecValue, SpecValue)>,
    mb: Seq<(SpecValue, SpecValue)>,
    mc: Seq<(SpecValue, SpecValue)>,
)
    requires
        value_wf(SpecValue::Dict(ma)),
        value_wf(SpecValue::Dict(mb)),
        value_wf(SpecValue::Dict(mc)),
        entries_obey(ma),
        veq(SpecValue::Dict(mb), SpecValue::Dict(mc)),
        veq(SpecValue::Dict(mc), SpecValue::Dict(ma)),
    ensures
        veq(SpecValue::Dict(mb), SpecValue::Dict(ma)),
{
    assert forall|j: int| 0 <= j < mb.len() implies match find_key(ma, #[trigger] mb[j].0, 0) {
        Some(i) => veq(mb[j].1, ma[i as int].1),
        None => false,
    } by {
        let y = mb[j].0;
        lemma_find_key_spec(mc, y, 0);
        let k = found_at(mc, y);
        let z = mc[k].0;
        lemma_find_key_spec(ma, z, 0);
        let i = found_at(ma, z);
        let x = ma[i].0;
        assert(veq_laws(x, y, z));
        lemma_find_key_spec(ma, y, 0);
        let i2 = found_at(ma, y);
        if i2 != i {
            let w = ma[i2].0;
            assert(veq_laws(w, y, y));
            assert(veq_laws(x, w, y));
            assert(!veq(w, x));
        }
        assert(veq_laws(ma[i].1, mb[j].1, mc[k].1));
    }
}

proof fn lemma_list_laws(la: Seq<SpecValue>, b: SpecValue, c: SpecValue)
    requires
        elems_obey(la),
        value_wf(b),
        value_wf(c),
    ensures
        veq_laws(SpecValue::List(la), b, c),
{
    let a = SpecValue::List(la);
    if let SpecValue::List(lb) = b {
        if la.len() == lb.len() {
            assert forall|i: int| 0 <= i < la.len() implies (veq(la[i], lb[i]) <==> veq(
                lb[i],
                la[i],
            )) by {
                assert(veq_laws(la[i], lb[i], lb[i]));
            }
            assert(veq(a, b) ==> veq(b, a));
            assert(veq(b, a) ==> veq(a, b));
            if let SpecValue::List(lc) = c {
                if lc.len() == la.len() {
                    assert forall|i: int| 0 <= i < la.len() implies #[trigger] veq_laws(
                        la[i],
                        lb[i],
                        lc[i],
                    ) by {}
                    if veq(a, b) && veq(b, c) {
                        assert forall|i: int| 0 <= i < la.len() implies veq(
                            #[trigger] la[i],
                            lc[i],
                        ) by {
                            assert(veq_laws(la[i], lb[i], lc[i]));
                            assert(veq(la[i], lb[i]));
                            assert(veq(lb[i], lc[i]));
                        }
                    }
                    if veq(b, a) && veq(a, c) {
                        assert forall|i: int| 0 <= i < la.len() implies veq(
                            #[trigger] lb[i],
                            lc[i],
                        ) by {
                            assert(veq_laws(la[i], lb[i], lc[i]));
                            assert(veq(lb[i], la[i]));
                            assert(veq(la[i], lc[i]));
                        }
                    }
                    if veq(b, c) && veq(c, a) {
                        assert forall|i: int| 0 <= i < la.len() implies veq(
                            #[trigger] lb[i],
                            la[i],
                        ) by {
                            assert(veq_laws(la[i], lb[i], lc[i]));
                            assert(veq(lb[i], lc[i]));
                            assert(veq(lc[i], la[i]));
                        }
                    }
                }
            }
        }
    }
}

proof fn lemma_dict_laws(ma: Seq<(SpecValue, SpecValue)>, b: SpecValue, c: SpecValue)
    requires
        value_wf(SpecValue::Dict(ma)),
        entries_obey(ma),
        value_wf(b),
        value_wf(c),
    ensures
        veq_laws(SpecValue::Dict(ma), b, c),
{
    if let SpecValue::Dict(mb) = b {
        if veq(SpecValue::Dict(ma), b) {
            lemma_dict_sym(ma, mb);
        }
        if veq(b, SpecValue::Dict(ma)) {
            lemma_dict_sym_back(ma, mb);
        }
        if let SpecValue::Dict(mc) = c {
            if veq(SpecValue::Dict(ma), b) && veq(b, c) {
                lemma_dict_trans(ma, mb, mc);
            }
            if veq(b, SpecValue::Dict(ma)) && veq(SpecValue::Dict(ma), c) {
                lemma_dict_trans_mid(ma, mb, mc);
            }
            if veq(b, c) && veq(c, SpecValue::Dict(ma)) {
                lemma_dict_trans_last(ma, mb, mc);
            }
        }
    }
}

/// Symmetry and transitivity around a well-formed value, with any two
/// well-formed partners.
pub proof fn lemma_veq_laws(a: SpecValue, b: SpecValue, c: SpecValue)
    requires
        value_wf(a),
        value_wf(b),
        value_wf(c),
    ensures
        veq_laws(a, b, c),
    decreases a,
{
    match a {
        SpecValue::List(la) => {
            assert forall|i: int, y: SpecValue, z: SpecValue|
                0 <= i < la.len() && value_wf(y) && value_wf(z) implies #[trigger] veq_laws(
                la[i],
                y,
                z,
            ) by {
                lemma_veq_laws(la[i], y, z);
            }
            lemma_list_laws(la, b, c);
        },
        SpecValue::Dict(ma) => {
            assert forall|i: int, y: SpecValue, z: SpecValue|
                0 <= i < ma.len() && value_wf(y) && value_wf(z) implies #[trigger] veq_laws(
                ma[i].0,
                y,
                z,
            ) by {
                assert(decreases_to!(a => ma[i].0));
                lemma_veq_laws(ma[i].0, y, z);
            }
            assert forall|i: int, y: SpecValue, z: SpecValue|
                0 <= i < ma.len() && value_wf(y) && value_wf(z) implies #[trigger] veq_laws(
                ma[i].1,
                y,
                z,
            ) by {
                assert(decreases_to!(a => ma[i].1));
                assert(value_wf(ma[i].0));
                lemma_veq_laws(ma[i].1, y, z);
            }
            lemma_dict_laws(ma, b, c);
        },
        _ => {},
    }
}

/// The keys of a map whose keys are pairwise unequal, and whose keys and
/// values are well-formed.
pub(crate) open spec fn entries_wf(m: Seq<(SpecValue, SpecValue)>) -> bool {
    &&& forall|i: int, k: int|
        0 <= i < m.len() && 0 <= k < m.len() && i != k ==> !veq(
            #[trigger] m[i].0,
            #[trigger] m[k].0,
        )
    &&& forall|i: int| 0 <= i < m.len() ==> value_wf(#[trigger] m[i].0) && value_wf(m[i].1)
}

pub(crate) proof fn lemma_dict_wf(m: Seq<(SpecValue, SpecValue)>)
    ensures
        value_wf(SpecValue::Dict(m)) <==> entries_wf(m),
{
    let v = SpecValue::Dict(m);
    match v {
        SpecValue::Dict(mm) => {
            assert(mm == m);
        },
        _ => {},
    }
}

/// Inserting a well-formed entry keeps a map's keys pairwise unequal.
pub(crate) proof fn lemma_insert_keeps_wf(
    m: Seq<(SpecValue, SpecValue)>,
    key: SpecValue,
    value: SpecValue,
)
    requires
        value_wf(SpecValue::Dict(m)),
        value_wf(key),
        value_wf(value),
    ensures
        value_wf(SpecValue::Dict(map_insert(m, key, value))),
{
    lemma_find_key_spec(m, key, 0);
    lemma_dict_wf(m);
    let r = map_insert(m, key, value);
    match find_key(m, key, 0) {
        Some(j) => {
            assert forall|i: int| 0 <= i < r.len() implies #[trigger] r[i].0 == m[i].0 by {}
            assert(value_wf(m[j as int].0));
        },
        None => {
            let n = m.len() as int;
            assert forall|i: int| 0 <= i < n implies !veq(#[trigger] m[i].0, key) by {
                assert(value_wf(m[i].0));
                lemma_veq_laws(key, m[i].0, m[i].0);
            }
            assert forall|i: int, k: int|
                0 <= i < r.len() && 0 <= k < r.len() && i != k implies !veq(
                #[trigger] r[i].0,
                #[trigger] r[k].0,
            ) by {
                if i < n && k < n {
                    assert(!veq(m[i].0, m[k].0));
                }
            }
            assert forall|i: int| 0 <= i < r.len() implies value_wf(#[trigger] r[i].0) && value_wf(
                r[i].1,
            ) by {
                if i < n {
                    assert(value_wf(m[i].0));
                }
            }
        },
    }
    lemma_dict_wf(r);
}

/// Removing an entry keeps a map's keys pairwise unequal.
pub(crate) proof fn lemma_swap_remove_keeps_wf(m: Seq<(SpecValue, SpecValue)>, key: SpecValue)
    requires
        value_wf(SpecValue::Dict(m)),
    ensures
        value_wf(SpecValue::Dict(map_swap_remove(m, key))),
{
    lemma_find_key_spec(m, key, 0);
    lemma_dict_wf(m);
    if let Some(j) = find_key(m, key, 0) {
        let n = m.len() as int;
        let r = map_swap_remove(m, key);
        let src = |i: int| if i == j { n - 1 } else { i };
        assert forall|i: int| 0 <= i < r.len() implies #[trigger] r[i] == m[src(i)] by {}
        assert forall|i: int, k: int|
            0 <= i < r.len() && 0 <= k < r.len() && i != k implies !veq(
            #[trigger] r[i].0,
            #[trigger] r[k].0,
        ) by {
            assert(r[i] == m[src(i)]);
            assert(r[k] == m[src(k)]);
            assert(!veq(m[src(i)].0, m[src(k)].0));
        }
        assert forall|i: int| 0 <= i < r.len() implies value_wf(#[trigger] r[i].0) && value_wf(
            r[i].1,
        ) by {
            assert(r[i] == m[src(i)]);
            assert(value_wf(m[src(i)].0));
        }
        lemma_dict_wf(r);
    }
}

/// In a well-formed map, once the entry for a well-formed key is removed,
/// looking the key up finds nothing.
pub proof fn lemma_remove_then_lookup(m: Seq<(SpecValue, SpecValue)>, key: SpecValue)
    requires
        value_wf(SpecValue::Dict(m)),
        value_wf(key),
    ensures
        lookup(map_swap_remove(m, key), key) is None,
{
    lemma_find_key_spec(m, key, 0);
    lemma_dict_wf(m);
    let r = map_swap_remove(m, key);
    if let Some(j) = find_key(m, key, 0) {
        let n = m.len() as int;
        assert forall|i: int| 0 <= i < n && i != j implies !veq(key, #[trigger] m[i].0) by {
            assert(value_wf(m[i].0));
            assert(value_wf(m[j as int].0));
            lemma_veq_laws(key, m[j as int].0, m[i].0);
            assert(!veq(m[j as int].0, m[i].0));
        }
        assert forall|i: int| 0 <= i < r.len() implies !veq(key, #[trigger] r[i].0) by {
            if i == j {
                assert(r[i] == m[n - 1]);
            } else {
                assert(r[i] == m[i]);
            }
        }
    }
    lemma_find_key_spec(r, key, 0);
}

} // verus!
