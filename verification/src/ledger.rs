use vstd::prelude::*;

verus! {

/// The sum of `value` over every entry of a finite map keyed by address
/// encodings (zero for an infinite map).
pub open spec fn map_total<V>(m: Map<Seq<u8>, V>, value: spec_fn(V) -> int) -> int
    decreases m.dom().len(),
{
    if !m.dom().finite() || m.dom().len() == 0 {
        0
    } else {
        let k = m.dom().choose();
        proof {
            assert(m.remove(k).dom() =~= m.dom().remove(k));
        }
        value(m[k]) + map_total(m.remove(k), value)
    }
}

/// Any entry can be taken out of the total first.
pub proof fn lemma_map_total_remove<V>(m: Map<Seq<u8>, V>, value: spec_fn(V) -> int, k: Seq<u8>)
    requires
        m.dom().finite(),
        m.dom().contains(k),
    ensures
        map_total(m, value) == value(m[k]) + map_total(m.remove(k), value),
    decreases m.dom().len(),
{
    assert(m.remove(k).dom() =~= m.dom().remove(k));
    let j = m.dom().choose();
    if j != k {
        let mj = m.remove(j);
        let mk = m.remove(k);
        assert(mj.dom() =~= m.dom().remove(j));
        assert(mk.dom() =~= m.dom().remove(k));
        lemma_map_total_remove(mj, value, k);
        lemma_map_total_remove(mk, value, j);
        assert(mj.remove(k) =~= mk.remove(j));
    }
}

/// Writing `v` at `k` replaces that entry's share of the total (absent
/// entries count for nothing).
pub proof fn lemma_map_total_insert<V>(m: Map<Seq<u8>, V>, value: spec_fn(V) -> int, k: Seq<u8>, v: V)
    requires
        m.dom().finite(),
    ensures
        m.insert(k, v).dom().finite(),
        map_total(m.insert(k, v), value) == map_total(m, value) + value(v)
            - (if m.dom().contains(k) { value(m[k]) } else { 0 }),
{
    let n = m.insert(k, v);
    assert(n.dom() =~= m.dom().insert(k));
    lemma_map_total_remove(n, value, k);
    if m.dom().contains(k) {
        lemma_map_total_remove(m, value, k);
        assert(n.remove(k) =~= m.remove(k));
    } else {
        assert(n.remove(k) =~= m);
    }
}

} // verus!
