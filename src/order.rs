use vstd::prelude::*;

verus! {

/// `perm` lists the first `n` indices of `keys` by key, largest first, and
/// by index among equal keys: a stable sort, largest key first.
pub open spec fn stable_desc(keys: Seq<int>, perm: Seq<int>, n: int) -> bool {
    &&& perm.len() == n
    &&& forall|k: int| 0 <= k < n ==> 0 <= #[trigger] perm[k] < n
    &&& forall|k: int, l: int| 0 <= k < l < n ==> #[trigger] perm[k] != #[trigger] perm[l]
    &&& forall|k: int, l: int|
        0 <= k < l < n ==> keys[#[trigger] perm[k]] > keys[#[trigger] perm[l]] || (keys[perm[k]]
            == keys[perm[l]] && perm[k] < perm[l])
}

/// `out` holds the entries of `base` in the order that `perm` lists.
pub open spec fn arranged_by<V>(out: Seq<V>, base: Seq<V>, perm: Seq<int>) -> bool {
    &&& out.len() == base.len()
    &&& perm.len() == base.len()
    &&& forall|k: int| 0 <= k < out.len() ==> #[trigger] out[k] == base[perm[k]]
}

/// Placing index `n` at `pos`, after every entry whose key is at least its
/// own and before the first whose key is smaller, keeps the order stable.
pub proof fn lemma_insert_stable(keys: Seq<int>, perm: Seq<int>, n: int, pos: int)
    requires
        stable_desc(keys, perm, n),
        0 <= n < keys.len(),
        0 <= pos <= n,
        forall|k: int| 0 <= k < pos ==> keys[#[trigger] perm[k]] >= keys[n],
        pos < n ==> keys[perm[pos]] < keys[n],
    ensures
        stable_desc(keys, perm.insert(pos, n), n + 1),
{
    let p2 = perm.insert(pos, n);
    assert forall|k: int| 0 <= k < n + 1 implies 0 <= #[trigger] p2[k] < n + 1 by {
        if k < pos {
            assert(p2[k] == perm[k]);
        } else if k > pos {
            assert(p2[k] == perm[k - 1]);
        }
    }
    assert forall|k: int| pos < k < n + 1 implies keys[#[trigger] p2[k]] < keys[n] by {
        assert(p2[k] == perm[k - 1]);
        if k - 1 > pos {
            assert(keys[perm[pos]] > keys[perm[k - 1]] || keys[perm[pos]] == keys[perm[k - 1]]);
        }
    }
    assert forall|k: int, l: int| 0 <= k < l < n + 1 implies #[trigger] p2[k] != #[trigger] p2[l]
        && (keys[p2[k]] > keys[p2[l]] || (keys[p2[k]] == keys[p2[l]] && p2[k] < p2[l])) by {
        if k < pos && l < pos {
            assert(p2[k] == perm[k] && p2[l] == perm[l]);
        } else if k < pos && l == pos {
            assert(p2[k] == perm[k]);
        } else if k < pos && l > pos {
            assert(p2[k] == perm[k] && p2[l] == perm[l - 1]);
        } else if k == pos {
            assert(p2[l] == perm[l - 1]);
            assert(keys[p2[l]] < keys[n]);
        } else {
            assert(p2[k] == perm[k - 1] && p2[l] == perm[l - 1]);
        }
    }
}


/// Inserts `item`, the entry of `base` at index `out.len()`, into `out`,
/// whose entries are those before it in the stable order, largest key
/// first; `keys` holds the key of each entry of `out`. Returns the order
/// that now lists the entries.
pub fn insert_stable<T: View>(
    out: &mut Vec<T>,
    keys: &mut Vec<i64>,
    item: T,
    key: i64,
    Ghost(base): Ghost<Seq<T::V>>,
    Ghost(bkeys): Ghost<Seq<int>>,
    Ghost(perm): Ghost<Seq<int>>,
) -> (r: Ghost<Seq<int>>)
    requires
        old(out)@.len() < base.len() == bkeys.len(),
        stable_desc(bkeys, perm, old(out)@.len() as int),
        old(keys)@.len() == old(out)@.len(),
        forall|k: int| 0 <= k < old(out)@.len() ==> #[trigger] old(out)@[k]@ == base[perm[k]],
        forall|k: int| 0 <= k < old(out)@.len() ==> #[trigger] old(keys)@[k] == bkeys[perm[k]],
        item@ == base[old(out)@.len() as int],
        key == bkeys[old(out)@.len() as int],
    ensures
        final(out)@.len() == old(out)@.len() + 1,
        final(keys)@.len() == final(out)@.len(),
        stable_desc(bkeys, r@, final(out)@.len() as int),
        forall|k: int| 0 <= k < final(out)@.len() ==> #[trigger] final(out)@[k]@ == base[r@[k]],
        forall|k: int| 0 <= k < final(out)@.len() ==> #[trigger] final(keys)@[k] == bkeys[r@[k]],
{
    let ghost i = out@.len() as int;
    let mut pos: usize = 0;
    while pos < keys.len() && keys[pos] >= key
        invariant
            pos <= keys@.len() == i,
            forall|k: int| 0 <= k < pos ==> bkeys[#[trigger] perm[k]] >= bkeys[i],
            forall|k: int| 0 <= k < i ==> #[trigger] keys@[k] == bkeys[perm[k]],
            key == bkeys[i],
        decreases keys@.len() - pos,
    {
        pos += 1;
    }
    proof {
        lemma_insert_stable(bkeys, perm, i, pos as int);
    }
    let ghost old_out = out@;
    let ghost old_keys = keys@;
    out.insert(pos, item);
    keys.insert(pos, key);
    let ghost p2 = perm.insert(pos as int, i);
    assert forall|k: int| 0 <= k < i + 1 implies #[trigger] out@[k]@ == base[p2[k]] by {
        if k < pos {
            assert(out@[k] == old_out[k]);
        } else if k > pos {
            assert(out@[k] == old_out[k - 1]);
        }
    }
    assert forall|k: int| 0 <= k < i + 1 implies #[trigger] keys@[k] == bkeys[p2[k]] by {
        if k < pos {
            assert(keys@[k] == old_keys[k]);
        } else if k > pos {
            assert(keys@[k] == old_keys[k - 1]);
        }
    }
    Ghost(p2)
}

} // verus!
