//! Stable sorting by lexicographic keys.
//!
//! Every item comes with a key, a sequence of `u64`. Keys are compared
//! lexicographically (a proper prefix comes first), the way `str` and
//! `Vec<u64>` are ordered. Items with equal keys keep their input order.
use vstd::prelude::*;

verus! {

/// Strict lexicographic order.
pub open spec fn lex_lt(a: Seq<u64>, b: Seq<u64>) -> bool
    decreases a.len(),
{
    if a.len() == 0 {
        b.len() > 0
    } else if b.len() == 0 {
        false
    } else if a[0] < b[0] {
        true
    } else if a[0] > b[0] {
        false
    } else {
        lex_lt(a.drop_first(), b.drop_first())
    }
}

/// Whether the item with key `ka` at input position `ia` goes before the
/// item with key `kb` at input position `ib`.
pub open spec fn goes_before(ka: Seq<u64>, ia: int, kb: Seq<u64>, ib: int, desc: bool) -> bool {
    if ka == kb {
        ia < ib
    } else if desc {
        lex_lt(kb, ka)
    } else {
        lex_lt(ka, kb)
    }
}

/// `p` lists each index of `0..n` exactly once.
pub open spec fn is_permutation(p: Seq<int>, n: int) -> bool {
    &&& p.len() == n
    &&& forall|k: int| 0 <= k < n ==> 0 <= #[trigger] p[k] < n
    &&& forall|k: int, l: int| 0 <= k < l < n ==> p[k] != p[l]
}

/// `out` is `items` stably sorted by `keys`.
pub open spec fn sorted_by_keys<T>(
    out: Seq<T>,
    items: Seq<T>,
    keys: Seq<Seq<u64>>,
    desc: bool,
) -> bool {
    exists|p: Seq<int>| is_sorting(p, out, items, keys, desc)
}

pub open spec fn is_sorting<T>(
    p: Seq<int>,
    out: Seq<T>,
    items: Seq<T>,
    keys: Seq<Seq<u64>>,
    desc: bool,
) -> bool {
    &&& is_permutation(p, items.len() as int)
    &&& out.len() == items.len()
    &&& forall|k: int| 0 <= k < out.len() ==> #[trigger] out[k] == items[p[k]]
    &&& forall|k: int, l: int|
        0 <= k < l < out.len() ==> goes_before(keys[p[k]], p[k], keys[p[l]], p[l], desc)
}

pub proof fn lemma_lex_lt_irreflexive(a: Seq<u64>)
    ensures
        !lex_lt(a, a),
    decreases a.len(),
{
    if a.len() > 0 {
        lemma_lex_lt_irreflexive(a.drop_first());
    }
}

pub proof fn lemma_lex_lt_total(a: Seq<u64>, b: Seq<u64>)
    ensures
        a != b ==> (lex_lt(a, b) || lex_lt(b, a)),
        !(lex_lt(a, b) && lex_lt(b, a)),
    decreases a.len(),
{
    if a.len() > 0 && b.len() > 0 {
        lemma_lex_lt_total(a.drop_first(), b.drop_first());
        if a[0] == b[0] && a.drop_first() == b.drop_first() {
            assert(a =~= seq![a[0]] + a.drop_first());
            assert(b =~= seq![b[0]] + b.drop_first());
        }
    } else if a.len() == 0 && b.len() == 0 {
        assert(a =~= b);
    }
}

pub proof fn lemma_lex_lt_transitive(a: Seq<u64>, b: Seq<u64>, c: Seq<u64>)
    requires
        lex_lt(a, b),
        lex_lt(b, c),
    ensures
        lex_lt(a, c),
    decreases a.len(),
{
    if a.len() > 0 && b.len() > 0 && c.len() > 0 && a[0] == b[0] && b[0] == c[0] {
        lemma_lex_lt_transitive(a.drop_first(), b.drop_first(), c.drop_first());
    }
}

pub proof fn lemma_goes_before_transitive(
    ka: Seq<u64>,
    ia: int,
    kb: Seq<u64>,
    ib: int,
    kc: Seq<u64>,
    ic: int,
    desc: bool,
)
    requires
        goes_before(ka, ia, kb, ib, desc),
        goes_before(kb, ib, kc, ic, desc),
    ensures
        goes_before(ka, ia, kc, ic, desc),
{
    lemma_lex_lt_total(ka, kb);
    lemma_lex_lt_total(kb, kc);
    lemma_lex_lt_total(ka, kc);
    if ka != kb && kb != kc {
        if desc {
            lemma_lex_lt_transitive(kc, kb, ka);
        } else {
            lemma_lex_lt_transitive(ka, kb, kc);
        }
    }
    if ka == kc && ka != kb {
        if desc {
            lemma_lex_lt_transitive(kb, ka, kb);
            lemma_lex_lt_irreflexive(kb);
        } else {
            lemma_lex_lt_transitive(ka, kb, ka);
            lemma_lex_lt_irreflexive(ka);
        }
    }
}

pub proof fn lemma_goes_before_total(ka: Seq<u64>, ia: int, kb: Seq<u64>, ib: int, desc: bool)
    requires
        ia != ib,
    ensures
        goes_before(ka, ia, kb, ib, desc) != goes_before(kb, ib, ka, ia, desc),
{
    lemma_lex_lt_total(ka, kb);
}

/// Exec comparison of two keys.
pub fn lex_less(a: &Vec<u64>, b: &Vec<u64>) -> (r: bool)
    ensures
        r == lex_lt(a@, b@),
{
    let mut i: usize = 0;
    proof {
        assert(a@.subrange(0, a@.len() as int) =~= a@);
        assert(b@.subrange(0, b@.len() as int) =~= b@);
    }
    while i < a.len() && i < b.len()
        invariant
            i <= a.len(),
            i <= b.len(),
            lex_lt(a@, b@) == lex_lt(a@.subrange(i as int, a@.len() as int), b@.subrange(
                i as int,
                b@.len() as int,
            )),
        decreases a.len() - i,
    {
        let ghost sa = a@.subrange(i as int, a@.len() as int);
        let ghost sb = b@.subrange(i as int, b@.len() as int);
        proof {
            assert(sa[0] == a@[i as int]);
            assert(sb[0] == b@[i as int]);
            assert(sa.drop_first() =~= a@.subrange(i + 1, a@.len() as int));
            assert(sb.drop_first() =~= b@.subrange(i + 1, b@.len() as int));
        }
        if a[i] < b[i] {
            return true;
        }
        if a[i] > b[i] {
            return false;
        }
        i += 1;
    }
    proof {
        assert(a@.subrange(0, a@.len() as int) =~= a@);
        assert(b@.subrange(0, b@.len() as int) =~= b@);
    }
    i == a.len() && i < b.len()
}

pub fn keys_equal(a: &Vec<u64>, b: &Vec<u64>) -> (r: bool)
    ensures
        r == (a@ == b@),
{
    if a.len() != b.len() {
        return false;
    }
    let mut i: usize = 0;
    while i < a.len()
        invariant
            i <= a.len() == b.len(),
            forall|k: int| 0 <= k < i ==> a@[k] == b@[k],
        decreases a.len() - i,
    {
        if a[i] != b[i] {
            return false;
        }
        i += 1;
    }
    proof {
        assert(a@ =~= b@);
    }
    true
}

/// Stable sort of `items` by `keys` (ascending, or descending when `desc`).
pub fn sort_by_keys<T>(items: Vec<T>, keys: Vec<Vec<u64>>, desc: bool) -> (out: Vec<T>)
    requires
        items.len() == keys.len(),
    ensures
        sorted_by_keys(out@, items@, keys@.map_values(|k: Vec<u64>| k@), desc),
{
    let ghost orig = items@;
    let ghost ks = keys@.map_values(|k: Vec<u64>| k@);
    let n = items.len();
    let mut src: Vec<T> = items;
    let mut src_keys: Vec<Vec<u64>> = keys;
    // Work from the back so that `remove(last)` keeps the remaining indices.
    let mut out: Vec<T> = Vec::new();
    let mut out_keys: Vec<Vec<u64>> = Vec::new();
    let ghost mut p: Seq<int> = Seq::empty();
    let mut taken: usize = 0;
    // Items are moved from the front: reverse the sources first.
    let mut rev: Vec<T> = Vec::new();
    let mut rev_keys: Vec<Vec<u64>> = Vec::new();
    while src.len() > 0
        invariant
            src.len() == src_keys.len(),
            rev.len() == rev_keys.len(),
            src.len() + rev.len() == n,
            n == orig.len(),
            ks.len() == n,
            forall|k: int| 0 <= k < src.len() ==> #[trigger] src@[k] == orig[k],
            forall|k: int| 0 <= k < src.len() ==> #[trigger] src_keys@[k]@ == ks[k],
            forall|k: int| 0 <= k < rev.len() ==> #[trigger] rev@[k] == orig[n - 1 - k],
            forall|k: int| 0 <= k < rev.len() ==> #[trigger] rev_keys@[k]@ == ks[n - 1 - k],
        decreases src.len(),
    {
        let x = src.pop().unwrap();
        let kx = src_keys.pop().unwrap();
        rev.push(x);
        rev_keys.push(kx);
    }
    while rev.len() > 0
        invariant
            rev.len() == rev_keys.len(),
            out.len() == out_keys.len(),
            taken == out.len(),
            rev.len() + taken == n,
            n == orig.len(),
            ks.len() == n,
            forall|k: int| 0 <= k < rev.len() ==> #[trigger] rev@[k] == orig[n - 1 - k],
            forall|k: int| 0 <= k < rev.len() ==> #[trigger] rev_keys@[k]@ == ks[n - 1 - k],
            p.len() == taken,
            forall|k: int| 0 <= k < taken ==> 0 <= #[trigger] p[k] < taken,
            forall|k: int, l: int| 0 <= k < l < taken ==> p[k] != p[l],
            forall|k: int| 0 <= k < taken ==> #[trigger] out@[k] == orig[p[k]],
            forall|k: int| 0 <= k < taken ==> #[trigger] out_keys@[k]@ == ks[p[k]],
            forall|k: int, l: int|
                0 <= k < l < taken ==> goes_before(ks[p[k]], p[k], ks[p[l]], p[l], desc),
        decreases rev.len(),
    {
        let x = rev.pop().unwrap();
        let kx = rev_keys.pop().unwrap();
        let ghost ix = taken as int;
        proof {
            assert(x == orig[ix]);
            assert(kx@ == ks[ix]);
        }
        // Find the insertion point: after every item that goes before x.
        let mut j: usize = out.len();
        while j > 0
            invariant
                j <= out.len() == out_keys.len() == taken,
                p.len() == taken,
                ix == taken,
                n == orig.len(),
                ks.len() == n,
                taken < n,
                kx@ == ks[ix],
                forall|k: int| 0 <= k < taken ==> 0 <= #[trigger] p[k] < taken,
                forall|k: int| 0 <= k < taken ==> #[trigger] out_keys@[k]@ == ks[p[k]],
                forall|k: int| j <= k < taken ==> goes_before(ks[ix], ix, ks[p[k]], p[k], desc),
            ensures
                j <= taken,
                forall|k: int| j <= k < taken ==> goes_before(ks[ix], ix, ks[p[k]], p[k], desc),
                j > 0 ==> goes_before(ks[p[j - 1]], p[j - 1], ks[ix], ix, desc),
            decreases j,
        {
            let kp = &out_keys[j - 1];
            let before = if keys_equal(kp, &kx) {
                true
            } else if desc {
                lex_less(&kx, kp)
            } else {
                lex_less(kp, &kx)
            };
            proof {
                assert(kp@ == ks[p[j - 1]]);
                assert(p[j - 1] < ix);
            }
            if before {
                break ;
            }
            proof {
                lemma_goes_before_total(ks[p[j - 1]], p[j - 1], ks[ix], ix, desc);
            }
            j -= 1;
        }
        proof {
            // Every item before position j goes before x.
            if j > 0 {
                assert forall|k: int| 0 <= k < j implies goes_before(
                    ks[p[k]],
                    p[k],
                    ks[ix],
                    ix,
                    desc,
                ) by {
                    if k < j - 1 {
                        lemma_goes_before_transitive(
                            ks[p[k]],
                            p[k],
                            ks[p[j - 1]],
                            p[j - 1],
                            ks[ix],
                            ix,
                            desc,
                        );
                    }
                }
            }
        }
        let ghost old_p = p;
        let ghost old_out = out@;
        let ghost old_keys = out_keys@;
        out.insert(j, x);
        out_keys.insert(j, kx);
        proof {
            p = old_p.insert(j as int, ix);
            assert forall|k: int| 0 <= k < taken + 1 implies #[trigger] out@[k] == orig[p[k]] by {
                if k < j {
                    assert(out@[k] == old_out[k]);
                } else if k > j {
                    assert(out@[k] == old_out[k - 1]);
                }
            }
            assert forall|k: int| 0 <= k < taken + 1 implies #[trigger] out_keys@[k]@ == ks[p[k]] by {
                if k < j {
                    assert(out_keys@[k] == old_keys[k]);
                } else if k > j {
                    assert(out_keys@[k] == old_keys[k - 1]);
                }
            }
            assert forall|k: int| 0 <= k < taken + 1 implies 0 <= #[trigger] p[k] < taken + 1 by {
                if k < j {
                    assert(p[k] == old_p[k]);
                } else if k > j {
                    assert(p[k] == old_p[k - 1]);
                }
            }
            assert forall|k: int, l: int| 0 <= k < l < taken + 1 implies p[k] != p[l] by {
                if k < j && l < j {
                    assert(p[k] == old_p[k] && p[l] == old_p[l]);
                } else if k < j && l > j {
                    assert(p[k] == old_p[k] && p[l] == old_p[l - 1]);
                } else if k > j {
                    assert(p[k] == old_p[k - 1] && p[l] == old_p[l - 1]);
                } else if k == j {
                    assert(p[l] == old_p[l - 1]);
                } else {
                    assert(p[k] == old_p[k]);
                }
            }
            assert forall|k: int, l: int| 0 <= k < l < taken + 1 implies goes_before(
                ks[p[k]],
                p[k],
                ks[p[l]],
                p[l],
                desc,
            ) by {
                if k < j && l < j {
                    assert(p[k] == old_p[k] && p[l] == old_p[l]);
                } else if k < j && l > j {
                    assert(p[k] == old_p[k] && p[l] == old_p[l - 1]);
                } else if k > j {
                    assert(p[k] == old_p[k - 1] && p[l] == old_p[l - 1]);
                } else if k == j {
                    assert(p[l] == old_p[l - 1]);
                } else {
                    assert(p[k] == old_p[k]);
                }
            }
        }
        taken += 1;
    }
    proof {
        assert(is_sorting(p, out@, orig, ks, desc));
    }
    out
}

} // verus!
