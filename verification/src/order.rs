//! The lexical order of names (byte order of their UTF-8 encodings, as for
//! Rust strings) and a stable sort of indices by a pair of names.

use vstd::prelude::*;
use vstd::utf8::encode_utf8;

verus! {

/// Lexicographic order of byte strings.
pub open spec fn bytes_lt(a: Seq<u8>, b: Seq<u8>) -> bool
    decreases a.len(),
{
    if a.len() == 0 {
        b.len() > 0
    } else if b.len() == 0 {
        false
    } else if a[0] != b[0] {
        a[0] < b[0]
    } else {
        bytes_lt(a.drop_first(), b.drop_first())
    }
}

/// The order of names: lexicographic on their UTF-8 bytes.
pub open spec fn name_lt(a: Seq<char>, b: Seq<char>) -> bool {
    bytes_lt(encode_utf8(a), encode_utf8(b))
}

/// The order of name pairs: by the first name, then by the second.
pub open spec fn key_lt(a: (Seq<char>, Seq<char>), b: (Seq<char>, Seq<char>)) -> bool {
    name_lt(a.0, b.0) || (encode_utf8(a.0) == encode_utf8(b.0) && name_lt(a.1, b.1))
}

/// Keys as pairs of names.
pub open spec fn key_views(keys: Seq<(String, String)>) -> Seq<(Seq<char>, Seq<char>)> {
    keys.map_values(|k: (String, String)| (k.0@, k.1@))
}

pub proof fn lemma_bytes_lt_irreflexive(a: Seq<u8>)
    ensures
        !bytes_lt(a, a),
    decreases a.len(),
{
    if a.len() > 0 {
        lemma_bytes_lt_irreflexive(a.drop_first());
    }
}

pub proof fn lemma_bytes_lt_asymmetric(a: Seq<u8>, b: Seq<u8>)
    ensures
        bytes_lt(a, b) ==> !bytes_lt(b, a),
    decreases a.len(),
{
    if a.len() > 0 && b.len() > 0 && a[0] == b[0] {
        lemma_bytes_lt_asymmetric(a.drop_first(), b.drop_first());
    }
}

pub proof fn lemma_bytes_lt_transitive(a: Seq<u8>, b: Seq<u8>, c: Seq<u8>)
    ensures
        bytes_lt(a, b) && bytes_lt(b, c) ==> bytes_lt(a, c),
    decreases a.len(),
{
    if a.len() > 0 && b.len() > 0 && c.len() > 0 && a[0] == b[0] && b[0] == c[0] {
        lemma_bytes_lt_transitive(a.drop_first(), b.drop_first(), c.drop_first());
    }
}

/// `key_lt` is a strict order: irreflexive, asymmetric and transitive.
pub proof fn lemma_key_lt_strict(a: (Seq<char>, Seq<char>), b: (Seq<char>, Seq<char>), c: (Seq<char>, Seq<char>))
    ensures
        !key_lt(a, a),
        key_lt(a, b) ==> !key_lt(b, a),
        key_lt(a, b) && key_lt(b, c) ==> key_lt(a, c),
{
    let (a0, a1) = (encode_utf8(a.0), encode_utf8(a.1));
    let (b0, b1) = (encode_utf8(b.0), encode_utf8(b.1));
    let (c0, c1) = (encode_utf8(c.0), encode_utf8(c.1));
    lemma_bytes_lt_irreflexive(a0);
    lemma_bytes_lt_irreflexive(a1);
    lemma_bytes_lt_irreflexive(b0);
    lemma_bytes_lt_asymmetric(a0, b0);
    lemma_bytes_lt_asymmetric(a1, b1);
    lemma_bytes_lt_transitive(a0, b0, c0);
    lemma_bytes_lt_transitive(a1, b1, c1);
}

/// Whether `a` comes before `b` in name order.
pub fn name_less(a: &str, b: &str) -> (r: bool)
    ensures
        r == name_lt(a@, b@),
{
    let x = a.as_bytes();
    let y = b.as_bytes();
    let ghost xs = x@;
    let ghost ys = y@;
    assert(xs.subrange(0, xs.len() as int) =~= xs);
    assert(ys.subrange(0, ys.len() as int) =~= ys);
    let mut i: usize = 0;
    while i < x.len() && i < y.len()
        invariant
            xs == x@,
            ys == y@,
            xs == encode_utf8(a@),
            ys == encode_utf8(b@),
            i <= xs.len(),
            i <= ys.len(),
            bytes_lt(xs, ys) == bytes_lt(xs.subrange(i as int, xs.len() as int), ys.subrange(i as int, ys.len() as int)),
        decreases xs.len() - i,
    {
        let ghost sx = xs.subrange(i as int, xs.len() as int);
        let ghost sy = ys.subrange(i as int, ys.len() as int);
        assert(sx.drop_first() =~= xs.subrange(i + 1, xs.len() as int));
        assert(sy.drop_first() =~= ys.subrange(i + 1, ys.len() as int));
        if x[i] != y[i] {
            return x[i] < y[i];
        }
        i = i + 1;
    }
    x.len() < y.len()
}

/// Whether two names have the same bytes.
pub fn name_same(a: &str, b: &str) -> (r: bool)
    ensures
        r == (encode_utf8(a@) == encode_utf8(b@)),
{
    let x = a.as_bytes();
    let y = b.as_bytes();
    if x.len() != y.len() {
        return false;
    }
    let mut i: usize = 0;
    while i < x.len()
        invariant
            x@.len() == y@.len(),
            x@ == encode_utf8(a@),
            y@ == encode_utf8(b@),
            i <= x@.len(),
            forall|j: int| 0 <= j < i ==> x@[j] == y@[j],
        decreases x@.len() - i,
    {
        if x[i] != y[i] {
            return false;
        }
        i = i + 1;
    }
    assert(x@ =~= y@);
    true
}

/// Whether key `a` comes before key `b`.
pub fn key_less(a: &(String, String), b: &(String, String)) -> (r: bool)
    ensures
        r == key_lt((a.0@, a.1@), (b.0@, b.1@)),
{
    if name_less(a.0.as_str(), b.0.as_str()) {
        true
    } else if name_same(a.0.as_str(), b.0.as_str()) {
        name_less(a.1.as_str(), b.1.as_str())
    } else {
        false
    }
}

/// `order` lists every index of `keys` once, in non-decreasing key order.
pub open spec fn is_key_order(keys: Seq<(Seq<char>, Seq<char>)>, order: Seq<usize>) -> bool {
    &&& order.len() == keys.len()
    &&& forall|i: int| 0 <= i < order.len() ==> (#[trigger] order[i]) < keys.len()
    &&& forall|i: int, j: int| 0 <= i < j < order.len() ==> order[i] != order[j]
    &&& forall|i: int, j: int| 0 <= i < j < order.len() ==> !key_lt(keys[order[j] as int], keys[order[i] as int])
}

/// The indices of `keys` in key order; equal keys keep their order.
pub fn key_order(keys: &Vec<(String, String)>) -> (r: Vec<usize>)
    ensures
        is_key_order(key_views(keys@), r@),
{
    let ghost kv = key_views(keys@);
    let n = keys.len();
    let mut r: Vec<usize> = Vec::new();
    let mut i: usize = 0;
    while i < n
        invariant
            n == keys@.len(),
            kv == key_views(keys@),
            i <= n,
            r@.len() == i,
            forall|a: int| 0 <= a < r@.len() ==> (#[trigger] r@[a]) < i,
            forall|a: int, b: int| 0 <= a < b < r@.len() ==> r@[a] != r@[b],
            forall|a: int, b: int|
                0 <= a < b < r@.len() ==> !key_lt(kv[r@[b] as int], kv[r@[a] as int]),
        decreases n - i,
    {
        let mut p: usize = 0;
        while p < r.len() && !key_less(&keys[i], &keys[r[p]])
            invariant
                n == keys@.len(),
                kv == key_views(keys@),
                i < n,
                p <= r@.len(),
                forall|a: int| 0 <= a < r@.len() ==> (#[trigger] r@[a]) < i,
                forall|q: int| 0 <= q < p ==> !key_lt(kv[i as int], kv[#[trigger] r@[q] as int]),
            decreases r@.len() - p,
        {
            p = p + 1;
        }
        let ghost old_r = r@;
        r.insert(p, i);
        proof {
            old_r.insert_ensures(p as int, i);
            let ki = kv[i as int];
            assert forall|a: int| 0 <= a < r@.len() implies (#[trigger] r@[a]) < i + 1 by {
                if a < p {
                    assert(r@[a] == old_r[a]);
                } else if a > p {
                    assert(r@[a] == old_r[a - 1]);
                }
            }
            assert forall|a: int, b: int| 0 <= a < b < r@.len() implies r@[a] != r@[b] by {
                if a < p {
                    assert(r@[a] == old_r[a]);
                } else if a > p {
                    assert(r@[a] == old_r[a - 1]);
                }
                if b < p {
                    assert(r@[b] == old_r[b]);
                } else if b > p {
                    assert(r@[b] == old_r[b - 1]);
                }
            }
            assert forall|a: int, b: int|
                0 <= a < b < r@.len() implies !key_lt(kv[r@[b] as int], kv[r@[a] as int]) by {
                if b < p {
                    assert(r@[a] == old_r[a] && r@[b] == old_r[b]);
                } else if b == p {
                    assert(r@[a] == old_r[a]);
                    assert(!key_lt(ki, kv[old_r[a] as int]));
                } else if a == p {
                    let kb = kv[old_r[b - 1] as int];
                    assert(r@[b] == old_r[b - 1]);
                    assert(p < old_r.len());
                    let kp = kv[old_r[p as int] as int];
                    assert(key_lt(ki, kp));
                    lemma_key_lt_strict(kb, ki, kp);
                    lemma_key_lt_strict(ki, kp, kb);
                } else if a < p {
                    assert(r@[a] == old_r[a] && r@[b] == old_r[b - 1]);
                } else {
                    assert(r@[a] == old_r[a - 1] && r@[b] == old_r[b - 1]);
                }
            }
        }
        i = i + 1;
    }
    r
}

} // verus!
