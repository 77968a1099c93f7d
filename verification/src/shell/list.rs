//! Ordered lists of window keys: search, removal and exchange.

use crate::shell::window::WindowId;
use vstd::prelude::*;

verus! {

/// The list with every occurrence of `id` taken out, the rest in order.
pub open spec fn without(s: Seq<WindowId>, id: WindowId) -> Seq<WindowId>
    decreases s.len(),
{
    if s.len() == 0 {
        s
    } else if s.last() == id {
        without(s.drop_last(), id)
    } else {
        without(s.drop_last(), id).push(s.last())
    }
}

/// `i` is the place of the first occurrence of `id`.
pub open spec fn is_first(s: Seq<WindowId>, id: WindowId, i: int) -> bool {
    &&& 0 <= i < s.len()
    &&& s[i] == id
    &&& forall|j: int| 0 <= j < i ==> s[j] != id
}

/// Place of the first occurrence of `id`, if there is one.
pub open spec fn position(s: Seq<WindowId>, id: WindowId) -> Option<int> {
    if s.contains(id) {
        Some(choose|i: int| is_first(s, id, i))
    } else {
        None
    }
}

/// The list with the entries at `i` and `j` exchanged.
pub open spec fn swapped(s: Seq<WindowId>, i: int, j: int) -> Seq<WindowId> {
    s.update(i, s[j]).update(j, s[i])
}

/// The place `delta` steps after `pos` on a ring of `len` places.
pub open spec fn cyclic(pos: int, delta: int, len: int) -> int {
    (pos + delta) % len
}

/// The first occurrence is the position, and there is none other.
pub proof fn lemma_position(s: Seq<WindowId>, id: WindowId, i: int)
    requires
        is_first(s, id, i),
    ensures
        position(s, id) == Some(i),
{
    assert(s.contains(id));
    let k = choose|k: int| is_first(s, id, k);
    assert(is_first(s, id, k));
    if k < i {
    } else if i < k {
    }
}

/// A list holds `id` exactly when it has a position, which is then a
/// first occurrence.
pub proof fn lemma_position_some(s: Seq<WindowId>, id: WindowId)
    ensures
        position(s, id) is Some <==> s.contains(id),
        position(s, id) is Some ==> is_first(s, id, position(s, id)->0),
{
    if s.contains(id) {
        lemma_first_exists(s, id);
    }
}

proof fn lemma_first_exists(s: Seq<WindowId>, id: WindowId)
    requires
        s.contains(id),
    ensures
        exists|i: int| is_first(s, id, i),
    decreases s.len(),
{
    let w = choose|w: int| 0 <= w < s.len() && s[w] == id;
    if exists|j: int| 0 <= j < w && s[j] == id {
        let j = choose|j: int| 0 <= j < w && s[j] == id;
        let t = s.take(w);
        assert(t[j] == id);
        assert(t.contains(id));
        lemma_first_exists(t, id);
        let f = choose|f: int| is_first(t, id, f);
        assert(is_first(t, id, f));
        assert(s[f] == t[f]);
        assert forall|k: int| 0 <= k < f implies s[k] != id by {
            assert(t[k] == s[k]);
        }
        assert(is_first(s, id, f));
    } else {
        assert(is_first(s, id, w));
    }
}

/// What `without` keeps: every entry but `id`, none twice that was there
/// once, and everything where `id` was absent.
pub proof fn lemma_without(s: Seq<WindowId>, id: WindowId)
    ensures
        forall|x: WindowId| #[trigger] without(s, id).contains(x) <==> s.contains(x) && x != id,
        without(s, id).len() <= s.len(),
        s.no_duplicates() ==> without(s, id).no_duplicates(),
        !s.contains(id) ==> without(s, id) == s,
    decreases s.len(),
{
    if s.len() == 0 {
    } else {
        let rest = s.drop_last();
        let last = s.last();
        lemma_without(rest, id);
        let out = without(s, id);
        let sub = without(rest, id);
        assert(s =~= rest.push(last));
        assert forall|x: WindowId| #[trigger] out.contains(x) <==> s.contains(x) && x != id by {
            if out.contains(x) {
                let k = choose|k: int| 0 <= k < out.len() && out[k] == x;
                if last != id && k == out.len() - 1 {
                    assert(s[s.len() - 1] == x);
                } else {
                    assert(sub[k] == x);
                    assert(sub.contains(x));
                    let m = choose|m: int| 0 <= m < rest.len() && rest[m] == x;
                    assert(s[m] == x);
                }
            }
            if s.contains(x) && x != id {
                let m = choose|m: int| 0 <= m < s.len() && s[m] == x;
                if m == s.len() - 1 {
                    assert(out[out.len() - 1] == x);
                } else {
                    assert(rest[m] == x);
                    assert(rest.contains(x));
                    assert(sub.contains(x));
                    let k = choose|k: int| 0 <= k < sub.len() && sub[k] == x;
                    assert(out[k] == x);
                }
            }
        }
        if s.no_duplicates() {
            assert forall|a: int, b: int|
                0 <= a < rest.len() && 0 <= b < rest.len() && a != b
                implies rest[a] != rest[b] by {
                assert(s[a] != s[b]);
            }
            assert(rest.no_duplicates());
            if last != id {
                assert(!sub.contains(last)) by {
                    if sub.contains(last) {
                        assert(rest.contains(last));
                        let m = choose|m: int| 0 <= m < rest.len() && rest[m] == last;
                        assert(s[m] == s[s.len() - 1]);
                    }
                }
                assert forall|a: int, b: int|
                    0 <= a < out.len() && 0 <= b < out.len() && a != b
                    implies out[a] != out[b] by {
                    if a == out.len() - 1 {
                        assert(sub[b] == out[b]);
                        assert(sub.contains(out[b]));
                    } else if b == out.len() - 1 {
                        assert(sub[a] == out[a]);
                        assert(sub.contains(out[a]));
                    } else {
                        assert(sub[a] != sub[b]);
                    }
                }
            }
        }
        if !s.contains(id) {
            assert(last != id) by {
                assert(s[s.len() - 1] == last);
            }
            assert(!rest.contains(id)) by {
                if rest.contains(id) {
                    let m = choose|m: int| 0 <= m < rest.len() && rest[m] == id;
                    assert(s[m] == id);
                }
            }
            assert(out =~= s);
        }
    }
}

/// Taking `id` out of a list that ends in `x`.
pub proof fn lemma_without_push(s: Seq<WindowId>, x: WindowId, id: WindowId)
    ensures
        without(s.push(x), id) == if x == id {
            without(s, id)
        } else {
            without(s, id).push(x)
        },
{
    assert(s.push(x).drop_last() =~= s);
}

/// An exchange keeps the length, the entries and their distinctness.
pub proof fn lemma_swapped(s: Seq<WindowId>, i: int, j: int)
    requires
        0 <= i < s.len(),
        0 <= j < s.len(),
    ensures
        swapped(s, i, j).len() == s.len(),
        forall|x: WindowId| #[trigger] swapped(s, i, j).contains(x) <==> s.contains(x),
        s.no_duplicates() ==> swapped(s, i, j).no_duplicates(),
        swapped(s, i, j)[i] == s[j],
        swapped(s, i, j)[j] == s[i],
{
    let t = swapped(s, i, j);
    assert forall|x: WindowId| #[trigger] t.contains(x) <==> s.contains(x) by {
        if t.contains(x) {
            let k = choose|k: int| 0 <= k < t.len() && t[k] == x;
            if k == i {
                assert(s[j] == x);
            } else if k == j {
                assert(s[i] == x);
            } else {
                assert(s[k] == x);
            }
        }
        if s.contains(x) {
            let k = choose|k: int| 0 <= k < s.len() && s[k] == x;
            if k == i {
                assert(t[j] == x);
            } else if k == j {
                assert(t[i] == x);
            } else {
                assert(t[k] == x);
            }
        }
    }
    if s.no_duplicates() {
        assert forall|a: int, b: int|
            0 <= a < t.len() && 0 <= b < t.len() && a != b
            implies t[a] != t[b] by {
            let pa = if a == i { j } else if a == j { i } else { a };
            let pb = if b == i { j } else if b == j { i } else { b };
            assert(t[a] == s[pa]);
            assert(t[b] == s[pb]);
            assert(pa != pb);
        }
    }
}

/// Place of the first occurrence of `id` in `v`.
pub fn find(v: &Vec<WindowId>, id: WindowId) -> (r: Option<usize>)
    ensures
        r is Some <==> v@.contains(id),
        r is Some ==> is_first(v@, id, r->0 as int),
        (match r {
            Some(i) => Some(i as int),
            None => None,
        }) == position(v@, id),
{
    let mut i: usize = 0;
    while i < v.len()
        invariant
            0 <= i <= v.len(),
            forall|j: int| 0 <= j < i ==> v@[j] != id,
        decreases v.len() - i,
    {
        if v[i] == id {
            proof {
                lemma_position(v@, id, i as int);
            }
            return Some(i);
        }
        i += 1;
    }
    None
}

/// Takes every occurrence of `id` out of `v`.
pub fn discard(v: &mut Vec<WindowId>, id: WindowId)
    ensures
        final(v)@ == without(old(v)@, id),
{
    let mut kept: Vec<WindowId> = Vec::new();
    let mut i: usize = 0;
    while i < v.len()
        invariant
            0 <= i <= v.len(),
            kept@ == without(v@.take(i as int), id),
        decreases v.len() - i,
    {
        proof {
            lemma_without_push(v@.take(i as int), v@[i as int], id);
            assert(v@.take(i as int).push(v@[i as int]) =~= v@.take(i + 1));
        }
        if v[i] != id {
            kept.push(v[i]);
        }
        i += 1;
    }
    assert(v@.take(v.len() as int) =~= v@);
    *v = kept;
}

/// Exchanges the entries at `i` and `j`.
pub fn exchange(v: &mut Vec<WindowId>, i: usize, j: usize)
    requires
        i < old(v).len(),
        j < old(v).len(),
    ensures
        final(v)@ == swapped(old(v)@, i as int, j as int),
{
    let a = v[i];
    let b = v[j];
    v[i] = b;
    v[j] = a;
}

/// The place `delta` steps after `pos` on a ring of `len` places.
pub fn step(pos: usize, delta: i32, len: usize) -> (r: usize)
    requires
        pos < len,
    ensures
        r == cyclic(pos as int, delta as int, len as int),
        r < len,
{
    if delta >= 0 {
        let d: usize = (delta as usize) % len;
        let room: usize = len - pos;
        proof {
            lemma_cyclic_forward(pos as int, delta as int, len as int);
        }
        if d < room {
            pos + d
        } else {
            d - room
        }
    } else {
        let back: usize = ((-(delta as i64)) as usize) % len;
        proof {
            lemma_cyclic_backward(pos as int, delta as int, len as int);
        }
        if back <= pos {
            pos - back
        } else {
            len - (back - pos)
        }
    }
}

proof fn lemma_cyclic_forward(pos: int, delta: int, len: int)
    requires
        0 <= pos < len,
        delta >= 0,
    ensures
        cyclic(pos, delta, len) == if delta % len < len - pos {
            pos + delta % len
        } else {
            delta % len - (len - pos)
        },
{
    let d = delta % len;
    let q = delta / len;
    vstd::arithmetic::div_mod::lemma_fundamental_div_mod(delta, len);
    vstd::arithmetic::div_mod::lemma_mod_bound(delta, len);
    assert(len * q == q * len) by (nonlinear_arith);
    if d < len - pos {
        vstd::arithmetic::div_mod::lemma_fundamental_div_mod_converse(pos + delta, len, q, pos + d);
    } else {
        assert(pos + delta == (q + 1) * len + (d - (len - pos))) by (nonlinear_arith)
            requires
                delta == q * len + d,
        ;
        vstd::arithmetic::div_mod::lemma_fundamental_div_mod_converse(
            pos + delta,
            len,
            q + 1,
            d - (len - pos),
        );
    }
}

proof fn lemma_cyclic_backward(pos: int, delta: int, len: int)
    requires
        0 <= pos < len,
        delta < 0,
    ensures
        cyclic(pos, delta, len) == if (-delta) % len <= pos {
            pos - (-delta) % len
        } else {
            len - ((-delta) % len - pos)
        },
{
    let b = (-delta) % len;
    let q = (-delta) / len;
    vstd::arithmetic::div_mod::lemma_fundamental_div_mod(-delta, len);
    vstd::arithmetic::div_mod::lemma_mod_bound(-delta, len);
    assert(len * q == q * len) by (nonlinear_arith);
    if b <= pos {
        assert(pos + delta == (-q) * len + (pos - b)) by (nonlinear_arith)
            requires
                -delta == q * len + b,
        ;
        vstd::arithmetic::div_mod::lemma_fundamental_div_mod_converse(pos + delta, len, -q, pos - b);
    } else {
        assert(pos + delta == (-q - 1) * len + (len - (b - pos))) by (nonlinear_arith)
            requires
                -delta == q * len + b,
        ;
        vstd::arithmetic::div_mod::lemma_fundamental_div_mod_converse(
            pos + delta,
            len,
            -q - 1,
            len - (b - pos),
        );
    }
}

/// The keys stand in the ascending order of their slots.
pub open spec fn ascending(s: Seq<WindowId>) -> bool {
    forall|i: int, j: int| 0 <= i < j < s.len() ==> s[i].slot() < s[j].slot()
}

/// The list holds exactly the keys of `dom`, in the ascending order of
/// their slots.
pub open spec fn lists(s: Seq<WindowId>, dom: Set<WindowId>) -> bool {
    ascending(s) && forall|k: WindowId| s.contains(k) <==> dom.contains(k)
}

/// The keys of `dom` in the ascending order of their slots, where no two
/// of them share a slot.
pub open spec fn key_order(dom: Set<WindowId>) -> Seq<WindowId> {
    choose|s: Seq<WindowId>| lists(s, dom)
}

/// Two lists of the same keys in the ascending order of their slots agree
/// up to any place that both have.
proof fn lemma_ascending_prefix(a: Seq<WindowId>, b: Seq<WindowId>, n: int)
    requires
        ascending(a),
        ascending(b),
        forall|k: WindowId| a.contains(k) <==> b.contains(k),
        0 <= n <= a.len(),
        n <= b.len(),
    ensures
        forall|i: int| 0 <= i < n ==> a[i] == b[i],
    decreases n,
{
    if n > 0 {
        lemma_ascending_prefix(a, b, n - 1);
        let i = n - 1;
        assert(a.contains(a[i]));
        assert(b.contains(b[i]));
        let j = choose|j: int| 0 <= j < b.len() && b[j] == a[i];
        let k = choose|k: int| 0 <= k < a.len() && a[k] == b[i];
        if j < i {
            assert(a[j] == b[j]);
            assert(a[j].slot() < a[i].slot());
        }
        if k < i {
            assert(a[k] == b[k]);
            assert(b[k].slot() < b[i].slot());
        }
        if i < j {
            assert(b[i].slot() < b[j].slot());
        }
        if i < k {
            assert(a[i].slot() < a[k].slot());
        }
    }
}

/// There is one list of the keys of a set in the ascending order of their
/// slots, and it holds no key twice.
pub proof fn lemma_key_order(s: Seq<WindowId>, dom: Set<WindowId>)
    requires
        lists(s, dom),
    ensures
        key_order(dom) == s,
        s.no_duplicates(),
{
    let t = key_order(dom);
    assert(lists(t, dom));
    assert forall|k: WindowId| s.contains(k) <==> t.contains(k) by {
        assert(s.contains(k) <==> dom.contains(k));
        assert(t.contains(k) <==> dom.contains(k));
    }
    let n = if s.len() <= t.len() {
        s.len() as int
    } else {
        t.len() as int
    };
    lemma_ascending_prefix(s, t, n);
    if s.len() < t.len() {
        let extra = t[n];
        assert(t.contains(extra));
        assert(s.contains(extra));
        let k = choose|k: int| 0 <= k < s.len() && s[k] == extra;
        assert(t[k] == s[k]);
        assert(t[k].slot() < t[n].slot());
    }
    if t.len() < s.len() {
        let extra = s[n];
        assert(s.contains(extra));
        assert(t.contains(extra));
        let k = choose|k: int| 0 <= k < t.len() && t[k] == extra;
        assert(s[k] == t[k]);
        assert(s[k].slot() < s[n].slot());
    }
    assert(s =~= t);
    assert forall|i: int, j: int|
        0 <= i < s.len() && 0 <= j < s.len() && i != j
        implies s[i] != s[j] by {
        if i < j {
            assert(s[i].slot() < s[j].slot());
        } else {
            assert(s[j].slot() < s[i].slot());
        }
    }
}

} // verus!
