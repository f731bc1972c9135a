//! Plain-text placeholder substitution.

use vstd::prelude::*;
use crate::text::{chars_of, push_char, push_chars};

verus! {

/// `k` stands in `t` at position `p`.
pub open spec fn occurs_at(t: Seq<char>, k: Seq<char>, p: int) -> bool {
    0 <= p && p + k.len() <= t.len() && t.subrange(p, p + k.len()) == k
}

/// `t` with every occurrence of `k` replaced by `v`, scanning left to right
/// without overlap and without looking at what was put in. An empty key
/// leaves the text unchanged.
pub open spec fn replaced(t: Seq<char>, k: Seq<char>, v: Seq<char>) -> Seq<char>
    decreases t.len(),
{
    if k.len() == 0 || t.len() < k.len() {
        t
    } else if t.subrange(0, k.len() as int) == k {
        v + replaced(t.subrange(k.len() as int, t.len() as int), k, v)
    } else {
        seq![t[0]] + replaced(t.drop_first(), k, v)
    }
}

/// `t` after each substitution of `subs`, applied one after the other in order.
pub open spec fn instantiated(t: Seq<char>, subs: Seq<(String, String)>) -> Seq<char>
    decreases subs.len(),
{
    if subs.len() == 0 {
        t
    } else {
        replaced(instantiated(t, subs.drop_last()), subs.last().0@, subs.last().1@)
    }
}

fn matches_at(t: &Vec<char>, k: &Vec<char>, i: usize) -> (r: bool)
    requires
        i + k@.len() <= t@.len(),
    ensures
        r == (t@.subrange(i as int, i + k@.len()) == k@),
{
    let tl = t.len();
    let mut j: usize = 0;
    while j < k.len()
        invariant
            tl == t@.len(),
            i + k@.len() <= t@.len(),
            j <= k@.len(),
            forall|q: int| 0 <= q < j ==> t@[i + q] == k@[q],
        decreases k@.len() - j,
    {
        if t[i + j] != k[j] {
            assert(t@.subrange(i as int, i + k@.len())[j as int] != k@[j as int]);
            return false;
        }
        j = j + 1;
    }
    assert(t@.subrange(i as int, i + k@.len()) =~= k@);
    true
}

/// Replaces every occurrence of `key` in `text` by `value`.
pub fn replace_all(text: &str, key: &str, value: &str) -> (r: String)
    ensures
        r@ == replaced(text@, key@, value@),
{
    let t = chars_of(text);
    let k = chars_of(key);
    let v = chars_of(value);
    let mut out = String::new();
    if k.len() == 0 {
        push_chars(&mut out, t.as_slice());
        return out;
    }
    let n = t.len();
    let mut i: usize = 0;
    assert(t@.subrange(0, n as int) == t@);
    while i < n
        invariant
            n == t@.len(),
            k@.len() > 0,
            i <= n,
            out@ + replaced(t@.subrange(i as int, n as int), k@, v@) == replaced(t@, k@, v@),
        decreases n - i,
    {
        let ghost rest = t@.subrange(i as int, n as int);
        if k.len() <= n - i && matches_at(&t, &k, i) {
            assert(rest.subrange(0, k@.len() as int) == t@.subrange(i as int, i + k@.len()));
            assert(rest.subrange(k@.len() as int, rest.len() as int)
                == t@.subrange(i + k@.len(), n as int));
            push_chars(&mut out, v.as_slice());
            i = i + k.len();
        } else {
            if k.len() <= n - i {
                assert(rest.subrange(0, k@.len() as int) == t@.subrange(i as int, i + k@.len()));
            } else {
                assert(rest.drop_first().len() < k@.len());
            }
            assert(rest.drop_first() == t@.subrange(i + 1 as int, n as int));
            push_char(&mut out, t[i]);
            i = i + 1;
        }
    }
    assert(t@.subrange(n as int, n as int).len() == 0);
    out
}

/// Applies each substitution of `subs` to `template`, in order.
pub fn instantiate(template: &str, subs: &Vec<(String, String)>) -> (r: String)
    ensures
        r@ == instantiated(template@, subs@),
{
    let mut out = String::from_str(template);
    let mut i: usize = 0;
    while i < subs.len()
        invariant
            i <= subs@.len(),
            out@ == instantiated(template@, subs@.subrange(0, i as int)),
        decreases subs@.len() - i,
    {
        let next = replace_all(out.as_str(), subs[i].0.as_str(), subs[i].1.as_str());
        assert(subs@.subrange(0, i + 1).drop_last() == subs@.subrange(0, i as int));
        out = next;
        i = i + 1;
    }
    assert(subs@.subrange(0, subs@.len() as int) == subs@);
    out
}

/// Where the key occurs nowhere, replacing it changes nothing.
pub proof fn lemma_replaced_absent(t: Seq<char>, k: Seq<char>, v: Seq<char>)
    requires
        forall|p: int| !occurs_at(t, k, p),
    ensures
        replaced(t, k, v) == t,
    decreases t.len(),
{
    if k.len() == 0 || t.len() < k.len() {
    } else {
        assert(!occurs_at(t, k, 0));
        let u = t.drop_first();
        assert forall|p: int| !occurs_at(u, k, p) by {
            if occurs_at(u, k, p) {
                assert(u.subrange(p, p + k.len()) == t.subrange(p + 1, p + 1 + k.len()));
                assert(occurs_at(t, k, p + 1));
            }
        }
        lemma_replaced_absent(u, k, v);
        assert(seq![t[0]] + u == t);
    }
}

/// A prefix in which the key starts nowhere passes through unchanged.
pub proof fn lemma_replaced_prefix(a: Seq<char>, rest: Seq<char>, k: Seq<char>, v: Seq<char>)
    requires
        k.len() > 0,
        forall|p: int| 0 <= p < a.len() ==> !occurs_at(a + rest, k, p),
    ensures
        replaced(a + rest, k, v) == a + replaced(rest, k, v),
    decreases a.len(),
{
    let t = a + rest;
    if a.len() == 0 {
        assert(t == rest);
    } else if t.len() < k.len() {
        assert(replaced(rest, k, v) == rest);
    } else {
        assert(!occurs_at(t, k, 0));
        let a2 = a.drop_first();
        assert(t.drop_first() == a2 + rest);
        assert forall|p: int| 0 <= p < a2.len() implies !occurs_at(a2 + rest, k, p) by {
            if occurs_at(a2 + rest, k, p) {
                assert((a2 + rest).subrange(p, p + k.len()) == t.subrange(p + 1, p + 1 + k.len()));
                assert(occurs_at(t, k, p + 1));
            }
        }
        lemma_replaced_prefix(a2, rest, k, v);
        assert(seq![t[0]] + (a2 + replaced(rest, k, v)) == a + replaced(rest, k, v));
    }
}

/// A placeholder that occurs exactly once in a template is replaced by its
/// value at that very position, and the text around it is kept.
pub proof fn lemma_single_placeholder(a: Seq<char>, k: Seq<char>, v: Seq<char>, b: Seq<char>)
    requires
        k.len() > 0,
        forall|p: int| occurs_at(a + k + b, k, p) ==> p == a.len(),
    ensures
        replaced(a + k + b, k, v) == a + v + b,
{
    let t = a + k + b;
    assert(t == a + (k + b));
    lemma_replaced_prefix(a, k + b, k, v);
    let kb = k + b;
    assert(kb.subrange(0, k.len() as int) == k);
    assert(kb.subrange(k.len() as int, kb.len() as int) == b);
    assert forall|p: int| !occurs_at(b, k, p) by {
        if occurs_at(b, k, p) {
            let q = a.len() + k.len() + p;
            assert(t.subrange(q, q + k.len()) == b.subrange(p, p + k.len()));
            assert(occurs_at(t, k, q));
        }
    }
    lemma_replaced_absent(b, k, v);
    assert(a + (v + b) == a + v + b);
}

/// The text `ps[0] + ws[0] + ps[1] + ws[1] + ... + ps[m]`: fixed pieces with
/// the slots between them filled by `ws`.
pub open spec fn filled(ps: Seq<Seq<char>>, ws: Seq<Seq<char>>) -> Seq<char>
    decreases ws.len(),
{
    if ws.len() == 0 || ps.len() == 0 {
        if ps.len() == 0 {
            Seq::empty()
        } else {
            ps[0]
        }
    } else {
        ps[0] + ws[0] + filled(ps.drop_first(), ws.drop_first())
    }
}

/// What comes before slot `i` in `filled(ps, ws)`.
pub open spec fn before_slot(ps: Seq<Seq<char>>, ws: Seq<Seq<char>>, i: nat) -> Seq<char>
    decreases i,
{
    if i == 0 || ws.len() == 0 || ps.len() == 0 {
        if ps.len() == 0 {
            Seq::empty()
        } else {
            ps[0]
        }
    } else {
        ps[0] + ws[0] + before_slot(ps.drop_first(), ws.drop_first(), (i - 1) as nat)
    }
}

/// The slots after the first `i` substitutions: substitution `n` fills
/// slot `order[n]` with its value, the other slots still hold their keys.
pub open spec fn slots_after(ks: Seq<Seq<char>>, vs: Seq<Seq<char>>, order: Seq<int>, i: nat) -> Seq<
    Seq<char>,
>
    decreases i,
{
    if i == 0 {
        ks
    } else {
        let j = order[i - 1];
        slots_after(ks, vs, order, (i - 1) as nat).update(j, vs[j])
    }
}

proof fn lemma_filled_split(ps: Seq<Seq<char>>, ws: Seq<Seq<char>>, i: nat)
    requires
        ps.len() == ws.len() + 1,
        i < ws.len(),
    ensures
        filled(ps, ws) == before_slot(ps, ws, i) + ws[i as int] + filled(
            ps.subrange(i + 1 as int, ps.len() as int),
            ws.subrange(i + 1 as int, ws.len() as int),
        ),
    decreases i,
{
    if i == 0 {
        assert(ps.drop_first() == ps.subrange(1, ps.len() as int));
        assert(ws.drop_first() == ws.subrange(1, ws.len() as int));
    } else {
        lemma_filled_split(ps.drop_first(), ws.drop_first(), (i - 1) as nat);
        assert(ps.drop_first().subrange(i as int, ps.len() - 1) == ps.subrange(i + 1 as int, ps.len() as int));
        assert(ws.drop_first().subrange(i as int, ws.len() - 1) == ws.subrange(i + 1 as int, ws.len() as int));
    }
}

proof fn lemma_before_slot_update(ps: Seq<Seq<char>>, ws: Seq<Seq<char>>, i: nat, x: Seq<char>)
    requires
        ps.len() == ws.len() + 1,
        i < ws.len(),
    ensures
        before_slot(ps, ws.update(i as int, x), i) == before_slot(ps, ws, i),
    decreases i,
{
    if i > 0 {
        assert(ws.update(i as int, x).drop_first() == ws.drop_first().update(i - 1, x));
        lemma_before_slot_update(ps.drop_first(), ws.drop_first(), (i - 1) as nat, x);
    }
}

/// One of the first `i` substitutions fills slot `j`.
pub open spec fn placed_before(order: Seq<int>, i: int, j: int) -> bool {
    exists|n: int| 0 <= n < i && order[n] == j
}

proof fn lemma_slots_after(ks: Seq<Seq<char>>, vs: Seq<Seq<char>>, order: Seq<int>, i: nat)
    requires
        vs.len() == ks.len(),
        i <= order.len(),
        forall|n: int| 0 <= n < order.len() ==> 0 <= #[trigger] order[n] < ks.len(),
        forall|n: int, m: int| 0 <= n < m < order.len() ==> order[n] != order[m],
    ensures
        slots_after(ks, vs, order, i).len() == ks.len(),
        forall|j: int|
            0 <= j < ks.len() ==> #[trigger] slots_after(ks, vs, order, i)[j] == if placed_before(order, i as int, j) {
                vs[j]
            } else {
                ks[j]
            },
    decreases i,
{
    if i > 0 {
        lemma_slots_after(ks, vs, order, (i - 1) as nat);
        let last = order[i - 1];
        assert forall|j: int| 0 <= j < ks.len() implies #[trigger] slots_after(ks, vs, order, i)[j]
            == if placed_before(order, i as int, j) {
            vs[j]
        } else {
            ks[j]
        } by {
            if j == last {
                assert(order[i - 1] == j);
            } else if placed_before(order, i as int, j) {
                let n = choose|n: int| 0 <= n < i && order[n] == j;
                assert(n < i - 1);
            } else {
                assert(!placed_before(order, i - 1, j));
            }
        }
    }
}

/// A template made of fixed pieces around one placeholder per slot, its
/// slots in any order, is instantiated into the same pieces around the
/// values: substitution `n` fills slot `order[n]`, where `order` puts each
/// slot once. Where at each step the key being replaced occurs only in its
/// own slot, every placeholder is gone and each value stands where its
/// placeholder stood.
pub proof fn lemma_placeholders_filled(
    ps: Seq<Seq<char>>,
    ks: Seq<Seq<char>>,
    vs: Seq<Seq<char>>,
    order: Seq<int>,
    subs: Seq<(String, String)>,
)
    requires
        ps.len() == ks.len() + 1,
        vs.len() == ks.len(),
        order.len() == ks.len(),
        subs.len() == ks.len(),
        forall|n: int| 0 <= n < order.len() ==> 0 <= #[trigger] order[n] < ks.len(),
        forall|n: int, m: int| 0 <= n < m < order.len() ==> order[n] != order[m],
        forall|j: int| 0 <= j < ks.len() ==> #[trigger] placed_before(order, order.len() as int, j),
        forall|n: int|
            0 <= n < subs.len() ==> (#[trigger] subs[n]).0@ == ks[order[n]] && subs[n].1@
                == vs[order[n]],
        forall|j: int| 0 <= j < ks.len() ==> (#[trigger] ks[j]).len() > 0,
        forall|n: nat, p: int|
            n < ks.len() && #[trigger] occurs_at(filled(ps, slots_after(ks, vs, order, n)), ks[order[n as int]], p)
                ==> p == before_slot(ps, slots_after(ks, vs, order, n), order[n as int] as nat).len(),
    ensures
        instantiated(filled(ps, ks), subs) == filled(ps, vs),
{
    lemma_stages(ps, ks, vs, order, subs, ks.len());
    lemma_slots_after(ks, vs, order, ks.len());
    assert(slots_after(ks, vs, order, ks.len()) =~= vs);
    assert(subs.subrange(0, subs.len() as int) == subs);
}

proof fn lemma_stages(
    ps: Seq<Seq<char>>,
    ks: Seq<Seq<char>>,
    vs: Seq<Seq<char>>,
    order: Seq<int>,
    subs: Seq<(String, String)>,
    i: nat,
)
    requires
        ps.len() == ks.len() + 1,
        vs.len() == ks.len(),
        order.len() == ks.len(),
        subs.len() == ks.len(),
        i <= ks.len(),
        forall|n: int| 0 <= n < order.len() ==> 0 <= #[trigger] order[n] < ks.len(),
        forall|n: int, m: int| 0 <= n < m < order.len() ==> order[n] != order[m],
        forall|n: int|
            0 <= n < subs.len() ==> (#[trigger] subs[n]).0@ == ks[order[n]] && subs[n].1@
                == vs[order[n]],
        forall|j: int| 0 <= j < ks.len() ==> (#[trigger] ks[j]).len() > 0,
        forall|n: nat, p: int|
            n < ks.len() && #[trigger] occurs_at(filled(ps, slots_after(ks, vs, order, n)), ks[order[n as int]], p)
                ==> p == before_slot(ps, slots_after(ks, vs, order, n), order[n as int] as nat).len(),
    ensures
        instantiated(filled(ps, ks), subs.subrange(0, i as int)) == filled(
            ps,
            slots_after(ks, vs, order, i),
        ),
    decreases i,
{
    if i == 0 {
        assert(subs.subrange(0, 0).len() == 0);
    } else {
        let n = (i - 1) as nat;
        lemma_stages(ps, ks, vs, order, subs, n);
        assert(subs.subrange(0, i as int).drop_last() == subs.subrange(0, n as int));
        let j = order[n as int];
        let ws = slots_after(ks, vs, order, n);
        lemma_slots_after(ks, vs, order, n);
        assert(!placed_before(order, n as int, j));
        assert(ws[j] == ks[j]);
        let ws2 = ws.update(j, vs[j]);
        assert(slots_after(ks, vs, order, i) == ws2);
        lemma_filled_split(ps, ws, j as nat);
        lemma_filled_split(ps, ws2, j as nat);
        lemma_before_slot_update(ps, ws, j as nat, vs[j]);
        let a = before_slot(ps, ws, j as nat);
        let b = filled(ps.subrange(j + 1, ps.len() as int), ws.subrange(j + 1, ws.len() as int));
        assert(ws2.subrange(j + 1, ws2.len() as int) == ws.subrange(j + 1, ws.len() as int));
        assert(subs[n as int].0@ == ks[j]);
        lemma_single_placeholder(a, ks[j], vs[j], b);
    }
}

} // verus!
