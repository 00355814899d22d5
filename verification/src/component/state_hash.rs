//! The hash of a component's state: its fields are encoded as bytes in
//! the order of their names, so that the hash depends on which names hold
//! which values and not on the order the fields were listed in; the bytes
//! are then hashed with std's `DefaultHasher`.
use vstd::prelude::*;
use crate::component::state_tracking::{StateValue, lemma_entries_view, lemma_values_view, value_view};
use crate::text::{chars_of, views};
use std::collections::hash_map::DefaultHasher;
use std::hash::Hasher;
use vstd::std_specs::hash::DefaultHasherAdditionalSpecFns;

verus! {

/// Names in the order of their characters' codes, compared from the
/// `i`th character on; a proper prefix comes first.
pub open spec fn name_lt_from(a: Seq<char>, b: Seq<char>, i: int) -> bool
    decreases a.len() - i,
{
    if i < 0 || i >= a.len() {
        0 <= i < b.len()
    } else if i >= b.len() {
        false
    } else if a[i] != b[i] {
        (a[i] as u32) < (b[i] as u32)
    } else {
        name_lt_from(a, b, i + 1)
    }
}

/// `a` comes before `b` in the order of character codes (which is the
/// order of their UTF-8 bytes).
pub open spec fn name_lt(a: Seq<char>, b: Seq<char>) -> bool {
    name_lt_from(a, b, 0)
}

/// No name comes before itself.
pub proof fn lemma_name_lt_irreflexive(a: Seq<char>, i: int)
    requires
        0 <= i,
    ensures
        !name_lt_from(a, a, i),
    decreases a.len() - i,
{
    if i < a.len() {
        lemma_name_lt_irreflexive(a, i + 1);
    }
}

/// Of two names at most one comes before the other.
pub proof fn lemma_name_lt_asymmetric(a: Seq<char>, b: Seq<char>, i: int)
    requires
        0 <= i,
    ensures
        !(name_lt_from(a, b, i) && name_lt_from(b, a, i)),
    decreases a.len() - i,
{
    if i < a.len() && i < b.len() && a[i] == b[i] {
        lemma_name_lt_asymmetric(a, b, i + 1);
    }
}

/// The order of names is transitive.
pub proof fn lemma_name_lt_transitive(a: Seq<char>, b: Seq<char>, c: Seq<char>, i: int)
    requires
        0 <= i,
        name_lt_from(a, b, i),
        name_lt_from(b, c, i),
    ensures
        name_lt_from(a, c, i),
    decreases a.len() - i,
{
    if i < a.len() && i < b.len() && i < c.len() && a[i] == b[i] && b[i] == c[i] {
        lemma_name_lt_transitive(a, b, c, i + 1);
    }
}

/// Of two different names one comes before the other.
pub proof fn lemma_name_lt_total(a: Seq<char>, b: Seq<char>, i: int)
    requires
        0 <= i <= a.len(),
        i <= b.len(),
        a.subrange(i, a.len() as int) != b.subrange(i, b.len() as int),
    ensures
        name_lt_from(a, b, i) || name_lt_from(b, a, i),
    decreases a.len() - i,
{
    if i < a.len() && i < b.len() {
        if a[i] == b[i] {
            if a.subrange(i + 1, a.len() as int) == b.subrange(i + 1, b.len() as int) {
                assert(a.subrange(i, a.len() as int) =~= seq![a[i]] + a.subrange(i + 1, a.len() as int));
                assert(b.subrange(i, b.len() as int) =~= seq![b[i]] + b.subrange(i + 1, b.len() as int));
            }
            lemma_name_lt_total(a, b, i + 1);
        } else {
            vstd::utf8::char_u32_cast(a[i], a[i] as u32);
            vstd::utf8::char_u32_cast(b[i], b[i] as u32);
        }
    } else if i >= a.len() && i >= b.len() {
        assert(a.subrange(i, a.len() as int) =~= b.subrange(i, b.len() as int));
    }
}

/// Of two different names one comes before the other.
pub proof fn lemma_name_order(a: Seq<char>, b: Seq<char>)
    ensures
        !name_lt(a, a),
        !(name_lt(a, b) && name_lt(b, a)),
        a != b ==> name_lt(a, b) || name_lt(b, a),
{
    lemma_name_lt_irreflexive(a, 0);
    lemma_name_lt_asymmetric(a, b, 0);
    if a != b {
        assert(a.subrange(0, a.len() as int) =~= a);
        assert(b.subrange(0, b.len() as int) =~= b);
        lemma_name_lt_total(a, b, 0);
    }
}

/// Whether name `a` comes before name `b`.
fn name_less(a: &Vec<char>, b: &Vec<char>) -> (r: bool)
    ensures
        r == name_lt(a@, b@),
{
    let mut i: usize = 0;
    while i < a.len() && i < b.len()
        invariant
            i <= a@.len(),
            i <= b@.len(),
            name_lt(a@, b@) == name_lt_from(a@, b@, i as int),
        decreases a@.len() - i,
    {
        if a[i] != b[i] {
            return (a[i] as u32) < (b[i] as u32);
        }
        i = i + 1;
    }
    i < b.len()
}

/// Among `rem[0..k]`, the position of the first name that no other comes
/// before.
pub open spec fn first_least(names: Seq<Seq<char>>, rem: Seq<int>, k: int) -> int
    decreases k,
{
    if k <= 1 {
        0
    } else {
        let j = first_least(names, rem, k - 1);
        if name_lt(names[rem[k - 1]], names[rem[j]]) {
            k - 1
        } else {
            j
        }
    }
}

/// The first least position lies among the first `k`, and no name there
/// comes before it.
pub proof fn lemma_first_least(names: Seq<Seq<char>>, rem: Seq<int>, k: int)
    requires
        1 <= k,
    ensures
        0 <= first_least(names, rem, k) < k,
        forall|t: int| 0 <= t < k ==> !name_lt(names[rem[t]], names[rem[first_least(names, rem, k)]]),
    decreases k,
{
    if k > 1 {
        lemma_first_least(names, rem, k - 1);
        let j = first_least(names, rem, k - 1);
        let m = first_least(names, rem, k);
        if name_lt(names[rem[k - 1]], names[rem[j]]) {
            assert(m == k - 1);
            assert forall|t: int| 0 <= t < k implies !name_lt(names[rem[t]], names[rem[m]]) by {
                lemma_name_order(names[rem[m]], names[rem[t]]);
                if t < k - 1 {
                    assert(!name_lt(names[rem[t]], names[rem[j]]));
                    if name_lt(names[rem[t]], names[rem[m]]) {
                        lemma_name_lt_transitive(names[rem[t]], names[rem[m]], names[rem[j]], 0);
                    }
                }
            }
        } else {
            assert(m == j);
        }
    } else {
        lemma_name_order(names[rem[0]], names[rem[0]]);
    }
}

/// The positions `rem` in the order of their names: repeatedly the first
/// least name is taken out.
pub open spec fn order_from(names: Seq<Seq<char>>, rem: Seq<int>) -> Seq<int>
    decreases rem.len(),
{
    if rem.len() == 0 {
        Seq::empty()
    } else {
        let m = first_least(names, rem, rem.len() as int);
        proof {
            lemma_first_least(names, rem, rem.len() as int);
        }
        seq![rem[m]] + order_from(names, rem.remove(m))
    }
}

/// The positions `0..n` of `n` names.
pub open spec fn positions(n: nat) -> Seq<int> {
    Seq::new(n, |i: int| i)
}

/// The positions of some names in the order of the names.
pub open spec fn name_order(names: Seq<Seq<char>>) -> Seq<int> {
    order_from(names, positions(names.len()))
}

/// Distinct positions hold distinct names.
pub open spec fn distinct_at(names: Seq<Seq<char>>, rem: Seq<int>) -> bool {
    forall|p: int, q: int| 0 <= p < rem.len() && 0 <= q < rem.len() && p != q ==> names[rem[p]] != names[rem[q]]
}

/// Each name comes before the names after it.
pub open spec fn strictly_sorted_at(names: Seq<Seq<char>>, r: Seq<int>) -> bool {
    forall|p: int, q: int| 0 <= p < q < r.len() ==> name_lt(#[trigger] names[r[p]], #[trigger] names[r[q]])
}

/// Taking the names out in order keeps every position and adds none; where
/// the positions hold distinct names, the names come out strictly sorted.
pub proof fn lemma_order_from(names: Seq<Seq<char>>, rem: Seq<int>)
    ensures
        order_from(names, rem).len() == rem.len(),
        forall|x: int| order_from(names, rem).contains(x) <==> rem.contains(x),
        distinct_at(names, rem) ==> strictly_sorted_at(names, order_from(names, rem)),
    decreases rem.len(),
{
    if rem.len() > 0 {
        let m = first_least(names, rem, rem.len() as int);
        lemma_first_least(names, rem, rem.len() as int);
        let rest = rem.remove(m);
        lemma_order_from(names, rest);
        let r = order_from(names, rem);
        let tail = order_from(names, rest);
        assert(r == seq![rem[m]] + tail);
        assert forall|x: int| r.contains(x) <==> rem.contains(x) by {
            if r.contains(x) {
                let k = choose|k: int| 0 <= k < r.len() && r[k] == x;
                if k > 0 {
                    assert(tail[k - 1] == x);
                    assert(tail.contains(x));
                    assert(rest.contains(x));
                    let t = choose|t: int| 0 <= t < rest.len() && rest[t] == x;
                    if t < m {
                        assert(rem[t] == x);
                    } else {
                        assert(rem[t + 1] == x);
                    }
                } else {
                    assert(rem[m] == x);
                }
            }
            if rem.contains(x) {
                let t = choose|t: int| 0 <= t < rem.len() && rem[t] == x;
                if x == rem[m] {
                    assert(r[0] == x);
                } else {
                    if t < m {
                        assert(rest[t] == x);
                    } else {
                        assert(t != m);
                        assert(rest[t - 1] == x);
                    }
                    assert(rest.contains(x));
                    assert(tail.contains(x));
                    let k = choose|k: int| 0 <= k < tail.len() && tail[k] == x;
                    assert(r[k + 1] == x);
                }
            }
        }
        if distinct_at(names, rem) {
            assert(distinct_at(names, rest)) by {
                assert forall|p: int, q: int| 0 <= p < rest.len() && 0 <= q < rest.len() && p != q implies names[rest[p]]
                    != names[rest[q]] by {
                    let pp = if p < m { p } else { p + 1 };
                    let qq = if q < m { q } else { q + 1 };
                    assert(rest[p] == rem[pp]);
                    assert(rest[q] == rem[qq]);
                }
            }
            assert forall|p: int, q: int| 0 <= p < q < r.len() implies name_lt(#[trigger] names[r[p]], #[trigger] names[r[q]]) by {
                if p == 0 {
                    assert(r[q] == tail[q - 1]);
                    assert(tail.contains(r[q]));
                    assert(rest.contains(r[q]));
                    let t = choose|t: int| 0 <= t < rest.len() && rest[t] == r[q];
                    let tt = if t < m { t } else { t + 1 };
                    assert(rem[tt] == r[q]);
                    assert(tt != m);
                    assert(names[rem[tt]] != names[rem[m]]);
                    assert(!name_lt(names[rem[tt]], names[rem[m]]));
                    lemma_name_order(names[rem[m]], names[rem[tt]]);
                } else {
                    assert(r[p] == tail[p - 1]);
                    assert(r[q] == tail[q - 1]);
                }
            }
        }
    }
}

/// Positions held by a list of indices.
pub open spec fn as_ints(v: Seq<usize>) -> Seq<int> {
    v.map_values(|i: usize| i as int)
}

/// The position of the first least name among `rem`.
fn first_least_position(names: &Vec<Vec<char>>, rem: &Vec<usize>) -> (r: usize)
    requires
        rem@.len() > 0,
        forall|t: int| 0 <= t < rem@.len() ==> rem@[t] < names@.len(),
    ensures
        r == first_least(views(names@), as_ints(rem@), rem@.len() as int),
        r < rem@.len(),
{
    let ghost ns = views(names@);
    let ghost rs = as_ints(rem@);
    let mut best: usize = 0;
    let mut t: usize = 1;
    while t < rem.len()
        invariant
            1 <= t <= rem@.len(),
            forall|u: int| 0 <= u < rem@.len() ==> rem@[u] < names@.len(),
            ns == views(names@),
            rs == as_ints(rem@),
            best == first_least(ns, rs, t as int),
            best < t,
        decreases rem@.len() - t,
    {
        let less = name_less(&names[rem[t]], &names[rem[best]]);
        proof {
            assert(rs[t as int] == rem@[t as int] as int);
            assert(rs[best as int] == rem@[best as int] as int);
            assert(ns[rs[t as int]] == names@[rem@[t as int] as int]@);
            assert(ns[rs[best as int]] == names@[rem@[best as int] as int]@);
        }
        if less {
            best = t;
        }
        t = t + 1;
    }
    best
}

/// The positions of the names in the order of the names (`name_order`).
pub fn order_of_names(names: &Vec<Vec<char>>) -> (r: Vec<usize>)
    ensures
        as_ints(r@) == name_order(views(names@)),
        forall|t: int| 0 <= t < r@.len() ==> r@[t] < names@.len(),
{
    let ghost ns = views(names@);
    let mut rem: Vec<usize> = Vec::new();
    let mut i: usize = 0;
    while i < names.len()
        invariant
            i <= names@.len(),
            as_ints(rem@) == positions(i as nat),
            rem@.len() == i,
        decreases names@.len() - i,
    {
        let ghost before = as_ints(rem@);
        rem.push(i);
        assert(as_ints(rem@) =~= before.push(i as int));
        assert(positions((i + 1) as nat) =~= positions(i as nat).push(i as int));
        i = i + 1;
    }
    assert(ns.len() == names@.len());
    assert forall|t: int| 0 <= t < rem@.len() implies rem@[t] < names@.len() by {
        assert(as_ints(rem@)[t] == rem@[t] as int);
    }
    let mut out: Vec<usize> = Vec::new();
    while rem.len() > 0
        invariant
            ns == views(names@),
            forall|t: int| 0 <= t < rem@.len() ==> rem@[t] < names@.len(),
            forall|t: int| 0 <= t < out@.len() ==> out@[t] < names@.len(),
            as_ints(out@) + order_from(ns, as_ints(rem@)) == name_order(ns),
        decreases rem@.len(),
    {
        let m = first_least_position(names, &rem);
        let ghost rs = as_ints(rem@);
        let ghost before = as_ints(out@);
        let x = rem[m];
        out.push(x);
        rem.remove(m);
        proof {
            assert(as_ints(rem@) =~= rs.remove(m as int));
            assert(order_from(ns, rs) == seq![rs[m as int]] + order_from(ns, rs.remove(m as int)));
            assert(as_ints(out@) =~= before.push(x as int));
            assert(as_ints(out@) + order_from(ns, as_ints(rem@)) =~= before + order_from(ns, rs));
        }
    }
    out
}

/// No name occurs twice among the fields.
pub open spec fn distinct_names(fs: Seq<(String, StateValue)>) -> bool {
    forall|i: int, j: int| 0 <= i < j < fs.len() ==> fs[i].0@ != fs[j].0@
}

/// One of the fields has the given name and value.
pub open spec fn has_field(fs: Seq<(String, StateValue)>, p: (Seq<char>, StateValue)) -> bool {
    exists|i: int| 0 <= i < fs.len() && (fs[i].0@, fs[i].1) == p
}

/// The fields as (name, value) pairs in the order of their names.
pub open spec fn sorted_fields(fs: Seq<(String, StateValue)>) -> Seq<(Seq<char>, StateValue)> {
    let ord = name_order(names_of(fs));
    Seq::new(ord.len(), |r: int| (fs[ord[r]].0@, fs[ord[r]].1))
}

/// Each pair's name comes before the names of the pairs after it.
pub open spec fn pairs_sorted(ps: Seq<(Seq<char>, StateValue)>) -> bool {
    forall|p: int, q: int| 0 <= p < q < ps.len() ==> name_lt(#[trigger] ps[p].0, #[trigger] ps[q].0)
}

/// The bytes of the first `k` (name, value) pairs.
pub open spec fn pairs_bytes(ps: Seq<(Seq<char>, StateValue)>, k: int) -> Seq<u8>
    decreases k,
{
    if k <= 0 || k > ps.len() {
        Seq::empty()
    } else {
        pairs_bytes(ps, k - 1) + (str_bytes(ps[k - 1].0) + value_bytes(ps[k - 1].1))
    }
}

/// The name order of fields with distinct names is a strictly sorted
/// arrangement of exactly their (name, value) pairs, and their bytes are
/// those of that arrangement.
proof fn lemma_sorted_fields(fs: Seq<(String, StateValue)>)
    requires
        distinct_names(fs),
    ensures
        sorted_fields(fs).len() == fs.len(),
        pairs_sorted(sorted_fields(fs)),
        forall|p: (Seq<char>, StateValue)| sorted_fields(fs).contains(p) <==> has_field(fs, p),
        fields_bytes(fs) == pairs_bytes(sorted_fields(fs), fs.len() as int),
{
    let names = names_of(fs);
    let pos = positions(fs.len());
    let ord = name_order(names);
    let sf = sorted_fields(fs);
    lemma_order_from(names, pos);
    assert(distinct_at(names, pos)) by {
        assert forall|p: int, q: int| 0 <= p < pos.len() && 0 <= q < pos.len() && p != q implies names[pos[p]]
            != names[pos[q]] by {
            if p < q {
                assert(fs[p].0@ != fs[q].0@);
            } else {
                assert(fs[q].0@ != fs[p].0@);
            }
        }
    }
    assert forall|r: int| 0 <= r < ord.len() implies 0 <= #[trigger] ord[r] < fs.len() by {
        assert(ord.contains(ord[r]));
        assert(pos.contains(ord[r]));
    }
    assert forall|p: int, q: int| 0 <= p < q < sf.len() implies name_lt(#[trigger] sf[p].0, #[trigger] sf[q].0) by {
        assert(name_lt(names[ord[p]], names[ord[q]]));
    }
    assert forall|pr: (Seq<char>, StateValue)| sf.contains(pr) <==> has_field(fs, pr) by {
        if sf.contains(pr) {
            let r = choose|r: int| 0 <= r < sf.len() && sf[r] == pr;
            let i = ord[r];
            assert(0 <= i < fs.len() && (fs[i].0@, fs[i].1) == pr);
        }
        if has_field(fs, pr) {
            let i = choose|i: int| 0 <= i < fs.len() && (fs[i].0@, fs[i].1) == pr;
            assert(pos[i] == i);
            assert(pos.contains(i));
            assert(ord.contains(i));
            let r = choose|r: int| 0 <= r < ord.len() && ord[r] == i;
            assert(sf[r] == pr);
        }
    }
    assert forall|k: int| 0 <= k <= fs.len() implies entries_bytes(fs, ord, k) == pairs_bytes(sf, k) by {
        lemma_entries_pairs(fs, ord, sf, k);
    }
}

/// The bytes of fields taken in a given order are those of their pairs in
/// that order.
proof fn lemma_entries_pairs(
    fs: Seq<(String, StateValue)>,
    ord: Seq<int>,
    sf: Seq<(Seq<char>, StateValue)>,
    k: int,
)
    requires
        0 <= k <= ord.len(),
        sf.len() == ord.len(),
        forall|r: int| 0 <= r < ord.len() ==> 0 <= #[trigger] ord[r] < fs.len(),
        forall|r: int| 0 <= r < ord.len() ==> #[trigger] sf[r] == (fs[ord[r]].0@, fs[ord[r]].1),
    ensures
        entries_bytes(fs, ord, k) == pairs_bytes(sf, k),
    decreases k,
{
    if k > 0 {
        lemma_entries_pairs(fs, ord, sf, k - 1);
        assert(0 <= ord[k - 1] < fs.len());
        assert(sf[k - 1] == (fs[ord[k - 1]].0@, fs[ord[k - 1]].1));
    }
}

/// Two strictly sorted arrangements of the same pairs are the same.
proof fn lemma_same_sorted(s1: Seq<(Seq<char>, StateValue)>, s2: Seq<(Seq<char>, StateValue)>)
    requires
        s1.len() == s2.len(),
        pairs_sorted(s1),
        pairs_sorted(s2),
        forall|p: (Seq<char>, StateValue)| s1.contains(p) <==> s2.contains(p),
    ensures
        s1 == s2,
    decreases s1.len(),
{
    if s1.len() == 0 {
        assert(s1 =~= s2);
    } else {
        assert(s1.contains(s1[0]));
        assert(s2.contains(s2[0]));
        let j = choose|j: int| 0 <= j < s2.len() && s2[j] == s1[0];
        let i = choose|i: int| 0 <= i < s1.len() && s1[i] == s2[0];
        if j > 0 {
            assert(name_lt(s2[0].0, s2[j].0));
            if i > 0 {
                assert(name_lt(s1[0].0, s1[i].0));
                lemma_name_order(s1[0].0, s2[0].0);
            } else {
                lemma_name_order(s2[0].0, s2[0].0);
            }
        }
        assert(s1[0] == s2[0]);
        let t1 = s1.drop_first();
        let t2 = s2.drop_first();
        assert forall|p: (Seq<char>, StateValue)| t1.contains(p) <==> t2.contains(p) by {
            if t1.contains(p) {
                let k = choose|k: int| 0 <= k < t1.len() && t1[k] == p;
                assert(s1[k + 1] == p);
                assert(name_lt(s1[0].0, s1[k + 1].0));
                lemma_name_order(s1[0].0, s1[0].0);
                assert(s2.contains(p));
                let l = choose|l: int| 0 <= l < s2.len() && s2[l] == p;
                assert(l != 0);
                assert(t2[l - 1] == p);
            }
            if t2.contains(p) {
                let k = choose|k: int| 0 <= k < t2.len() && t2[k] == p;
                assert(s2[k + 1] == p);
                assert(name_lt(s2[0].0, s2[k + 1].0));
                lemma_name_order(s2[0].0, s2[0].0);
                assert(s1.contains(p));
                let l = choose|l: int| 0 <= l < s1.len() && s1[l] == p;
                assert(l != 0);
                assert(t1[l - 1] == p);
            }
        }
        assert(pairs_sorted(t1)) by {
            assert forall|p: int, q: int| 0 <= p < q < t1.len() implies name_lt(#[trigger] t1[p].0, #[trigger] t1[q].0) by {
                assert(name_lt(s1[p + 1].0, s1[q + 1].0));
            }
        }
        assert(pairs_sorted(t2)) by {
            assert forall|p: int, q: int| 0 <= p < q < t2.len() implies name_lt(#[trigger] t2[p].0, #[trigger] t2[q].0) by {
                assert(name_lt(s2[p + 1].0, s2[q + 1].0));
            }
        }
        lemma_same_sorted(t1, t2);
        assert(s1 =~= seq![s1[0]] + t1);
        assert(s2 =~= seq![s2[0]] + t2);
    }
}

/// The hash of a component's state does not depend on the order its fields
/// are listed in: two lists of fields with distinct names, holding the same
/// names with the same values, give the same bytes and so the same hash.
pub proof fn law_field_order_irrelevant(a: Seq<(String, StateValue)>, b: Seq<(String, StateValue)>)
    requires
        distinct_names(a),
        distinct_names(b),
        a.len() == b.len(),
        forall|i: int| 0 <= i < a.len() ==> has_field(b, (a[i].0@, a[i].1)),
        forall|j: int| 0 <= j < b.len() ==> has_field(a, (b[j].0@, b[j].1)),
    ensures
        fields_bytes(a) == fields_bytes(b),
        default_hash_of(fields_bytes(a)) == default_hash_of(fields_bytes(b)),
{
    lemma_sorted_fields(a);
    lemma_sorted_fields(b);
    assert forall|p: (Seq<char>, StateValue)| has_field(a, p) <==> has_field(b, p) by {
        if has_field(a, p) {
            let i = choose|i: int| 0 <= i < a.len() && (a[i].0@, a[i].1) == p;
            assert(has_field(b, (a[i].0@, a[i].1)));
        }
        if has_field(b, p) {
            let j = choose|j: int| 0 <= j < b.len() && (b[j].0@, b[j].1) == p;
            assert(has_field(a, (b[j].0@, b[j].1)));
        }
    }
    assert forall|p: (Seq<char>, StateValue)| sorted_fields(a).contains(p) <==> sorted_fields(b).contains(p) by {
        assert(sorted_fields(a).contains(p) <==> has_field(a, p));
        assert(sorted_fields(b).contains(p) <==> has_field(b, p));
    }
    lemma_same_sorted(sorted_fields(a), sorted_fields(b));
}

/// The low `n` bytes of `x`, least significant first.
pub open spec fn le_bytes(x: nat, n: nat) -> Seq<u8>
    decreases n,
{
    if n == 0 {
        Seq::empty()
    } else {
        seq![(x % 256) as u8] + le_bytes(x / 256, (n - 1) as nat)
    }
}

/// The bytes of a name: its UTF-8 bytes and a closing `0xff`.
pub open spec fn str_bytes(s: Seq<char>) -> Seq<u8> {
    vstd::utf8::encode_utf8(s) + seq![0xffu8]
}

/// The names of some fields.
pub open spec fn names_of(fs: Seq<(String, StateValue)>) -> Seq<Seq<char>> {
    fs.map_values(|e: (String, StateValue)| e.0@)
}

/// The bytes of a value: a tag for its kind, then its contents; a list
/// gives its length and its items; an object gives its fields in the order
/// of their names.
pub open spec fn value_bytes(v: StateValue) -> Seq<u8>
    decreases v, 0nat,
{
    match v {
        StateValue::Text(s) => seq![0u8] + str_bytes(s@),
        StateValue::Integer(i) => seq![1u8] + le_bytes((i as u64) as nat, 8),
        StateValue::Float(b) => seq![2u8] + le_bytes(b as nat, 8),
        StateValue::Boolean(b) => seq![3u8, if b { 1u8 } else { 0u8 }],
        StateValue::Array(xs) => seq![4u8] + le_bytes(xs@.len(), 8) + items_bytes(xs@, xs@.len() as int),
        StateValue::Object(fs) => seq![5u8] + fields_bytes(fs@),
        StateValue::Null => seq![6u8],
    }
}

/// The bytes of the first `k` items of a list.
pub open spec fn items_bytes(xs: Seq<StateValue>, k: int) -> Seq<u8>
    decreases xs, k,
{
    if k <= 0 || k > xs.len() {
        Seq::empty()
    } else {
        items_bytes(xs, k - 1) + value_bytes(xs[k - 1])
    }
}

/// The bytes of the fields at the first `k` positions of `ord`: each
/// field's name, then its value.
pub open spec fn entries_bytes(fs: Seq<(String, StateValue)>, ord: Seq<int>, k: int) -> Seq<u8>
    decreases fs, k,
{
    if k <= 0 || k > ord.len() {
        Seq::empty()
    } else {
        let i = ord[k - 1];
        entries_bytes(fs, ord, k - 1) + if 0 <= i < fs.len() {
            str_bytes(fs[i].0@) + value_bytes(fs[i].1)
        } else {
            Seq::empty()
        }
    }
}

/// The bytes of some fields, in the order of their names.
pub open spec fn fields_bytes(fs: Seq<(String, StateValue)>) -> Seq<u8>
    decreases fs, fs.len() + 1,
{
    entries_bytes(fs, name_order(names_of(fs)), fs.len() as int)
}

/// Values with the same contents give the same bytes.
pub proof fn lemma_view_bytes(a: StateValue, b: StateValue)
    requires
        value_view(a) == value_view(b),
    ensures
        value_bytes(a) == value_bytes(b),
    decreases a, 0nat,
{
    match a {
        StateValue::Array(xs) => {
            if let StateValue::Array(ys) = b {
                lemma_values_view(xs@, xs@.len() as int);
                lemma_values_view(ys@, ys@.len() as int);
                assert forall|j: int| 0 <= j < xs@.len() implies value_view(#[trigger] xs@[j]) == value_view(ys@[j]) by {
                    assert(value_view(xs@[j]) == crate::component::state_tracking::values_view(xs@, xs@.len() as int)[j]);
                }
                lemma_view_items(xs@, ys@, xs@.len() as int);
            }
        },
        StateValue::Object(fs) => {
            if let StateValue::Object(gs) = b {
                lemma_entries_view(fs@, fs@.len() as int);
                lemma_entries_view(gs@, gs@.len() as int);
                assert forall|j: int| 0 <= j < fs@.len() implies fs@[j].0@ == gs@[j].0@ && value_view(
                    #[trigger] fs@[j].1,
                ) == value_view(gs@[j].1) by {
                    assert(crate::component::state_tracking::entries_view(fs@, fs@.len() as int)[j] == (
                    fs@[j].0@, value_view(fs@[j].1)));
                }
                lemma_view_fields(fs@, gs@);
            }
        },
        _ => {},
    }
}

/// Lists of values with the same contents give the same bytes for their
/// first `k` items.
proof fn lemma_view_items(xs: Seq<StateValue>, ys: Seq<StateValue>, k: int)
    requires
        xs.len() == ys.len(),
        forall|j: int| 0 <= j < xs.len() ==> value_view(#[trigger] xs[j]) == value_view(ys[j]),
        0 <= k <= xs.len(),
    ensures
        items_bytes(xs, k) == items_bytes(ys, k),
    decreases xs, k,
{
    if k > 0 {
        lemma_view_items(xs, ys, k - 1);
        lemma_view_bytes(xs[k - 1], ys[k - 1]);
    }
}

/// Fields with the same names and contents give the same bytes.
proof fn lemma_view_fields(fs: Seq<(String, StateValue)>, gs: Seq<(String, StateValue)>)
    requires
        fs.len() == gs.len(),
        forall|j: int| 0 <= j < fs.len() ==> fs[j].0@ == gs[j].0@ && value_view(#[trigger] fs[j].1) == value_view(gs[j].1),
    ensures
        fields_bytes(fs) == fields_bytes(gs),
    decreases fs, fs.len() + 1,
{
    assert forall|j: int| 0 <= j < fs.len() implies #[trigger] names_of(fs)[j] == names_of(gs)[j] by {
        assert(value_view(fs[j].1) == value_view(gs[j].1));
    }
    assert(names_of(fs) =~= names_of(gs));
    let ord = name_order(names_of(fs));
    lemma_view_entries(fs, gs, ord, fs.len() as int);
}

/// Fields with the same names and contents give the same bytes at the
/// first `k` positions of `ord`.
proof fn lemma_view_entries(fs: Seq<(String, StateValue)>, gs: Seq<(String, StateValue)>, ord: Seq<int>, k: int)
    requires
        fs.len() == gs.len(),
        forall|j: int| 0 <= j < fs.len() ==> fs[j].0@ == gs[j].0@ && value_view(#[trigger] fs[j].1) == value_view(gs[j].1),
    ensures
        entries_bytes(fs, ord, k) == entries_bytes(gs, ord, k),
    decreases fs, k,
{
    if 0 < k <= ord.len() {
        lemma_view_entries(fs, gs, ord, k - 1);
        let i = ord[k - 1];
        if 0 <= i < fs.len() {
            lemma_view_bytes(fs[i].1, gs[i].1);
        }
    }
}

/// Equal states give equal hashes: field lists with the same names and the
/// same contents, field by field, give the same bytes and so the same
/// hash.
pub proof fn law_equal_states_hash_equal(a: Seq<(String, StateValue)>, b: Seq<(String, StateValue)>)
    requires
        a.len() == b.len(),
        forall|j: int| 0 <= j < a.len() ==> a[j].0@ == b[j].0@ && value_view(#[trigger] a[j].1) == value_view(b[j].1),
    ensures
        fields_bytes(a) == fields_bytes(b),
        default_hash_of(fields_bytes(a)) == default_hash_of(fields_bytes(b)),
{
    lemma_view_fields(a, b);
}

/// Appends the low eight bytes of `x`, least significant first.
fn push_le(out: &mut Vec<u8>, x: u64)
    ensures
        final(out)@ == old(out)@ + le_bytes(x as nat, 8),
{
    let mut rest: u64 = x;
    let mut k: usize = 0;
    while k < 8
        invariant
            k <= 8,
            out@ + le_bytes(rest as nat, (8 - k) as nat) == old(out)@ + le_bytes(x as nat, 8),
        decreases 8 - k,
    {
        let ghost before = out@;
        out.push((rest % 256) as u8);
        proof {
            assert(le_bytes(rest as nat, (8 - k) as nat) == seq![(rest as nat % 256) as u8] + le_bytes(
                (rest as nat) / 256,
                (8 - k - 1) as nat,
            ));
            assert(out@ + le_bytes((rest / 256) as nat, (8 - k - 1) as nat) =~= before + le_bytes(
                rest as nat,
                (8 - k) as nat,
            ));
        }
        rest = rest / 256;
        k = k + 1;
    }
    assert(out@ =~= out@ + le_bytes(rest as nat, 0));
}

/// Appends the bytes of a name.
fn push_str_bytes(out: &mut Vec<u8>, s: &String)
    ensures
        final(out)@ == old(out)@ + str_bytes(s@),
{
    let bs = s.as_str().as_bytes();
    let mut i: usize = 0;
    while i < bs.len()
        invariant
            i <= bs@.len(),
            bs@ == vstd::utf8::encode_utf8(s@),
            out@ == old(out)@ + bs@.subrange(0, i as int),
        decreases bs@.len() - i,
    {
        out.push(bs[i]);
        assert(out@ =~= old(out)@ + bs@.subrange(0, i + 1));
        i = i + 1;
    }
    out.push(0xffu8);
    assert(out@ =~= old(out)@ + str_bytes(s@));
}

/// Appends the bytes of a value (`value_bytes`).
pub fn push_value_bytes(out: &mut Vec<u8>, v: &StateValue)
    ensures
        final(out)@ == old(out)@ + value_bytes(*v),
    decreases *v, 0nat,
{
    match v {
        StateValue::Text(s) => {
            out.push(0u8);
            push_str_bytes(out, s);
            assert(out@ =~= old(out)@ + value_bytes(*v));
        },
        StateValue::Integer(i) => {
            out.push(1u8);
            push_le(out, *i as u64);
            assert(out@ =~= old(out)@ + value_bytes(*v));
        },
        StateValue::Float(b) => {
            out.push(2u8);
            push_le(out, *b);
            assert(out@ =~= old(out)@ + value_bytes(*v));
        },
        StateValue::Boolean(b) => {
            out.push(3u8);
            out.push(if *b { 1u8 } else { 0u8 });
            assert(out@ =~= old(out)@ + value_bytes(*v));
        },
        StateValue::Array(xs) => {
            out.push(4u8);
            push_le(out, xs.len() as u64);
            let ghost head = out@;
            let mut i: usize = 0;
            while i < xs.len()
                invariant
                    i <= xs@.len(),
                    *v == StateValue::Array(*xs),
                    out@ == head + items_bytes(xs@, i as int),
                decreases xs@.len() - i,
            {
                proof {
                    assert(decreases_to!(*xs => xs[i as int]));
                    assert(decreases_to!(*v => (*v)->Array_0));
                }
                push_value_bytes(out, &xs[i]);
                assert(out@ =~= head + items_bytes(xs@, i + 1));
                i = i + 1;
            }
            assert(out@ =~= old(out)@ + value_bytes(*v));
        },
        StateValue::Object(fs) => {
            out.push(5u8);
            proof {
                assert(decreases_to!(*v => (*v)->Object_0));
            }
            push_fields_bytes(out, fs);
            assert(out@ =~= old(out)@ + value_bytes(*v));
        },
        StateValue::Null => {
            out.push(6u8);
            assert(out@ =~= old(out)@ + value_bytes(*v));
        },
    }
}

/// Appends the bytes of some fields, in the order of their names
/// (`fields_bytes`).
pub fn push_fields_bytes(out: &mut Vec<u8>, fs: &Vec<(String, StateValue)>)
    ensures
        final(out)@ == old(out)@ + fields_bytes(fs@),
    decreases *fs, fs@.len() + 1,
{
    let mut names: Vec<Vec<char>> = Vec::new();
    let mut j: usize = 0;
    while j < fs.len()
        invariant
            j <= fs@.len(),
            views(names@) == names_of(fs@).subrange(0, j as int),
        decreases fs@.len() - j,
    {
        let c = chars_of(fs[j].0.as_str());
        let ghost before = views(names@);
        assert(c@ == names_of(fs@)[j as int]);
        names.push(c);
        assert(views(names@) =~= before.push(c@));
        assert(views(names@) =~= names_of(fs@).subrange(0, j + 1));
        j = j + 1;
    }
    assert(views(names@) =~= names_of(fs@));
    let ord = order_of_names(&names);
    let ghost ordi = as_ints(ord@);
    proof {
        lemma_order_from(names_of(fs@), positions(fs@.len()));
        assert(ordi.len() == fs@.len());
    }
    let ghost head = out@;
    let mut r: usize = 0;
    while r < ord.len()
        invariant
            r <= ord@.len(),
            ord@.len() == fs@.len(),
            ordi == as_ints(ord@),
            ordi == name_order(names_of(fs@)),
            forall|t: int| 0 <= t < ord@.len() ==> ord@[t] < fs@.len(),
            out@ == head + entries_bytes(fs@, ordi, r as int),
        decreases ord@.len() - r,
    {
        let i = ord[r];
        assert(ordi[r as int] == i as int);
        push_str_bytes(out, &fs[i].0);
        proof {
            assert(decreases_to!(*fs => fs@[i as int]));
            assert(decreases_to!(fs@[i as int] => fs@[i as int].1));
        }
        push_value_bytes(out, &fs[i].1);
        assert(out@ =~= head + entries_bytes(fs@, ordi, r + 1));
        r = r + 1;
    }
    assert(out@ =~= old(out)@ + fields_bytes(fs@));
}

/// What std's `DefaultHasher` gives for some bytes written in one piece
/// into a new hasher.
pub open spec fn default_hash_of(bytes: Seq<u8>) -> u64 {
    DefaultHasher::spec_finish(seq![bytes])
}

/// The hash of some state fields: the hash of their bytes, in the order of
/// their names.
pub fn state_hash(fields: &Vec<(String, StateValue)>) -> (r: u64)
    ensures
        r == default_hash_of(fields_bytes(fields@)),
{
    let mut bytes: Vec<u8> = Vec::new();
    push_fields_bytes(&mut bytes, fields);
    assert(bytes@ =~= fields_bytes(fields@));
    let mut hasher = DefaultHasher::new();
    hasher.write(bytes.as_slice());
    assert(hasher@ =~= seq![fields_bytes(fields@)]);
    hasher.finish()
}

} // verus!
