//! Canonical form of a structured value: object members sorted by key
//! (byte-lexicographically) with duplicate keys collapsed — the later
//! occurrence wins, as insertion into a key-ordered map gives — at every
//! nesting level. Rendering the canonical form makes normalized output a
//! function of the JSON value, not of member order in the source bytes.

use vstd::prelude::*;

use crate::value::{view_arr, view_obj, lemma_view_arr, lemma_view_obj, JVal, JsonValue, copy_bytes};

verus! {

broadcast use vstd::std_specs::vec::group_vec_axioms, vstd::seq::axiom_seq_index_decreases;

/// Strict byte-lexicographic order, compared from position `i` on: a
/// proper prefix comes first, otherwise the first differing byte
/// decides.
pub open spec fn lex_lt_from(a: Seq<u8>, b: Seq<u8>, i: int) -> bool
    decreases a.len() - i,
{
    if i >= a.len() {
        i < b.len()
    } else if i >= b.len() {
        false
    } else if a[i] < b[i] {
        true
    } else if b[i] < a[i] {
        false
    } else {
        lex_lt_from(a, b, i + 1)
    }
}

/// Strict byte-lexicographic order on whole byte strings.
pub open spec fn lex_lt(a: Seq<u8>, b: Seq<u8>) -> bool {
    lex_lt_from(a, b, 0)
}

/// The order is total and asymmetric: two byte strings are equal or
/// exactly one comes first.
pub proof fn lemma_lex_total_from(a: Seq<u8>, b: Seq<u8>, i: int)
    requires
        0 <= i <= a.len(),
        i <= b.len(),
        forall|j: int| 0 <= j < i ==> a[j] == b[j],
    ensures
        a == b || lex_lt_from(a, b, i) || lex_lt_from(b, a, i),
        !(lex_lt_from(a, b, i) && lex_lt_from(b, a, i)),
    decreases a.len() - i,
{
    if i >= a.len() {
        if i >= b.len() {
            assert(a =~= b);
        }
    } else if i >= b.len() {
    } else if a[i] < b[i] {
    } else if b[i] < a[i] {
    } else {
        lemma_lex_total_from(a, b, i + 1);
    }
}

/// Compare two byte strings from position `i` on.
fn lt_bytes_from(a: &[u8], b: &[u8], i: usize) -> (r: bool)
    requires
        i <= a@.len(),
        i <= b@.len(),
    ensures
        r == lex_lt_from(a@, b@, i as int),
    decreases a@.len() - i,
{
    if i >= a.len() {
        i < b.len()
    } else if i >= b.len() {
        false
    } else if a[i] < b[i] {
        true
    } else if b[i] < a[i] {
        false
    } else {
        lt_bytes_from(a, b, i + 1)
    }
}

/// Whether `a` comes strictly before `b` in byte-lexicographic order.
pub fn lex_lt_bytes(a: &[u8], b: &[u8]) -> (r: bool)
    ensures
        r == lex_lt(a@, b@),
{
    lt_bytes_from(a, b, 0)
}

/// Insert a member into a key-sorted, key-unique member list: an equal
/// key is replaced in place (the inserted member wins), otherwise the
/// member lands just before the first larger key.
pub open spec fn sp_insert_member(m: Seq<(Seq<u8>, JVal)>, kv: (Seq<u8>, JVal)) -> Seq<
    (Seq<u8>, JVal),
>
    decreases m.len(),
{
    if m.len() == 0 {
        seq![kv]
    } else if kv.0 == m[0].0 {
        seq![kv] + m.drop_first()
    } else if lex_lt(kv.0, m[0].0) {
        seq![kv] + m
    } else {
        seq![m[0]] + sp_insert_member(m.drop_first(), kv)
    }
}

/// Members sorted by key with duplicates collapsed: members are
/// inserted left to right, so for a repeated key the last occurrence
/// wins.
pub open spec fn sp_sort_unique(m: Seq<(Seq<u8>, JVal)>) -> Seq<(Seq<u8>, JVal)>
    decreases m.len(),
{
    if m.len() == 0 {
        Seq::empty()
    } else {
        sp_insert_member(sp_sort_unique(m.drop_last()), m.last())
    }
}

/// The canonical form of a value: scalars unchanged, list elements
/// canonicalized in place, object members canonicalized and then
/// key-sorted with duplicates collapsed.
pub open spec fn sp_canon(v: JVal) -> JVal
    decreases v,
{
    match v {
        JVal::Arr(items) => JVal::Arr(sp_canon_items(items)),
        JVal::Obj(m) => JVal::Obj(sp_sort_unique(sp_canon_vals(m))),
        _ => v,
    }
}

/// Each list element in canonical form.
pub open spec fn sp_canon_items(s: Seq<JVal>) -> Seq<JVal>
    decreases s,
{
    if s.len() == 0 {
        Seq::empty()
    } else {
        seq![sp_canon(s[0])] + sp_canon_items(s.drop_first())
    }
}

/// Each member's value in canonical form, order untouched.
pub open spec fn sp_canon_vals(m: Seq<(Seq<u8>, JVal)>) -> Seq<(Seq<u8>, JVal)>
    decreases m,
{
    if m.len() == 0 {
        Seq::empty()
    } else {
        seq![(m[0].0, sp_canon(m[0].1))] + sp_canon_vals(m.drop_first())
    }
}

/// Canonical list elements, element by element.
pub proof fn lemma_canon_items(s: Seq<JVal>)
    ensures
        sp_canon_items(s).len() == s.len(),
        forall|i: int| 0 <= i < s.len() ==> sp_canon_items(s)[i] == sp_canon(s[i]),
    decreases s.len(),
{
    if s.len() > 0 {
        lemma_canon_items(s.drop_first());
        assert forall|i: int| 0 <= i < s.len() implies sp_canon_items(s)[i] == sp_canon(s[i]) by {
            if i > 0 {
                assert(sp_canon_items(s)[i] == sp_canon_items(s.drop_first())[i - 1]);
                assert(s.drop_first()[i - 1] == s[i]);
            }
        }
    }
}

/// Canonical member values, member by member.
pub proof fn lemma_canon_vals(m: Seq<(Seq<u8>, JVal)>)
    ensures
        sp_canon_vals(m).len() == m.len(),
        forall|i: int|
            0 <= i < m.len() ==> sp_canon_vals(m)[i] == (m[i].0, sp_canon(m[i].1)),
    decreases m.len(),
{
    if m.len() > 0 {
        lemma_canon_vals(m.drop_first());
        assert forall|i: int| 0 <= i < m.len() implies sp_canon_vals(m)[i] == (
        m[i].0,
        sp_canon(m[i].1),
        ) by {
            if i > 0 {
                assert(sp_canon_vals(m)[i] == sp_canon_vals(m.drop_first())[i - 1]);
                assert(m.drop_first()[i - 1] == m[i]);
            }
        }
    }
}

/// Insertion with an equal key earlier replaces in place.
proof fn lemma_insert_replace(m: Seq<(Seq<u8>, JVal)>, kv: (Seq<u8>, JVal), idx: int)
    requires
        0 <= idx < m.len(),
        m[idx].0 == kv.0,
        forall|j: int| 0 <= j < idx ==> m[j].0 != kv.0 && !lex_lt(kv.0, m[j].0),
    ensures
        sp_insert_member(m, kv) == m.update(idx, kv),
    decreases m.len(),
{
    if idx == 0 {
        assert(sp_insert_member(m, kv) =~= m.update(0, kv));
    } else {
        assert(m.drop_first()[idx - 1].0 == kv.0);
        lemma_insert_replace(m.drop_first(), kv, idx - 1);
        assert(sp_insert_member(m, kv) =~= m.update(idx, kv));
    }
}

/// Insertion before the first larger key lands exactly there.
proof fn lemma_insert_at(m: Seq<(Seq<u8>, JVal)>, kv: (Seq<u8>, JVal), idx: int)
    requires
        0 <= idx <= m.len(),
        forall|j: int| 0 <= j < idx ==> m[j].0 != kv.0 && !lex_lt(kv.0, m[j].0),
        idx < m.len() ==> m[idx].0 != kv.0 && lex_lt(kv.0, m[idx].0),
    ensures
        sp_insert_member(m, kv) == m.insert(idx, kv),
    decreases m.len(),
{
    if idx == 0 {
        if m.len() == 0 {
            assert(sp_insert_member(m, kv) =~= m.insert(0, kv));
        } else {
            assert(sp_insert_member(m, kv) =~= m.insert(0, kv));
        }
    } else {
        assert(m[0].0 != kv.0 && !lex_lt(kv.0, m[0].0));
        lemma_insert_at(m.drop_first(), kv, idx - 1);
        assert(sp_insert_member(m, kv) =~= m.insert(idx, kv));
    }
}

/// Insert a member into a key-sorted accumulator.
#[verifier::loop_isolation(false)]
fn insert_member(acc: &mut Vec<(Vec<u8>, JsonValue)>, k: Vec<u8>, v: JsonValue)
    ensures
        view_obj(final(acc)@) == sp_insert_member(view_obj(old(acc)@), (k@, v@)),
{
    let ghost m = view_obj(old(acc)@);
    let ghost kv = (k@, v@);
    proof {
        lemma_view_obj(old(acc)@);
    }
    let mut i: usize = 0;
    while i < acc.len()
        invariant
            0 <= i <= acc@.len(),
            acc@ == old(acc)@,
            forall|j: int| 0 <= j < i ==> m[j].0 != kv.0 && !lex_lt(kv.0, m[j].0),
        decreases acc@.len() - i,
    {
        if crate::bytes_eq(acc[i].0.as_slice(), k.as_slice()) {
            acc.set(i, (k, v));
            proof {
                lemma_view_obj(acc@);
                lemma_insert_replace(m, kv, i as int);
                assert(view_obj(acc@) =~= m.update(i as int, kv));
            }
            return ;
        }
        if lex_lt_bytes(k.as_slice(), acc[i].0.as_slice()) {
            acc.insert(i, (k, v));
            proof {
                lemma_view_obj(acc@);
                lemma_insert_at(m, kv, i as int);
                assert(view_obj(acc@) =~= m.insert(i as int, kv));
            }
            return ;
        }
        i += 1;
    }
    acc.push((k, v));
    proof {
        lemma_view_obj(acc@);
        lemma_insert_at(m, kv, m.len() as int);
        assert(view_obj(acc@) =~= m.insert(m.len() as int, kv));
    }
}

impl JsonValue {
    /// This value in canonical form: a fresh value whose objects are
    /// key-sorted with duplicate keys collapsed, at every level.
    #[verifier::loop_isolation(false)]
    pub fn canonical(&self) -> (r: JsonValue)
        ensures
            r@ == sp_canon(self@),
        decreases self,
    {
        match self {
            JsonValue::Null => JsonValue::Null,
            JsonValue::Bool(b) => JsonValue::Bool(*b),
            JsonValue::Num(s) => JsonValue::Num(copy_bytes(s)),
            JsonValue::Str(s) => JsonValue::Str(copy_bytes(s)),
            JsonValue::Arr(items) => {
                let mut out: Vec<JsonValue> = Vec::new();
                let mut i: usize = 0;
                while i < items.len()
                    invariant
                        0 <= i <= items.len(),
                        out@.len() == i,
                        forall|j: int| 0 <= j < i ==> out@[j]@ == sp_canon(items@[j]@),
                    decreases items.len() - i,
                {
                    let c = items[i].canonical();
                    out.push(c);
                    i += 1;
                }
                proof {
                    lemma_view_arr(out@);
                    lemma_view_arr(items@);
                    lemma_canon_items(view_arr(items@));
                    assert(view_arr(out@) =~= sp_canon_items(view_arr(items@)));
                }
                JsonValue::Arr(out)
            },
            JsonValue::Obj(members) => {
                let mut vals: Vec<(Vec<u8>, JsonValue)> = Vec::new();
                let mut i: usize = 0;
                while i < members.len()
                    invariant
                        0 <= i <= members.len(),
                        vals@.len() == i,
                        forall|j: int| 0 <= j < i ==> vals@[j].0@ == members@[j].0@
                            && vals@[j].1@ == sp_canon(members@[j].1@),
                    decreases members.len() - i,
                {
                    let k = copy_bytes(&members[i].0);
                    let v = members[i].1.canonical();
                    vals.push((k, v));
                    i += 1;
                }
                proof {
                    lemma_view_obj(vals@);
                    lemma_view_obj(members@);
                    lemma_canon_vals(view_obj(members@));
                    assert(view_obj(vals@) =~= sp_canon_vals(view_obj(members@)));
                }
                let ghost vals_model = view_obj(vals@);
                let mut acc: Vec<(Vec<u8>, JsonValue)> = Vec::new();
                proof {
                    assert(view_obj(acc@) =~= Seq::<(Seq<u8>, JVal)>::empty());
                    assert(vals_model.take(0) =~= Seq::<(Seq<u8>, JVal)>::empty());
                }
                let mut i: usize = 0;
                while i < vals.len()
                    invariant
                        0 <= i <= vals@.len(),
                        view_obj(acc@) == sp_sort_unique(vals_model.take(i as int)),
                    decreases vals@.len() - i,
                {
                    proof {
                        lemma_view_obj(vals@);
                        assert(vals_model.take(i + 1).drop_last() =~= vals_model.take(i as int));
                        assert(vals_model.take(i + 1).last() == vals_model[i as int]);
                    }
                    let k = copy_bytes(&vals[i].0);
                    let v = vals[i].1.duplicate();
                    insert_member(&mut acc, k, v);
                    i += 1;
                }
                proof {
                    assert(vals_model.take(vals_model.len() as int) =~= vals_model);
                }
                JsonValue::Obj(acc)
            },
        }
    }
}

/// Collapsing duplicates keeps the later occurrence: a key written
/// twice canonicalizes to its second value alone.
pub proof fn lemma_canon_last_wins(k: Seq<u8>, v1: JVal, v2: JVal)
    ensures
        sp_sort_unique(seq![(k, v1), (k, v2)]) == seq![(k, v2)],
{
    reveal_with_fuel(sp_sort_unique, 4);
    reveal_with_fuel(sp_insert_member, 4);
    let m = seq![(k, v1), (k, v2)];
    assert(m.drop_last() =~= seq![(k, v1)]);
    assert(seq![(k, v1)].drop_last() =~= Seq::<(Seq<u8>, JVal)>::empty());
    assert(sp_sort_unique(seq![(k, v1)]) =~= seq![(k, v1)]);
    assert(sp_insert_member(seq![(k, v1)], (k, v2)) =~= seq![(k, v2)]);
}

/// Two members with distinct keys canonicalize alike in either order:
/// the rendering of a canonical object does not depend on the order its
/// members arrived in.
pub proof fn lemma_canon_swap(k1: Seq<u8>, v1: JVal, k2: Seq<u8>, v2: JVal)
    requires
        k1 != k2,
    ensures
        sp_sort_unique(seq![(k1, v1), (k2, v2)]) == sp_sort_unique(seq![(k2, v2), (k1, v1)]),
{
    reveal_with_fuel(sp_sort_unique, 4);
    reveal_with_fuel(sp_insert_member, 4);
    lemma_lex_total_from(k1, k2, 0);
    let a = seq![(k1, v1), (k2, v2)];
    let b = seq![(k2, v2), (k1, v1)];
    assert(a.drop_last() =~= seq![(k1, v1)]);
    assert(b.drop_last() =~= seq![(k2, v2)]);
    assert(seq![(k1, v1)].drop_last() =~= Seq::<(Seq<u8>, JVal)>::empty());
    assert(seq![(k2, v2)].drop_last() =~= Seq::<(Seq<u8>, JVal)>::empty());
    assert(sp_sort_unique(seq![(k1, v1)]) =~= seq![(k1, v1)]);
    assert(sp_sort_unique(seq![(k2, v2)]) =~= seq![(k2, v2)]);
    if lex_lt(k1, k2) {
        assert(sp_insert_member(seq![(k1, v1)], (k2, v2)) =~= seq![(k1, v1), (k2, v2)]);
        assert(sp_insert_member(seq![(k2, v2)], (k1, v1)) =~= seq![(k1, v1), (k2, v2)]);
    } else {
        assert(lex_lt(k2, k1));
        assert(sp_insert_member(seq![(k1, v1)], (k2, v2)) =~= seq![(k2, v2), (k1, v1)]);
        assert(sp_insert_member(seq![(k2, v2)], (k1, v1)) =~= seq![(k2, v2), (k1, v1)]);
    }
}

} // verus!
