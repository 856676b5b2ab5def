//! Structured values: the tagged variant over null, booleans, numbers,
//! strings, lists and key-ordered maps that request parameters, request
//! bodies and parsed response bodies are made of.
//!
//! Numbers and strings carry their source bytes: a number is kept as its
//! lexeme, a string as its quoted contents with escape sequences intact.
//! Rendering is therefore exact and deterministic, and no floating-point
//! representation is involved.

use vstd::prelude::*;

verus! {

broadcast use vstd::std_specs::vec::group_vec_axioms, vstd::seq::axiom_seq_index_decreases;

/// The mathematical model of a structured value.
pub enum JVal {
    Null,
    Bool(bool),
    /// The number's lexeme, e.g. the three bytes of `1.5`.
    Num(Seq<u8>),
    /// The string's quoted contents, escape sequences intact.
    Str(Seq<u8>),
    Arr(Seq<JVal>),
    /// Members in order of appearance; duplicate keys are allowed.
    Obj(Seq<(Seq<u8>, JVal)>),
}

/// A structured value as the library holds it at run time.
#[derive(Debug)]
pub enum JsonValue {
    Null,
    Bool(bool),
    Num(Vec<u8>),
    Str(Vec<u8>),
    Arr(Vec<JsonValue>),
    Obj(Vec<(Vec<u8>, JsonValue)>),
}

/// The model of a run-time list of values.
pub open spec fn view_arr(s: Seq<JsonValue>) -> Seq<JVal>
    decreases s,
{
    if s.len() == 0 {
        Seq::empty()
    } else {
        seq![s[0]@] + view_arr(s.drop_first())
    }
}

/// The model of a run-time list of members.
pub open spec fn view_obj(s: Seq<(Vec<u8>, JsonValue)>) -> Seq<(Seq<u8>, JVal)>
    decreases s,
{
    if s.len() == 0 {
        Seq::empty()
    } else {
        seq![(s[0].0@, s[0].1@)] + view_obj(s.drop_first())
    }
}

impl View for JsonValue {
    type V = JVal;

    open spec fn view(&self) -> JVal
        decreases self,
    {
        match self {
            JsonValue::Null => JVal::Null,
            JsonValue::Bool(b) => JVal::Bool(*b),
            JsonValue::Num(s) => JVal::Num(s@),
            JsonValue::Str(s) => JVal::Str(s@),
            JsonValue::Arr(items) => JVal::Arr(view_arr(items@)),
            JsonValue::Obj(members) => JVal::Obj(view_obj(members@)),
        }
    }
}

/// The model of a list of values, element by element.
pub proof fn lemma_view_arr(s: Seq<JsonValue>)
    ensures
        view_arr(s).len() == s.len(),
        forall|i: int| 0 <= i < s.len() ==> view_arr(s)[i] == s[i]@,
    decreases s.len(),
{
    if s.len() > 0 {
        lemma_view_arr(s.drop_first());
        assert(view_arr(s) == seq![s[0]@] + view_arr(s.drop_first()));
        assert forall|i: int| 0 <= i < s.len() implies view_arr(s)[i] == s[i]@ by {
            if i > 0 {
                assert(view_arr(s)[i] == view_arr(s.drop_first())[i - 1]);
                assert(s.drop_first()[i - 1] == s[i]);
            }
        }
    }
}

/// The model of a list of members, element by element.
pub proof fn lemma_view_obj(s: Seq<(Vec<u8>, JsonValue)>)
    ensures
        view_obj(s).len() == s.len(),
        forall|i: int| 0 <= i < s.len() ==> view_obj(s)[i] == (s[i].0@, s[i].1@),
    decreases s.len(),
{
    if s.len() > 0 {
        lemma_view_obj(s.drop_first());
        assert(view_obj(s) == seq![(s[0].0@, s[0].1@)] + view_obj(s.drop_first()));
        assert forall|i: int| 0 <= i < s.len() implies view_obj(s)[i] == (s[i].0@, s[i].1@) by {
            if i > 0 {
                assert(view_obj(s)[i] == view_obj(s.drop_first())[i - 1]);
                assert(s.drop_first()[i - 1] == s[i]);
            }
        }
    }
}

impl JsonValue {
    /// A deep copy, equal to the original in the model.
    #[verifier::loop_isolation(false)]
    pub fn duplicate(&self) -> (r: JsonValue)
        ensures
            r@ == self@,
        decreases self,
    {
        match self {
            JsonValue::Null => JsonValue::Null,
            JsonValue::Bool(b) => JsonValue::Bool(*b),
            JsonValue::Num(s) => {
                let c = copy_bytes(s);
                JsonValue::Num(c)
            },
            JsonValue::Str(s) => {
                let c = copy_bytes(s);
                JsonValue::Str(c)
            },
            JsonValue::Arr(items) => {
                let mut out: Vec<JsonValue> = Vec::new();
                let mut i: usize = 0;
                while i < items.len()
                    invariant
                        0 <= i <= items.len(),
                        out@.len() == i,
                        forall|j: int| 0 <= j < i ==> out@[j]@ == items@[j]@,
                    decreases items.len() - i,
                {
                    let c = items[i].duplicate();
                    out.push(c);
                    i += 1;
                }
                proof {
                    lemma_view_arr(out@);
                    lemma_view_arr(items@);
                    assert(view_arr(out@) =~= view_arr(items@));
                }
                JsonValue::Arr(out)
            },
            JsonValue::Obj(members) => {
                let mut out: Vec<(Vec<u8>, JsonValue)> = Vec::new();
                let mut i: usize = 0;
                while i < members.len()
                    invariant
                        0 <= i <= members.len(),
                        out@.len() == i,
                        forall|j: int| 0 <= j < i ==> out@[j].0@ == members@[j].0@
                            && out@[j].1@ == members@[j].1@,
                    decreases members.len() - i,
                {
                    let k = copy_bytes(&members[i].0);
                    let v = members[i].1.duplicate();
                    out.push((k, v));
                    i += 1;
                }
                proof {
                    lemma_view_obj(out@);
                    lemma_view_obj(members@);
                    assert(view_obj(out@) =~= view_obj(members@));
                }
                JsonValue::Obj(out)
            },
        }
    }
}

/// A fresh copy of a byte string.
#[verifier::loop_isolation(false)]
pub fn copy_bytes(v: &Vec<u8>) -> (r: Vec<u8>)
    ensures
        r@ == v@,
{
    let mut out: Vec<u8> = Vec::new();
    let mut i: usize = 0;
    while i < v.len()
        invariant
            0 <= i <= v.len(),
            out@ == v@.take(i as int),
        decreases v.len() - i,
    {
        out.push(v[i]);
        proof {
            assert(out@ =~= v@.take(i + 1));
        }
        i += 1;
    }
    proof {
        assert(out@ =~= v@);
    }
    out
}

/// The members of an object model; the empty sequence for any other value.
pub open spec fn obj_members(v: JVal) -> Seq<(Seq<u8>, JVal)> {
    match v {
        JVal::Obj(m) => m,
        _ => Seq::empty(),
    }
}

/// Whether a key occurs among the members.
pub open spec fn has_key(m: Seq<(Seq<u8>, JVal)>, k: Seq<u8>) -> bool {
    exists|i: int| 0 <= i < m.len() && m[i].0 == k
}

/// The value under the first occurrence of a key.
pub open spec fn key_lookup(m: Seq<(Seq<u8>, JVal)>, k: Seq<u8>) -> Option<JVal>
    decreases m.len(),
{
    if m.len() == 0 {
        Option::None
    } else if m[0].0 == k {
        Option::Some(m[0].1)
    } else {
        key_lookup(m.drop_first(), k)
    }
}

/// Members after setting `k` to `v`: the first occurrence of `k` is
/// replaced in place; a missing key is appended at the end.
pub open spec fn key_set(m: Seq<(Seq<u8>, JVal)>, k: Seq<u8>, v: JVal) -> Seq<
    (Seq<u8>, JVal),
>
    decreases m.len(),
{
    if m.len() == 0 {
        seq![(k, v)]
    } else if m[0].0 == k {
        seq![(k, v)] + m.drop_first()
    } else {
        seq![m[0]] + key_set(m.drop_first(), k, v)
    }
}

/// The members kept after removing every member whose key stands in
/// `skip` (compared byte for byte). Only these top-level members go;
/// kept members keep their order and their whole value.
pub open spec fn sp_remove_keys(m: Seq<(Seq<u8>, JVal)>, skip: Seq<Seq<u8>>) -> Seq<
    (Seq<u8>, JVal),
>
    decreases m.len(),
{
    if m.len() == 0 {
        Seq::empty()
    } else if crate::ascii::in_list(skip, m[0].0) {
        sp_remove_keys(m.drop_first(), skip)
    } else {
        seq![m[0]] + sp_remove_keys(m.drop_first(), skip)
    }
}

/// Top-level key removal preserves everything else: a key in `skip` is
/// gone, and any other key still maps to its old value, whole subtrees
/// included.
pub proof fn lemma_remove_keys(m: Seq<(Seq<u8>, JVal)>, skip: Seq<Seq<u8>>, k: Seq<u8>)
    ensures
        key_lookup(sp_remove_keys(m, skip), k) == (if crate::ascii::in_list(skip, k) {
            Option::<JVal>::None
        } else {
            key_lookup(m, k)
        }),
        !(crate::ascii::in_list(skip, k) && has_key(sp_remove_keys(m, skip), k)),
    decreases m.len(),
{
    if m.len() == 0 {
        assert(!has_key(sp_remove_keys(m, skip), k));
    } else {
        lemma_remove_keys(m.drop_first(), skip, k);
        if crate::ascii::in_list(skip, m[0].0) {
        } else {
            let r = seq![m[0]] + sp_remove_keys(m.drop_first(), skip);
            assert(r.drop_first() =~= sp_remove_keys(m.drop_first(), skip));
            if crate::ascii::in_list(skip, k) {
                assert(m[0].0 != k);
                if has_key(r, k) {
                    let i = choose|i: int| 0 <= i < r.len() && r[i].0 == k;
                    assert(i > 0);
                    assert(has_key(r.drop_first(), k));
                }
            }
        }
    }
}

/// Remove every member whose key stands in `skip`.
pub fn obj_remove_keys(m: Vec<(Vec<u8>, JsonValue)>, skip: &Vec<Vec<u8>>) -> (r: Vec<
    (Vec<u8>, JsonValue),
>)
    ensures
        view_obj(r@) == sp_remove_keys(view_obj(m@), skip@.map_values(|v: Vec<u8>| v@)),
    decreases m@.len(),
{
    let mut m = m;
    if m.len() == 0 {
        proof {
            assert(view_obj(m@) =~= Seq::<(Seq<u8>, JVal)>::empty());
        }
        let r: Vec<(Vec<u8>, JsonValue)> = Vec::new();
        proof {
            assert(view_obj(r@) =~= Seq::<(Seq<u8>, JVal)>::empty());
        }
        return r;
    }
    let ghost m_model = view_obj(m@);
    proof {
        lemma_view_obj(m@);
    }
    let head = m.remove(0);
    proof {
        lemma_view_obj(m@);
        assert(view_obj(m@) =~= m_model.drop_first());
    }
    let ghost head_model = (head.0@, head.1@);
    let keep = !crate::ascii::list_contains(skip, head.0.as_slice());
    let mut rest = obj_remove_keys(m, skip);
    if keep {
        let ghost rest_vec = rest@;
        let ghost rest_model = view_obj(rest@);
        rest.insert(0, head);
        proof {
            lemma_view_obj(rest_vec);
            lemma_view_obj(rest@);
            assert(rest@ =~= seq![head] + rest_vec);
            assert forall|i: int| 0 <= i < rest@.len() implies view_obj(rest@)[i] == (
            seq![head_model] + rest_model)[i] by {
                if i > 0 {
                    assert(rest@[i] == rest_vec[i - 1]);
                }
            }
            assert(view_obj(rest@) =~= seq![head_model] + rest_model);
        }
    }
    rest
}

/// Setting a present key replaces its first occurrence in place.
pub proof fn lemma_key_set_update(m: Seq<(Seq<u8>, JVal)>, k: Seq<u8>, v: JVal, idx: int)
    requires
        0 <= idx < m.len(),
        m[idx].0 == k,
        forall|j: int| 0 <= j < idx ==> m[j].0 != k,
    ensures
        key_set(m, k, v) == m.update(idx, (k, v)),
    decreases m.len(),
{
    if idx == 0 {
        assert(key_set(m, k, v) =~= m.update(0, (k, v)));
    } else {
        assert(m[0].0 != k);
        assert(m.drop_first()[idx - 1].0 == k);
        lemma_key_set_update(m.drop_first(), k, v, idx - 1);
        assert(key_set(m, k, v) =~= m.update(idx, (k, v)));
    }
}

/// Setting an absent key appends it at the end.
pub proof fn lemma_key_set_append(m: Seq<(Seq<u8>, JVal)>, k: Seq<u8>, v: JVal)
    requires
        forall|j: int| 0 <= j < m.len() ==> m[j].0 != k,
    ensures
        key_set(m, k, v) == m.push((k, v)),
    decreases m.len(),
{
    if m.len() == 0 {
        assert(key_set(m, k, v) =~= m.push((k, v)));
    } else {
        lemma_key_set_append(m.drop_first(), k, v);
        assert(key_set(m, k, v) =~= m.push((k, v)));
    }
}

/// Set `k` to `v` among the members: replace the first occurrence, or
/// append the pair when the key is absent.
#[verifier::loop_isolation(false)]
pub fn obj_set(m: &mut Vec<(Vec<u8>, JsonValue)>, k: Vec<u8>, v: JsonValue)
    ensures
        view_obj(final(m)@) == key_set(view_obj(old(m)@), k@, v@),
{
    let ghost m_model = view_obj(old(m)@);
    let ghost k_model = k@;
    let ghost v_model = v@;
    proof {
        lemma_view_obj(old(m)@);
    }
    let mut i: usize = 0;
    while i < m.len()
        invariant
            0 <= i <= m@.len(),
            m@ == old(m)@,
            forall|j: int| 0 <= j < i ==> m_model[j].0 != k_model,
        decreases m@.len() - i,
    {
        if crate::bytes_eq(m[i].0.as_slice(), k.as_slice()) {
            proof {
                assert(m_model[i as int].0 == k_model);
            }
            m.set(i, (k, v));
            proof {
                lemma_view_obj(m@);
                lemma_key_set_update(m_model, k_model, v_model, i as int);
                assert(view_obj(m@) =~= m_model.update(i as int, (k_model, v_model)));
            }
            return ;
        }
        i += 1;
    }
    m.push((k, v));
    proof {
        lemma_view_obj(m@);
        lemma_key_set_append(m_model, k_model, v_model);
        assert(view_obj(m@) =~= m_model.push((k_model, v_model)));
    }
}
/// The first occurrence of a key decides the lookup.
pub proof fn lemma_key_lookup_first(m: Seq<(Seq<u8>, JVal)>, k: Seq<u8>, idx: int)
    requires
        0 <= idx < m.len(),
        m[idx].0 == k,
        forall|j: int| 0 <= j < idx ==> m[j].0 != k,
    ensures
        key_lookup(m, k) == Option::Some(m[idx].1),
    decreases m.len(),
{
    if idx > 0 {
        assert(m.drop_first()[idx - 1].0 == k);
        lemma_key_lookup_first(m.drop_first(), k, idx - 1);
    }
}

/// A key occurring nowhere looks up to nothing.
pub proof fn lemma_key_lookup_absent(m: Seq<(Seq<u8>, JVal)>, k: Seq<u8>)
    requires
        forall|j: int| 0 <= j < m.len() ==> m[j].0 != k,
    ensures
        key_lookup(m, k) is None,
    decreases m.len(),
{
    if m.len() > 0 {
        lemma_key_lookup_absent(m.drop_first(), k);
    }
}

/// The value under the first occurrence of `k`, if any.
#[verifier::loop_isolation(false)]
pub fn obj_get<'a>(m: &'a Vec<(Vec<u8>, JsonValue)>, k: &[u8]) -> (r: Option<&'a JsonValue>)
    ensures
        match r {
            Option::Some(v) => key_lookup(view_obj(m@), k@) == Option::Some(v@),
            Option::None => key_lookup(view_obj(m@), k@) is None,
        },
{
    proof {
        lemma_view_obj(m@);
    }
    let mut i: usize = 0;
    while i < m.len()
        invariant
            0 <= i <= m@.len(),
            forall|j: int| 0 <= j < i ==> view_obj(m@)[j].0 != k@,
        decreases m@.len() - i,
    {
        if crate::bytes_eq(m[i].0.as_slice(), k) {
            proof {
                lemma_key_lookup_first(view_obj(m@), k@, i as int);
            }
            return Option::Some(&m[i].1);
        }
        i += 1;
    }
    proof {
        lemma_key_lookup_absent(view_obj(m@), k@);
    }
    Option::None
}
} // verus!
