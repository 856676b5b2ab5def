//! The JSON grammar: a parser from bytes to structured values and two
//! deterministic renderers (compact and pretty). Both directions are stated
//! against spec-level functions, so parsing and rendering are functions of
//! the input bytes alone.
//!
//! The parser is written twice in the same shape: once as spec functions
//! over `Seq<u8>` with an explicit fuel measure (fuel only serves
//! termination; callers pass enough of it that it never runs out), and once
//! as executable functions proved equal to them.
//!
//! Byte values are spelled as decimal literals; the comment beside each
//! names the character.

use vstd::prelude::*;

use crate::value::{view_arr, view_obj, lemma_view_arr, lemma_view_obj, JVal, JsonValue};

verus! {

broadcast use vstd::std_specs::vec::group_vec_axioms, vstd::seq::axiom_seq_index_decreases;

/// JSON whitespace: space, tab, line feed, carriage return.
pub open spec fn is_ws(b: u8) -> bool {
    b == 32 || b == 9 || b == 10 || b == 13
}

/// An ASCII decimal digit.
pub open spec fn is_digit(b: u8) -> bool {
    48 <= b && b <= 57
}

/// The first position at or after `i` holding no whitespace.
pub open spec fn sp_skip_ws(s: Seq<u8>, i: int) -> int
    decreases s.len() - i,
{
    if 0 <= i < s.len() && is_ws(s[i]) {
        sp_skip_ws(s, i + 1)
    } else {
        i
    }
}

/// The first position at or after `i` holding no digit.
pub open spec fn sp_digits_end(s: Seq<u8>, i: int) -> int
    decreases s.len() - i,
{
    if 0 <= i < s.len() && is_digit(s[i]) {
        sp_digits_end(s, i + 1)
    } else {
        i
    }
}

/// End of an optional fraction part beginning at `i`.
pub open spec fn sp_frac_end(s: Seq<u8>, i: int) -> Option<int> {
    if 0 <= i < s.len() && s[i] == 46 {  // '.'
        let j = sp_digits_end(s, i + 1);
        if j == i + 1 {
            Option::None
        } else {
            Option::Some(j)
        }
    } else {
        Option::Some(i)
    }
}

/// End of an optional exponent part beginning at `i`.
pub open spec fn sp_exp_end(s: Seq<u8>, i: int) -> Option<int> {
    if 0 <= i < s.len() && (s[i] == 101 || s[i] == 69) {  // 'e' | 'E'
        let j = if i + 1 < s.len() && (s[i + 1] == 43 || s[i + 1] == 45) {  // '+' | '-'
            i + 2
        } else {
            i + 1
        };
        let k = sp_digits_end(s, j);
        if k == j {
            Option::None
        } else {
            Option::Some(k)
        }
    } else {
        Option::Some(i)
    }
}

/// End of a number lexeme beginning at `i`, if one starts there.
pub open spec fn sp_num_end(s: Seq<u8>, i: int) -> Option<int> {
    let j = if 0 <= i < s.len() && s[i] == 45 {  // '-'
        i + 1
    } else {
        i
    };
    let k = sp_digits_end(s, j);
    if k == j {
        Option::None
    } else {
        match sp_frac_end(s, k) {
            Option::None => Option::None,
            Option::Some(k2) => sp_exp_end(s, k2),
        }
    }
}

/// Position just after the closing quote of string contents beginning at
/// `i` (the opening quote stands at `i - 1`). A backslash makes the next
/// byte part of the contents.
pub open spec fn sp_str_end(s: Seq<u8>, i: int) -> Option<int>
    decreases s.len() - i,
{
    if i < 0 || i >= s.len() {
        Option::None
    } else if s[i] == 34 {  // '"'
        Option::Some(i + 1)
    } else if s[i] == 92 {  // '\'
        if i + 2 <= s.len() {
            sp_str_end(s, i + 2)
        } else {
            Option::None
        }
    } else {
        sp_str_end(s, i + 1)
    }
}

/// Parse one value at `i` (leading whitespace allowed): the parsed value
/// and the position just after it. Fuel only bounds the recursion.
pub open spec fn sp_value(s: Seq<u8>, i: int, fuel: nat) -> Option<(JVal, int)>
    decreases fuel,
{
    if fuel == 0 {
        Option::None
    } else {
        let j = sp_skip_ws(s, i);
        if !(0 <= j < s.len()) {
            Option::None
        } else if s[j] == 110 {  // 'n'
            if s.len() - j >= 4 && s[j + 1] == 117 && s[j + 2] == 108 && s[j + 3] == 108 {
                Option::Some((JVal::Null, j + 4))
            } else {
                Option::None
            }
        } else if s[j] == 116 {  // 't'
            if s.len() - j >= 4 && s[j + 1] == 114 && s[j + 2] == 117 && s[j + 3] == 101 {
                Option::Some((JVal::Bool(true), j + 4))
            } else {
                Option::None
            }
        } else if s[j] == 102 {  // 'f'
            if s.len() - j >= 5 && s[j + 1] == 97 && s[j + 2] == 108 && s[j + 3] == 115 && s[j + 4]
                == 101 {
                Option::Some((JVal::Bool(false), j + 5))
            } else {
                Option::None
            }
        } else if s[j] == 34 {  // '"'
            match sp_str_end(s, j + 1) {
                Option::None => Option::None,
                Option::Some(e) => Option::Some((JVal::Str(s.subrange(j + 1, e - 1)), e)),
            }
        } else if s[j] == 91 {  // '['
            let k = sp_skip_ws(s, j + 1);
            if 0 <= k < s.len() && s[k] == 93 {  // ']'
                Option::Some((JVal::Arr(Seq::empty()), k + 1))
            } else {
                match sp_elems(s, j + 1, (fuel - 1) as nat) {
                    Option::None => Option::None,
                    Option::Some((items, e)) => Option::Some((JVal::Arr(items), e)),
                }
            }
        } else if s[j] == 123 {  // '{'
            let k = sp_skip_ws(s, j + 1);
            if 0 <= k < s.len() && s[k] == 125 {  // '}'
                Option::Some((JVal::Obj(Seq::empty()), k + 1))
            } else {
                match sp_members(s, j + 1, (fuel - 1) as nat) {
                    Option::None => Option::None,
                    Option::Some((members, e)) => Option::Some((JVal::Obj(members), e)),
                }
            }
        } else {
            match sp_num_end(s, j) {
                Option::None => Option::None,
                Option::Some(e) => Option::Some((JVal::Num(s.subrange(j, e)), e)),
            }
        }
    }
}

/// Parse the elements of a non-empty array from `i` up to and including
/// the closing bracket.
pub open spec fn sp_elems(s: Seq<u8>, i: int, fuel: nat) -> Option<(Seq<JVal>, int)>
    decreases fuel,
{
    if fuel == 0 {
        Option::None
    } else {
        match sp_value(s, i, (fuel - 1) as nat) {
            Option::None => Option::None,
            Option::Some((v, e)) => {
                let k = sp_skip_ws(s, e);
                if 0 <= k < s.len() && s[k] == 44 {  // ','
                    match sp_elems(s, k + 1, (fuel - 1) as nat) {
                        Option::None => Option::None,
                        Option::Some((rest, e2)) => Option::Some((seq![v] + rest, e2)),
                    }
                } else if 0 <= k < s.len() && s[k] == 93 {  // ']'
                    Option::Some((seq![v], k + 1))
                } else {
                    Option::None
                }
            },
        }
    }
}

/// Parse the members of a non-empty object from `i` up to and including
/// the closing brace.
pub open spec fn sp_members(s: Seq<u8>, i: int, fuel: nat) -> Option<(Seq<(Seq<u8>, JVal)>, int)>
    decreases fuel,
{
    if fuel == 0 {
        Option::None
    } else {
        let j = sp_skip_ws(s, i);
        if !(0 <= j < s.len() && s[j] == 34) {  // '"'
            Option::None
        } else {
            match sp_str_end(s, j + 1) {
                Option::None => Option::None,
                Option::Some(e) => {
                    let key = s.subrange(j + 1, e - 1);
                    let c = sp_skip_ws(s, e);
                    if !(0 <= c < s.len() && s[c] == 58) {  // ':'
                        Option::None
                    } else {
                        match sp_value(s, c + 1, (fuel - 1) as nat) {
                            Option::None => Option::None,
                            Option::Some((v, e2)) => {
                                let k = sp_skip_ws(s, e2);
                                if 0 <= k < s.len() && s[k] == 44 {  // ','
                                    match sp_members(s, k + 1, (fuel - 1) as nat) {
                                        Option::None => Option::None,
                                        Option::Some((rest, e3)) => Option::Some(
                                            (seq![(key, v)] + rest, e3),
                                        ),
                                    }
                                } else if 0 <= k < s.len() && s[k] == 125 {  // '}'
                                    Option::Some((seq![(key, v)], k + 1))
                                } else {
                                    Option::None
                                }
                            },
                        }
                    }
                },
            }
        }
    }
}

/// The parse of a whole text: one value with nothing but whitespace
/// around it.
pub open spec fn sp_parse(s: Seq<u8>) -> Option<JVal> {
    match sp_value(s, 0, (2 * s.len() + 1) as nat) {
        Option::None => Option::None,
        Option::Some((v, e)) => {
            if sp_skip_ws(s, e) == s.len() {
                Option::Some(v)
            } else {
                Option::None
            }
        },
    }
}

/// Executable whitespace skip.
fn skip_ws(s: &[u8], i: usize) -> (r: usize)
    requires
        i <= s@.len(),
    ensures
        i <= r <= s@.len(),
        r == sp_skip_ws(s@, i as int),
    decreases s@.len() - i,
{
    if i < s.len() {
        let b = s[i];
        if b == 32 || b == 9 || b == 10 || b == 13 {
            return skip_ws(s, i + 1);
        }
    }
    i
}

/// Executable digit-run scan.
fn digits_end(s: &[u8], i: usize) -> (r: usize)
    requires
        i <= s@.len(),
    ensures
        i <= r <= s@.len(),
        r == sp_digits_end(s@, i as int),
    decreases s@.len() - i,
{
    if i < s.len() {
        let b = s[i];
        if 48 <= b && b <= 57 {
            return digits_end(s, i + 1);
        }
    }
    i
}

/// Executable number-lexeme scan.
pub fn num_end(s: &[u8], i: usize) -> (r: Option<usize>)
    requires
        i <= s@.len(),
    ensures
        match r {
            Option::Some(e) => sp_num_end(s@, i as int) == Option::Some(e as int) && i < e
                <= s@.len(),
            Option::None => sp_num_end(s@, i as int) is None,
        },
{
    let j = if i < s.len() && s[i] == 45 {
        i + 1
    } else {
        i
    };
    let k = digits_end(s, j);
    if k == j {
        return Option::None;
    }
    // optional fraction
    let k2 = if k < s.len() && s[k] == 46 {
        let k3 = digits_end(s, k + 1);
        if k3 == k + 1 {
            return Option::None;
        }
        k3
    } else {
        k
    };
    assert(sp_frac_end(s@, k as int) == Option::Some(k2 as int));
    // optional exponent
    if k2 < s.len() && (s[k2] == 101 || s[k2] == 69) {
        let j2 = if k2 + 1 < s.len() && (s[k2 + 1] == 43 || s[k2 + 1] == 45) {
            k2 + 2
        } else {
            k2 + 1
        };
        let k4 = digits_end(s, j2);
        if k4 == j2 {
            return Option::None;
        }
        Option::Some(k4)
    } else {
        Option::Some(k2)
    }
}

/// Executable string-contents scan.
fn str_end(s: &[u8], i: usize) -> (r: Option<usize>)
    requires
        i <= s@.len(),
    ensures
        match r {
            Option::Some(e) => sp_str_end(s@, i as int) == Option::Some(e as int) && i < e
                <= s@.len(),
            Option::None => sp_str_end(s@, i as int) is None,
        },
    decreases s@.len() - i,
{
    if i >= s.len() {
        Option::None
    } else if s[i] == 34 {
        Option::Some(i + 1)
    } else if s[i] == 92 {
        if s.len() - i >= 2 {
            str_end(s, i + 2)
        } else {
            Option::None
        }
    } else {
        str_end(s, i + 1)
    }
}

/// A fresh copy of `s[a..b]`.
#[verifier::loop_isolation(false)]
pub fn sub_vec(s: &[u8], a: usize, b: usize) -> (r: Vec<u8>)
    requires
        a <= b <= s@.len(),
    ensures
        r@ == s@.subrange(a as int, b as int),
{
    let mut out: Vec<u8> = Vec::new();
    let mut i: usize = a;
    while i < b
        invariant
            a <= i <= b,
            out@ == s@.subrange(a as int, i as int),
        decreases b - i,
    {
        out.push(s[i]);
        proof {
            assert(out@ =~= s@.subrange(a as int, i + 1));
        }
        i += 1;
    }
    out
}

/// Executable value parser, equal to `sp_value` on the same fuel.
fn pv(s: &[u8], i: usize, Ghost(fuel): Ghost<nat>) -> (r: Option<(JsonValue, usize)>)
    requires
        i <= s@.len(),
        fuel >= 2 * (s@.len() - i) + 1,
    ensures
        match r {
            Option::Some((v, e)) => sp_value(s@, i as int, fuel) == Option::Some((v@, e as int))
                && i < e <= s@.len(),
            Option::None => sp_value(s@, i as int, fuel) is None,
        },
    decreases fuel,
{
    let j = skip_ws(s, i);
    if j >= s.len() {
        return Option::None;
    }
    let b = s[j];
    if b == 110 {  // 'n'
        if s.len() - j >= 4 && s[j + 1] == 117 && s[j + 2] == 108 && s[j + 3] == 108 {
            Option::Some((JsonValue::Null, j + 4))
        } else {
            Option::None
        }
    } else if b == 116 {  // 't'
        if s.len() - j >= 4 && s[j + 1] == 114 && s[j + 2] == 117 && s[j + 3] == 101 {
            Option::Some((JsonValue::Bool(true), j + 4))
        } else {
            Option::None
        }
    } else if b == 102 {  // 'f'
        if s.len() - j >= 5 && s[j + 1] == 97 && s[j + 2] == 108 && s[j + 3] == 115 && s[j + 4]
            == 101 {
            Option::Some((JsonValue::Bool(false), j + 5))
        } else {
            Option::None
        }
    } else if b == 34 {  // '"'
        match str_end(s, j + 1) {
            Option::None => Option::None,
            Option::Some(e) => {
                let content = sub_vec(s, j + 1, e - 1);
                Option::Some((JsonValue::Str(content), e))
            },
        }
    } else if b == 91 {  // '['
        let k = skip_ws(s, j + 1);
        if k < s.len() && s[k] == 93 {
            let items: Vec<JsonValue> = Vec::new();
            proof {
                assert(view_arr(items@) =~= Seq::<JVal>::empty());
            }
            Option::Some((JsonValue::Arr(items), k + 1))
        } else {
            match pe(s, j + 1, Ghost((fuel - 1) as nat)) {
                Option::None => Option::None,
                Option::Some((items, e)) => Option::Some((JsonValue::Arr(items), e)),
            }
        }
    } else if b == 123 {  // '{'
        let k = skip_ws(s, j + 1);
        if k < s.len() && s[k] == 125 {
            let members: Vec<(Vec<u8>, JsonValue)> = Vec::new();
            proof {
                assert(view_obj(members@) =~= Seq::<(Seq<u8>, JVal)>::empty());
            }
            Option::Some((JsonValue::Obj(members), k + 1))
        } else {
            match pm(s, j + 1, Ghost((fuel - 1) as nat)) {
                Option::None => Option::None,
                Option::Some((members, e)) => Option::Some((JsonValue::Obj(members), e)),
            }
        }
    } else {
        match num_end(s, j) {
            Option::None => Option::None,
            Option::Some(e) => {
                let lexeme = sub_vec(s, j, e);
                Option::Some((JsonValue::Num(lexeme), e))
            },
        }
    }
}

/// Executable array-elements parser, equal to `sp_elems`.
fn pe(s: &[u8], i: usize, Ghost(fuel): Ghost<nat>) -> (r: Option<(Vec<JsonValue>, usize)>)
    requires
        i <= s@.len(),
        fuel >= 2 * (s@.len() - i) + 2,
    ensures
        match r {
            Option::Some((items, e)) => sp_elems(s@, i as int, fuel) == Option::Some(
                (view_arr(items@), e as int),
            ) && i < e <= s@.len(),
            Option::None => sp_elems(s@, i as int, fuel) is None,
        },
    decreases fuel,
{
    match pv(s, i, Ghost((fuel - 1) as nat)) {
        Option::None => Option::None,
        Option::Some((v, e)) => {
            let k = skip_ws(s, e);
            if k < s.len() && s[k] == 44 {
                match pe(s, k + 1, Ghost((fuel - 1) as nat)) {
                    Option::None => Option::None,
                    Option::Some((mut rest, e2)) => {
                        let ghost old_rest = rest@;
                        rest.insert(0, v);
                        proof {
                            assert(rest@ =~= seq![v] + old_rest);
                            lemma_view_arr(rest@);
                            lemma_view_arr(old_rest);
                            assert(view_arr(rest@) =~= seq![v@] + view_arr(old_rest));
                        }
                        Option::Some((rest, e2))
                    },
                }
            } else if k < s.len() && s[k] == 93 {
                let mut items: Vec<JsonValue> = Vec::new();
                items.push(v);
                proof {
                    lemma_view_arr(items@);
                    assert(view_arr(items@) =~= seq![v@]);
                }
                Option::Some((items, k + 1))
            } else {
                Option::None
            }
        },
    }
}

/// Executable object-members parser, equal to `sp_members`.
fn pm(s: &[u8], i: usize, Ghost(fuel): Ghost<nat>) -> (r: Option<
    (Vec<(Vec<u8>, JsonValue)>, usize),
>)
    requires
        i <= s@.len(),
        fuel >= 2 * (s@.len() - i) + 2,
    ensures
        match r {
            Option::Some((members, e)) => sp_members(s@, i as int, fuel) == Option::Some(
                (view_obj(members@), e as int),
            ) && i < e <= s@.len(),
            Option::None => sp_members(s@, i as int, fuel) is None,
        },
    decreases fuel,
{
    let j = skip_ws(s, i);
    if !(j < s.len() && s[j] == 34) {
        return Option::None;
    }
    match str_end(s, j + 1) {
        Option::None => Option::None,
        Option::Some(e) => {
            let key = sub_vec(s, j + 1, e - 1);
            let c = skip_ws(s, e);
            if !(c < s.len() && s[c] == 58) {
                return Option::None;
            }
            match pv(s, c + 1, Ghost((fuel - 1) as nat)) {
                Option::None => Option::None,
                Option::Some((v, e2)) => {
                    let k = skip_ws(s, e2);
                    if k < s.len() && s[k] == 44 {
                        match pm(s, k + 1, Ghost((fuel - 1) as nat)) {
                            Option::None => Option::None,
                            Option::Some((mut rest, e3)) => {
                                let ghost old_rest = rest@;
                                let ghost key_model = key@;
                                let ghost v_model = v@;
                                rest.insert(0, (key, v));
                                proof {
                                    assert(rest@ =~= seq![(key, v)] + old_rest);
                                    lemma_view_obj(rest@);
                                    lemma_view_obj(old_rest);
                                    assert(view_obj(rest@) =~= seq![(key_model, v_model)]
                                        + view_obj(old_rest));
                                }
                                Option::Some((rest, e3))
                            },
                        }
                    } else if k < s.len() && s[k] == 125 {
                        let ghost key_model = key@;
                        let ghost v_model = v@;
                        let mut members: Vec<(Vec<u8>, JsonValue)> = Vec::new();
                        members.push((key, v));
                        proof {
                            lemma_view_obj(members@);
                            assert(view_obj(members@) =~= seq![(key_model, v_model)]);
                        }
                        Option::Some((members, k + 1))
                    } else {
                        Option::None
                    }
                },
            }
        },
    }
}

/// Parse a whole text as one JSON value.
pub fn parse_json(s: &[u8]) -> (r: Option<JsonValue>)
    ensures
        match r {
            Option::Some(v) => sp_parse(s@) == Option::Some(v@),
            Option::None => sp_parse(s@) is None,
        },
{
    match pv(s, 0, Ghost((2 * s@.len() + 1) as nat)) {
        Option::None => Option::None,
        Option::Some((v, e)) => {
            let t = skip_ws(s, e);
            if t == s.len() {
                Option::Some(v)
            } else {
                Option::None
            }
        },
    }
}

/// Append every byte of `s` to `out`.
#[verifier::loop_isolation(false)]
pub fn append_bytes(out: &mut Vec<u8>, s: &[u8])
    ensures
        final(out)@ == old(out)@ + s@,
{
    let mut i: usize = 0;
    while i < s.len()
        invariant
            0 <= i <= s@.len(),
            out@ == old(out)@ + s@.take(i as int),
        decreases s@.len() - i,
    {
        out.push(s[i]);
        proof {
            assert(out@ =~= old(out)@ + s@.take(i + 1));
        }
        i += 1;
    }
    proof {
        assert(old(out)@ + s@.take(s@.len() as int) =~= old(out)@ + s@);
    }
}

/// The compact rendering of a value: no whitespace at all.
pub open spec fn sp_ser(v: JVal) -> Seq<u8>
    decreases v, 0int,
{
    match v {
        JVal::Null => seq![110u8, 117u8, 108u8, 108u8],  // null
        JVal::Bool(b) => if b {
            seq![116u8, 114u8, 117u8, 101u8]  // true
        } else {
            seq![102u8, 97u8, 108u8, 115u8, 101u8]  // false
        },
        JVal::Num(s) => s,
        JVal::Str(s) => seq![34u8] + s + seq![34u8],
        JVal::Arr(items) => seq![91u8] + sp_ser_items(items, 0) + seq![93u8],
        JVal::Obj(members) => seq![123u8] + sp_ser_members(members, 0) + seq![125u8],
    }
}

/// Compact rendering of the elements from `i` on, comma-separated.
pub open spec fn sp_ser_items(s: Seq<JVal>, i: int) -> Seq<u8>
    decreases s, s.len() - i,
{
    if i < 0 || i >= s.len() {
        Seq::empty()
    } else if i == s.len() - 1 {
        sp_ser(s[i])
    } else {
        sp_ser(s[i]) + seq![44u8] + sp_ser_items(s, i + 1)
    }
}

/// Compact rendering of the members from `i` on, comma-separated.
pub open spec fn sp_ser_members(s: Seq<(Seq<u8>, JVal)>, i: int) -> Seq<u8>
    decreases s, s.len() - i,
{
    if i < 0 || i >= s.len() {
        Seq::empty()
    } else if i == s.len() - 1 {
        seq![34u8] + s[i].0 + seq![34u8, 58u8] + sp_ser(s[i].1)
    } else {
        seq![34u8] + s[i].0 + seq![34u8, 58u8] + sp_ser(s[i].1) + seq![44u8] + sp_ser_members(
            s,
            i + 1,
        )
    }
}

/// Append the compact rendering of `v` to `out`.
#[verifier::loop_isolation(false)]
pub fn write_json(v: &JsonValue, out: &mut Vec<u8>)
    ensures
        final(out)@ == old(out)@ + sp_ser(v@),
    decreases v, 0int,
{
    match v {
        JsonValue::Null => {
            out.push(110);
            out.push(117);
            out.push(108);
            out.push(108);
            proof {
                assert(out@ =~= old(out)@ + sp_ser(v@));
            }
        },
        JsonValue::Bool(b) => {
            if *b {
                out.push(116);
                out.push(114);
                out.push(117);
                out.push(101);
            } else {
                out.push(102);
                out.push(97);
                out.push(108);
                out.push(115);
                out.push(101);
            }
            proof {
                assert(out@ =~= old(out)@ + sp_ser(v@));
            }
        },
        JsonValue::Num(s) => {
            append_bytes(out, s.as_slice());
        },
        JsonValue::Str(s) => {
            out.push(34);
            append_bytes(out, s.as_slice());
            out.push(34);
            proof {
                assert(out@ =~= old(out)@ + sp_ser(v@));
            }
        },
        JsonValue::Arr(items) => {
            out.push(91);
            write_items(items, 0, out);
            out.push(93);
            proof {
                assert(out@ =~= old(out)@ + sp_ser(v@));
            }
        },
        JsonValue::Obj(members) => {
            out.push(123);
            write_members(members, 0, out);
            out.push(125);
            proof {
                assert(out@ =~= old(out)@ + sp_ser(v@));
            }
        },
    }
}

/// Append the compact rendering of elements `i..` to `out`.
#[verifier::loop_isolation(false)]
fn write_items(items: &Vec<JsonValue>, i: usize, out: &mut Vec<u8>)
    requires
        i <= items@.len(),
    ensures
        final(out)@ == old(out)@ + sp_ser_items(view_arr(items@), i as int),
    decreases items, items@.len() - i,
{
    proof {
        lemma_view_arr(items@);
    }
    if i >= items.len() {
        proof {
            assert(out@ =~= old(out)@ + sp_ser_items(view_arr(items@), i as int));
        }
        return ;
    }
    write_json(&items[i], out);
    if i + 1 < items.len() {
        out.push(44);
        write_items(items, i + 1, out);
        proof {
            assert(out@ =~= old(out)@ + sp_ser_items(view_arr(items@), i as int));
        }
    } else {
        proof {
            assert(out@ =~= old(out)@ + sp_ser_items(view_arr(items@), i as int));
        }
    }
}

/// Append the compact rendering of members `i..` to `out`.
#[verifier::loop_isolation(false)]
fn write_members(members: &Vec<(Vec<u8>, JsonValue)>, i: usize, out: &mut Vec<u8>)
    requires
        i <= members@.len(),
    ensures
        final(out)@ == old(out)@ + sp_ser_members(view_obj(members@), i as int),
    decreases members, members@.len() - i,
{
    proof {
        lemma_view_obj(members@);
    }
    if i >= members.len() {
        proof {
            assert(out@ =~= old(out)@ + sp_ser_members(view_obj(members@), i as int));
        }
        return ;
    }
    out.push(34);
    append_bytes(out, members[i].0.as_slice());
    out.push(34);
    out.push(58);
    write_json(&members[i].1, out);
    if i + 1 < members.len() {
        out.push(44);
        write_members(members, i + 1, out);
        proof {
            assert(out@ =~= old(out)@ + sp_ser_members(view_obj(members@), i as int));
        }
    } else {
        proof {
            assert(out@ =~= old(out)@ + sp_ser_members(view_obj(members@), i as int));
        }
    }
}

/// The compact rendering of `v` as a fresh byte string.
pub fn to_json(v: &JsonValue) -> (r: Vec<u8>)
    ensures
        r@ == sp_ser(v@),
{
    let mut out: Vec<u8> = Vec::new();
    write_json(v, &mut out);
    out
}
/// The pretty rendering of a value standing at indentation `pad`:
/// brackets on their own lines, members indented two more spaces, a
/// `": "` after each key. The layout is fixed, so equal values render to
/// equal bytes.
pub open spec fn sp_pretty(v: JVal, pad: Seq<u8>) -> Seq<u8>
    decreases v, 0int,
{
    match v {
        JVal::Null => seq![110u8, 117u8, 108u8, 108u8],
        JVal::Bool(b) => if b {
            seq![116u8, 114u8, 117u8, 101u8]
        } else {
            seq![102u8, 97u8, 108u8, 115u8, 101u8]
        },
        JVal::Num(s) => s,
        JVal::Str(s) => seq![34u8] + s + seq![34u8],
        JVal::Arr(items) => if items.len() == 0 {
            seq![91u8, 93u8]
        } else {
            seq![91u8, 10u8] + sp_pretty_items(items, 0, pad + seq![32u8, 32u8]) + seq![10u8] + pad
                + seq![93u8]
        },
        JVal::Obj(members) => if members.len() == 0 {
            seq![123u8, 125u8]
        } else {
            seq![123u8, 10u8] + sp_pretty_members(members, 0, pad + seq![32u8, 32u8]) + seq![10u8]
                + pad + seq![125u8]
        },
    }
}

/// Pretty rendering of the elements from `i` on, one per line.
pub open spec fn sp_pretty_items(s: Seq<JVal>, i: int, inner: Seq<u8>) -> Seq<u8>
    decreases s, s.len() - i,
{
    if i < 0 || i >= s.len() {
        Seq::empty()
    } else if i == s.len() - 1 {
        inner + sp_pretty(s[i], inner)
    } else {
        inner + sp_pretty(s[i], inner) + seq![44u8, 10u8] + sp_pretty_items(s, i + 1, inner)
    }
}

/// Pretty rendering of the members from `i` on, one per line.
pub open spec fn sp_pretty_members(s: Seq<(Seq<u8>, JVal)>, i: int, inner: Seq<u8>) -> Seq<u8>
    decreases s, s.len() - i,
{
    if i < 0 || i >= s.len() {
        Seq::empty()
    } else if i == s.len() - 1 {
        inner + seq![34u8] + s[i].0 + seq![34u8, 58u8, 32u8] + sp_pretty(s[i].1, inner)
    } else {
        inner + seq![34u8] + s[i].0 + seq![34u8, 58u8, 32u8] + sp_pretty(s[i].1, inner) + seq![
            44u8,
            10u8,
        ] + sp_pretty_members(s, i + 1, inner)
    }
}

/// Append the pretty rendering of `v` at indentation `pad` to `out`.
#[verifier::loop_isolation(false)]
pub fn write_pretty(v: &JsonValue, pad: &Vec<u8>, out: &mut Vec<u8>)
    ensures
        final(out)@ == old(out)@ + sp_pretty(v@, pad@),
    decreases v, 0int,
{
    match v {
        JsonValue::Null => {
            out.push(110);
            out.push(117);
            out.push(108);
            out.push(108);
            proof {
                assert(out@ =~= old(out)@ + sp_pretty(v@, pad@));
            }
        },
        JsonValue::Bool(b) => {
            if *b {
                out.push(116);
                out.push(114);
                out.push(117);
                out.push(101);
            } else {
                out.push(102);
                out.push(97);
                out.push(108);
                out.push(115);
                out.push(101);
            }
            proof {
                assert(out@ =~= old(out)@ + sp_pretty(v@, pad@));
            }
        },
        JsonValue::Num(s) => {
            append_bytes(out, s.as_slice());
        },
        JsonValue::Str(s) => {
            out.push(34);
            append_bytes(out, s.as_slice());
            out.push(34);
            proof {
                assert(out@ =~= old(out)@ + sp_pretty(v@, pad@));
            }
        },
        JsonValue::Arr(items) => {
            if items.len() == 0 {
                out.push(91);
                out.push(93);
                proof {
                    assert(out@ =~= old(out)@ + sp_pretty(v@, pad@));
                }
            } else {
                proof {
                    lemma_view_arr(items@);
                }
                let mut inner = crate::value::copy_bytes(pad);
                inner.push(32);
                inner.push(32);
                proof {
                    assert(inner@ =~= pad@ + seq![32u8, 32u8]);
                }
                out.push(91);
                out.push(10);
                write_pretty_items(items, 0, &inner, out);
                out.push(10);
                append_bytes(out, pad.as_slice());
                out.push(93);
                proof {
                    assert(out@ =~= old(out)@ + sp_pretty(v@, pad@));
                }
            }
        },
        JsonValue::Obj(members) => {
            if members.len() == 0 {
                out.push(123);
                out.push(125);
                proof {
                    assert(out@ =~= old(out)@ + sp_pretty(v@, pad@));
                }
            } else {
                proof {
                    lemma_view_obj(members@);
                }
                let mut inner = crate::value::copy_bytes(pad);
                inner.push(32);
                inner.push(32);
                proof {
                    assert(inner@ =~= pad@ + seq![32u8, 32u8]);
                }
                out.push(123);
                out.push(10);
                write_pretty_members(members, 0, &inner, out);
                out.push(10);
                append_bytes(out, pad.as_slice());
                out.push(125);
                proof {
                    assert(out@ =~= old(out)@ + sp_pretty(v@, pad@));
                }
            }
        },
    }
}

/// Append the pretty rendering of elements `i..` to `out`.
#[verifier::loop_isolation(false)]
fn write_pretty_items(items: &Vec<JsonValue>, i: usize, inner: &Vec<u8>, out: &mut Vec<u8>)
    requires
        i <= items@.len(),
    ensures
        final(out)@ == old(out)@ + sp_pretty_items(view_arr(items@), i as int, inner@),
    decreases items, items@.len() - i,
{
    proof {
        lemma_view_arr(items@);
    }
    if i >= items.len() {
        proof {
            assert(out@ =~= old(out)@ + sp_pretty_items(view_arr(items@), i as int, inner@));
        }
        return ;
    }
    append_bytes(out, inner.as_slice());
    write_pretty(&items[i], inner, out);
    if i + 1 < items.len() {
        out.push(44);
        out.push(10);
        write_pretty_items(items, i + 1, inner, out);
        proof {
            assert(out@ =~= old(out)@ + sp_pretty_items(view_arr(items@), i as int, inner@));
        }
    } else {
        proof {
            assert(out@ =~= old(out)@ + sp_pretty_items(view_arr(items@), i as int, inner@));
        }
    }
}

/// Append the pretty rendering of members `i..` to `out`.
#[verifier::loop_isolation(false)]
fn write_pretty_members(
    members: &Vec<(Vec<u8>, JsonValue)>,
    i: usize,
    inner: &Vec<u8>,
    out: &mut Vec<u8>,
)
    requires
        i <= members@.len(),
    ensures
        final(out)@ == old(out)@ + sp_pretty_members(view_obj(members@), i as int, inner@),
    decreases members, members@.len() - i,
{
    proof {
        lemma_view_obj(members@);
    }
    if i >= members.len() {
        proof {
            assert(out@ =~= old(out)@ + sp_pretty_members(view_obj(members@), i as int, inner@));
        }
        return ;
    }
    append_bytes(out, inner.as_slice());
    out.push(34);
    append_bytes(out, members[i].0.as_slice());
    out.push(34);
    out.push(58);
    out.push(32);
    write_pretty(&members[i].1, inner, out);
    if i + 1 < members.len() {
        out.push(44);
        out.push(10);
        write_pretty_members(members, i + 1, inner, out);
        proof {
            assert(out@ =~= old(out)@ + sp_pretty_members(view_obj(members@), i as int, inner@));
        }
    } else {
        proof {
            assert(out@ =~= old(out)@ + sp_pretty_members(view_obj(members@), i as int, inner@));
        }
    }
}

/// The pretty rendering of `v` as a fresh byte string, starting at the
/// left margin.
pub fn to_json_pretty(v: &JsonValue) -> (r: Vec<u8>)
    ensures
        r@ == sp_pretty(v@, Seq::empty()),
{
    let pad: Vec<u8> = Vec::new();
    let mut out: Vec<u8> = Vec::new();
    write_pretty(v, &pad, &mut out);
    out
}

/// How one content byte is written inside a quoted JSON string: quote,
/// backslash, newline, carriage return and tab get a backslash escape;
/// every other byte stands for itself.
pub open spec fn esc_byte(b: u8) -> Seq<u8> {
    if b == 34 {
        seq![92u8, 34u8]
    } else if b == 92 {
        seq![92u8, 92u8]
    } else if b == 10 {
        seq![92u8, 110u8]
    } else if b == 13 {
        seq![92u8, 114u8]
    } else if b == 9 {
        seq![92u8, 116u8]
    } else {
        seq![b]
    }
}

/// Plain text turned into quoted-string contents, byte by byte.
pub open spec fn sp_escape(s: Seq<u8>) -> Seq<u8>
    decreases s.len(),
{
    if s.len() == 0 {
        Seq::empty()
    } else {
        sp_escape(s.drop_last()) + esc_byte(s.last())
    }
}

/// Turn plain text into the contents of a quoted JSON string.
#[verifier::loop_isolation(false)]
pub fn escape_bytes(s: &[u8]) -> (r: Vec<u8>)
    ensures
        r@ == sp_escape(s@),
{
    let mut out: Vec<u8> = Vec::new();
    let mut i: usize = 0;
    while i < s.len()
        invariant
            0 <= i <= s@.len(),
            out@ == sp_escape(s@.take(i as int)),
        decreases s@.len() - i,
    {
        let b = s[i];
        if b == 34 {
            out.push(92);
            out.push(34);
        } else if b == 92 {
            out.push(92);
            out.push(92);
        } else if b == 10 {
            out.push(92);
            out.push(110);
        } else if b == 13 {
            out.push(92);
            out.push(114);
        } else if b == 9 {
            out.push(92);
            out.push(116);
        } else {
            out.push(b);
        }
        proof {
            assert(s@.take(i + 1).drop_last() =~= s@.take(i as int));
            assert(s@.take(i + 1).last() == s@[i as int]);
            assert(out@ =~= sp_escape(s@.take(i as int)) + esc_byte(s@[i as int]));
        }
        i += 1;
    }
    proof {
        assert(s@.take(s@.len() as int) =~= s@);
    }
    out
}
} // verus!
