//! Request templates and their execution: merging runtime overrides into a
//! template, encoding the body, and normalizing a raw response into the
//! deterministic text form that two sides are compared by.

use vstd::prelude::*;

use crate::ascii::{eq_ignore_case, in_list_ci, lower, bytes_eq};
use crate::json::{sp_escape, sp_num_end, sp_ser, escape_bytes, sub_vec};
use crate::value::{
    key_set, obj_members, view_obj, JVal, JsonValue, copy_bytes, obj_set,
};
use crate::{Error, ExtraArgs};

verus! {

broadcast use vstd::std_specs::vec::group_vec_axioms, vstd::seq::axiom_seq_index_decreases;

/// The model of a run-time header list.
pub open spec fn hdrs_model(h: Seq<(Vec<u8>, Vec<u8>)>) -> Seq<(Seq<u8>, Seq<u8>)> {
    Seq::new(h.len(), |i: int| (h[i].0@, h[i].1@))
}

/// The model of a run-time list of byte strings.
pub open spec fn list_model(l: Seq<Vec<u8>>) -> Seq<Seq<u8>> {
    l.map_values(|v: Vec<u8>| v@)
}

/// The header name `content-type`.
pub open spec fn ct_name() -> Seq<u8> {
    seq![99u8, 111, 110, 116, 101, 110, 116, 45, 116, 121, 112, 101]
}

/// The media type `application/json`.
pub open spec fn app_json() -> Seq<u8> {
    seq![97u8, 112, 112, 108, 105, 99, 97, 116, 105, 111, 110, 47, 106, 115, 111, 110]
}

/// The media type `application/x-www-form-urlencoded`.
pub open spec fn app_form() -> Seq<u8> {
    seq![
        97u8, 112, 112, 108, 105, 99, 97, 116, 105, 111, 110, 47, 120, 45, 119, 119, 119, 45, 102,
        111, 114, 109, 45, 117, 114, 108, 101, 110, 99, 111, 100, 101, 100,
    ]
}

/// The media type `multipart/form-data`.
pub open spec fn multipart_form() -> Seq<u8> {
    seq![109u8, 117, 108, 116, 105, 112, 97, 114, 116, 47, 102, 111, 114, 109, 45, 100, 97, 116, 97]
}

/// The header name `content-type` as a fresh byte string.
pub fn ct_name_vec() -> (r: Vec<u8>)
    ensures
        r@ == ct_name(),
{
    let r: Vec<u8> = vec![99, 111, 110, 116, 101, 110, 116, 45, 116, 121, 112, 101];
    proof {
        assert(r@ =~= ct_name());
    }
    r
}

/// The media type `application/json` as a fresh byte string.
pub fn app_json_vec() -> (r: Vec<u8>)
    ensures
        r@ == app_json(),
{
    let r: Vec<u8> = vec![97, 112, 112, 108, 105, 99, 97, 116, 105, 111, 110, 47, 106, 115, 111, 110];
    proof {
        assert(r@ =~= app_json());
    }
    r
}

/// The media type `application/x-www-form-urlencoded` as a fresh byte string.
pub fn app_form_vec() -> (r: Vec<u8>)
    ensures
        r@ == app_form(),
{
    let r: Vec<u8> = vec![
        97, 112, 112, 108, 105, 99, 97, 116, 105, 111, 110, 47, 120, 45, 119, 119, 119, 45, 102,
        111, 114, 109, 45, 117, 114, 108, 101, 110, 99, 111, 100, 101, 100,
    ];
    proof {
        assert(r@ =~= app_form());
    }
    r
}

/// The media type `multipart/form-data` as a fresh byte string.
pub fn multipart_form_vec() -> (r: Vec<u8>)
    ensures
        r@ == multipart_form(),
{
    let r: Vec<u8> = vec![
        109, 117, 108, 116, 105, 112, 97, 114, 116, 47, 102, 111, 114, 109, 45, 100, 97, 116, 97,
    ];
    proof {
        assert(r@ =~= multipart_form());
    }
    r
}

/// A byte legal in a header name: the HTTP token characters.
pub open spec fn is_tchar(b: u8) -> bool {
    (48 <= b && b <= 57)  // 0-9
    || (65 <= b && b <= 90)  // A-Z
    || (97 <= b && b <= 122)  // a-z
    || b == 33 || b == 35 || b == 36 || b == 37 || b == 38 || b == 39  // ! # $ % & '
    || b == 42 || b == 43 || b == 45 || b == 46  // * + - .
    || b == 94 || b == 95 || b == 96 || b == 124 || b == 126  // ^ _ ` | ~
}

/// A legal header name: nonempty, token characters only.
pub open spec fn valid_header_name(s: Seq<u8>) -> bool {
    s.len() > 0 && forall|i: int| 0 <= i < s.len() ==> is_tchar(s[i])
}

/// A legal header value byte: horizontal tab or a visible ASCII byte or
/// a space.
pub open spec fn valid_header_value(s: Seq<u8>) -> bool {
    forall|i: int| 0 <= i < s.len() ==> (s[i] == 9 || (32 <= s[i] && s[i] <= 126))
}

/// Check a header name.
#[verifier::loop_isolation(false)]
pub fn check_header_name(s: &[u8]) -> (r: bool)
    ensures
        r == valid_header_name(s@),
{
    if s.len() == 0 {
        return false;
    }
    let mut i: usize = 0;
    while i < s.len()
        invariant
            0 <= i <= s@.len(),
            forall|j: int| 0 <= j < i ==> is_tchar(s@[j]),
        decreases s@.len() - i,
    {
        let b = s[i];
        let ok = (48 <= b && b <= 57) || (65 <= b && b <= 90) || (97 <= b && b <= 122) || b == 33
            || b == 35 || b == 36 || b == 37 || b == 38 || b == 39 || b == 42 || b == 43 || b == 45
            || b == 46 || b == 94 || b == 95 || b == 96 || b == 124 || b == 126;
        if !ok {
            return false;
        }
        i += 1;
    }
    true
}

/// Check a header value.
#[verifier::loop_isolation(false)]
pub fn check_header_value(s: &[u8]) -> (r: bool)
    ensures
        r == valid_header_value(s@),
{
    let mut i: usize = 0;
    while i < s.len()
        invariant
            0 <= i <= s@.len(),
            forall|j: int| 0 <= j < i ==> (s@[j] == 9 || (32 <= s@[j] && s@[j] <= 126)),
        decreases s@.len() - i,
    {
        let b = s[i];
        if !(b == 9 || (32 <= b && b <= 126)) {
            return false;
        }
        i += 1;
    }
    true
}

/// The value of the first header whose name matches case-insensitively,
/// looking from `i` on.
pub open spec fn sp_find_header(h: Seq<(Seq<u8>, Seq<u8>)>, name: Seq<u8>, i: int) -> Option<
    Seq<u8>,
>
    decreases h.len() - i,
{
    if !(0 <= i < h.len()) {
        Option::None
    } else if lower(h[i].0) == lower(name) {
        Option::Some(h[i].1)
    } else {
        sp_find_header(h, name, i + 1)
    }
}

/// Find a header by name, case-insensitively.
pub fn find_header(h: &Vec<(Vec<u8>, Vec<u8>)>, name: &[u8], i: usize) -> (r: Option<Vec<u8>>)
    requires
        i <= h@.len(),
    ensures
        match r {
            Option::Some(v) => sp_find_header(hdrs_model(h@), name@, i as int) == Option::Some(v@),
            Option::None => sp_find_header(hdrs_model(h@), name@, i as int) is None,
        },
    decreases h@.len() - i,
{
    if i >= h.len() {
        Option::None
    } else if eq_ignore_case(h[i].0.as_slice(), name) {
        Option::Some(copy_bytes(&h[i].1))
    } else {
        find_header(h, name, i + 1)
    }
}

/// The headers from `i` on whose names do not match `name`.
pub open spec fn sp_header_drop(h: Seq<(Seq<u8>, Seq<u8>)>, name: Seq<u8>, i: int) -> Seq<
    (Seq<u8>, Seq<u8>),
>
    decreases h.len() - i,
{
    if !(0 <= i < h.len()) {
        Seq::empty()
    } else if lower(h[i].0) == lower(name) {
        sp_header_drop(h, name, i + 1)
    } else {
        seq![h[i]] + sp_header_drop(h, name, i + 1)
    }
}

/// Drop every header whose name matches `name`, case-insensitively.
pub fn header_drop(h: &Vec<(Vec<u8>, Vec<u8>)>, name: &[u8], i: usize) -> (r: Vec<
    (Vec<u8>, Vec<u8>),
>)
    requires
        i <= h@.len(),
    ensures
        hdrs_model(r@) == sp_header_drop(hdrs_model(h@), name@, i as int),
    decreases h@.len() - i,
{
    if i >= h.len() {
        let r: Vec<(Vec<u8>, Vec<u8>)> = Vec::new();
        proof {
            assert(hdrs_model(r@) =~= sp_header_drop(hdrs_model(h@), name@, i as int));
        }
        return r;
    }
    let mut rest = header_drop(h, name, i + 1);
    if !eq_ignore_case(h[i].0.as_slice(), name) {
        let ghost rest_vec = rest@;
        let pair = (copy_bytes(&h[i].0), copy_bytes(&h[i].1));
        let ghost pair_model = (pair.0@, pair.1@);
        rest.insert(0, pair);
        proof {
            assert(rest@.len() == 1 + rest_vec.len());
            assert forall|j: int| 0 <= j < rest@.len() implies hdrs_model(rest@)[j] == (
            seq![pair_model] + hdrs_model(rest_vec))[j] by {
                if j > 0 {
                    assert(rest@[j] == rest_vec[j - 1]);
                }
            }
            assert(hdrs_model(rest@) =~= seq![pair_model] + hdrs_model(rest_vec));
            assert(hdrs_model(rest@) =~= sp_header_drop(hdrs_model(h@), name@, i as int));
        }
    }
    rest
}

/// Replacing a header: every old occurrence of the name goes, and the new
/// pair stands at the end.
pub open spec fn sp_header_set(
    h: Seq<(Seq<u8>, Seq<u8>)>,
    k: Seq<u8>,
    v: Seq<u8>,
) -> Seq<(Seq<u8>, Seq<u8>)> {
    sp_header_drop(h, k, 0) + seq![(k, v)]
}

/// Header overrides from `i` on, applied left to right; a name or value
/// with illegal bytes stops everything.
pub open spec fn sp_apply_header_ovs(
    h: Seq<(Seq<u8>, Seq<u8>)>,
    ov: Seq<(Seq<u8>, Seq<u8>)>,
    i: int,
) -> Result<Seq<(Seq<u8>, Seq<u8>)>, Error>
    decreases ov.len() - i,
{
    if !(0 <= i < ov.len()) {
        Result::Ok(h)
    } else if !valid_header_name(ov[i].0) || !valid_header_value(ov[i].1) {
        Result::Err(Error::InvalidHeader)
    } else {
        sp_apply_header_ovs(sp_header_set(h, ov[i].0, ov[i].1), ov, i + 1)
    }
}

/// Apply the header overrides from `i` on.
pub fn apply_header_ovs(h: Vec<(Vec<u8>, Vec<u8>)>, ov: &Vec<(Vec<u8>, Vec<u8>)>, i: usize) -> (r:
    Result<Vec<(Vec<u8>, Vec<u8>)>, Error>)
    requires
        i <= ov@.len(),
    ensures
        match r {
            Result::Ok(out) => sp_apply_header_ovs(hdrs_model(h@), hdrs_model(ov@), i as int)
                == Result::<Seq<(Seq<u8>, Seq<u8>)>, Error>::Ok(hdrs_model(out@)),
            Result::Err(e) => sp_apply_header_ovs(hdrs_model(h@), hdrs_model(ov@), i as int)
                == Result::<Seq<(Seq<u8>, Seq<u8>)>, Error>::Err(e),
        },
    decreases ov@.len() - i,
{
    if i >= ov.len() {
        return Result::Ok(h);
    }
    if !check_header_name(ov[i].0.as_slice()) || !check_header_value(ov[i].1.as_slice()) {
        return Result::Err(Error::InvalidHeader);
    }
    let mut h2 = header_drop(&h, ov[i].0.as_slice(), 0);
    let pair = (copy_bytes(&ov[i].0), copy_bytes(&ov[i].1));
    let ghost pair_model = (pair.0@, pair.1@);
    let ghost h2_vec = h2@;
    h2.push(pair);
    proof {
        assert(hdrs_model(h2@) =~= hdrs_model(h2_vec).push(pair_model));
        assert(hdrs_model(h2@) =~= sp_header_set(hdrs_model(h@), ov@[i as int].0@, ov@[
            i as int].1@));
    }
    apply_header_ovs(h2, ov, i + 1)
}

/// The position of the first `;` at or after `i`, or the length.
pub open spec fn sp_upto_semi(s: Seq<u8>, i: int) -> int
    decreases s.len() - i,
{
    if 0 <= i < s.len() && s[i] != 59 {
        sp_upto_semi(s, i + 1)
    } else {
        i
    }
}

/// Scan to the first `;` or the end.
fn upto_semi(s: &[u8], i: usize) -> (r: usize)
    requires
        i <= s@.len(),
    ensures
        i <= r <= s@.len(),
        r == sp_upto_semi(s@, i as int),
    decreases s@.len() - i,
{
    if i < s.len() && s[i] != 59 {
        upto_semi(s, i + 1)
    } else {
        i
    }
}

/// The effective media type of a header list: the first `content-type`
/// value, cut at the first `;` (dropping parameters such as a charset)
/// and lower-cased.
pub open spec fn sp_content_type(h: Seq<(Seq<u8>, Seq<u8>)>) -> Option<Seq<u8>> {
    match sp_find_header(h, ct_name(), 0) {
        Option::None => Option::None,
        Option::Some(v) => Option::Some(lower(v.subrange(0, sp_upto_semi(v, 0)))),
    }
}

/// The effective media type of a header list.
pub fn get_content_type(h: &Vec<(Vec<u8>, Vec<u8>)>) -> (r: Option<Vec<u8>>)
    ensures
        match r {
            Option::Some(v) => sp_content_type(hdrs_model(h@)) == Option::Some(v@),
            Option::None => sp_content_type(hdrs_model(h@)) is None,
        },
{
    let name = ct_name_vec();
    match find_header(h, name.as_slice(), 0) {
        Option::None => Option::None,
        Option::Some(v) => {
            let cut = upto_semi(v.as_slice(), 0);
            let head = sub_vec(v.as_slice(), 0, cut);
            let low = crate::ascii::to_lower_vec(head.as_slice());
            Option::Some(low)
        },
    }
}

/// An override value read as a structured scalar: `true` and `false`
/// become booleans, a complete number lexeme becomes a number, anything
/// else stays a string (escaped into string contents).
pub open spec fn sp_scalar(v: Seq<u8>) -> JVal {
    if v == seq![116u8, 114, 117, 101] {
        JVal::Bool(true)
    } else if v == seq![102u8, 97, 108, 115, 101] {
        JVal::Bool(false)
    } else if sp_num_end(v, 0) == Option::Some(v.len() as int) {
        JVal::Num(v)
    } else {
        JVal::Str(sp_escape(v))
    }
}

/// Read an override value as a structured scalar.
pub fn parse_scalar(v: &[u8]) -> (r: JsonValue)
    ensures
        r@ == sp_scalar(v@),
{
    let t: Vec<u8> = vec![116, 114, 117, 101];
    let f: Vec<u8> = vec![102, 97, 108, 115, 101];
    proof {
        assert(t@ =~= seq![116u8, 114, 117, 101]);
        assert(f@ =~= seq![102u8, 97, 108, 115, 101]);
    }
    if bytes_eq(v, t.as_slice()) {
        JsonValue::Bool(true)
    } else if bytes_eq(v, f.as_slice()) {
        JsonValue::Bool(false)
    } else {
        let is_num = match crate::json::num_end(v, 0) {
            Option::Some(e) => e == v.len(),
            Option::None => false,
        };
        if is_num {
            let lexeme = sub_vec(v, 0, v.len());
            proof {
                assert(lexeme@ =~= v@);
            }
            JsonValue::Num(lexeme)
        } else {
            proof {
                assert(!(sp_num_end(v@, 0) == Option::Some(v@.len() as int)));
            }
            JsonValue::Str(escape_bytes(v))
        }
    }
}

/// Key-value overrides from `i` on, set into an object left to right.
pub open spec fn sp_apply_kv(
    m: Seq<(Seq<u8>, JVal)>,
    ov: Seq<(Seq<u8>, Seq<u8>)>,
    i: int,
) -> Seq<(Seq<u8>, JVal)>
    decreases ov.len() - i,
{
    if !(0 <= i < ov.len()) {
        m
    } else {
        sp_apply_kv(key_set(m, ov[i].0, sp_scalar(ov[i].1)), ov, i + 1)
    }
}

/// Apply key-value overrides from `i` on to an object's members.
pub fn apply_kv(m: &mut Vec<(Vec<u8>, JsonValue)>, ov: &Vec<(Vec<u8>, Vec<u8>)>, i: usize)
    requires
        i <= ov@.len(),
    ensures
        view_obj(final(m)@) == sp_apply_kv(view_obj(old(m)@), hdrs_model(ov@), i as int),
    decreases ov@.len() - i,
{
    if i >= ov.len() {
        return ;
    }
    let k = copy_bytes(&ov[i].0);
    let v = parse_scalar(ov[i].1.as_slice());
    obj_set(m, k, v);
    apply_kv(m, ov, i + 1);
}

/// An uppercase hexadecimal digit for a value below 16.
pub open spec fn hexd(n: u8) -> u8 {
    if n < 10 {
        (48 + n) as u8
    } else {
        (55 + n) as u8
    }
}

/// How one byte is written in form encoding: letters, digits and
/// `* - . _` stand for themselves, a space becomes `+`, anything else
/// `%XX` with uppercase hexadecimal digits.
pub open spec fn form_byte(b: u8) -> Seq<u8> {
    if (48 <= b && b <= 57) || (65 <= b && b <= 90) || (97 <= b && b <= 122) || b == 42 || b == 45
        || b == 46 || b == 95 {
        seq![b]
    } else if b == 32 {
        seq![43u8]
    } else {
        seq![37u8, hexd(b / 16), hexd(b % 16)]
    }
}

/// Form encoding of a byte string.
pub open spec fn sp_urlenc(s: Seq<u8>) -> Seq<u8>
    decreases s.len(),
{
    if s.len() == 0 {
        Seq::empty()
    } else {
        sp_urlenc(s.drop_last()) + form_byte(s.last())
    }
}

/// Form-encode a byte string.
#[verifier::loop_isolation(false)]
pub fn urlenc(s: &[u8], out: &mut Vec<u8>)
    ensures
        final(out)@ == old(out)@ + sp_urlenc(s@),
{
    let mut i: usize = 0;
    while i < s.len()
        invariant
            0 <= i <= s@.len(),
            out@ == old(out)@ + sp_urlenc(s@.take(i as int)),
        decreases s@.len() - i,
    {
        let b = s[i];
        if (48 <= b && b <= 57) || (65 <= b && b <= 90) || (97 <= b && b <= 122) || b == 42 || b
            == 45 || b == 46 || b == 95 {
            out.push(b);
        } else if b == 32 {
            out.push(43);
        } else {
            out.push(37);
            let hi = b / 16;
            let lo = b % 16;
            out.push(if hi < 10 { 48 + hi } else { 55 + hi });
            out.push(if lo < 10 { 48 + lo } else { 55 + lo });
        }
        proof {
            assert(s@.take(i + 1).drop_last() =~= s@.take(i as int));
            assert(s@.take(i + 1).last() == s@[i as int]);
            assert(out@ =~= old(out)@ + sp_urlenc(s@.take(i as int)) + form_byte(s@[i as int]));
        }
        i += 1;
    }
    proof {
        assert(s@.take(s@.len() as int) =~= s@);
    }
}

/// The text a scalar value contributes to a form-encoded body; lists and
/// objects have none.
pub open spec fn sp_scalar_text(v: JVal) -> Option<Seq<u8>> {
    match v {
        JVal::Null => Option::Some(seq![110u8, 117, 108, 108]),
        JVal::Bool(b) => Option::Some(
            if b {
                seq![116u8, 114, 117, 101]
            } else {
                seq![102u8, 97, 108, 115, 101]
            },
        ),
        JVal::Num(s) => Option::Some(s),
        JVal::Str(s) => Option::Some(s),
        JVal::Arr(_) => Option::None,
        JVal::Obj(_) => Option::None,
    }
}

/// The text a scalar value contributes to a form-encoded body.
fn scalar_text(v: &JsonValue) -> (r: Option<Vec<u8>>)
    ensures
        match r {
            Option::Some(t) => sp_scalar_text(v@) == Option::Some(t@),
            Option::None => sp_scalar_text(v@) is None,
        },
{
    match v {
        JsonValue::Null => {
            let t: Vec<u8> = vec![110, 117, 108, 108];
            proof {
                assert(t@ =~= seq![110u8, 117, 108, 108]);
            }
            Option::Some(t)
        },
        JsonValue::Bool(b) => {
            if *b {
                let t: Vec<u8> = vec![116, 114, 117, 101];
                proof {
                    assert(t@ =~= seq![116u8, 114, 117, 101]);
                }
                Option::Some(t)
            } else {
                let t: Vec<u8> = vec![102, 97, 108, 115, 101];
                proof {
                    assert(t@ =~= seq![102u8, 97, 108, 115, 101]);
                }
                Option::Some(t)
            }
        },
        JsonValue::Num(s) => Option::Some(copy_bytes(s)),
        JsonValue::Str(s) => Option::Some(copy_bytes(s)),
        JsonValue::Arr(_) => Option::None,
        JsonValue::Obj(_) => Option::None,
    }
}

/// Form encoding of the members from `i` on: `key=value` pairs joined by
/// `&`; a member whose value is a list or an object has no form encoding.
pub open spec fn sp_form_members(m: Seq<(Seq<u8>, JVal)>, i: int) -> Option<Seq<u8>>
    decreases m.len() - i,
{
    if !(0 <= i < m.len()) {
        Option::Some(Seq::empty())
    } else {
        match sp_scalar_text(m[i].1) {
            Option::None => Option::None,
            Option::Some(t) => match sp_form_members(m, i + 1) {
                Option::None => Option::None,
                Option::Some(rest) => {
                    let pair = sp_urlenc(m[i].0) + seq![61u8] + sp_urlenc(t);
                    Option::Some(
                        if i + 1 < m.len() {
                            pair + seq![38u8] + rest
                        } else {
                            pair
                        },
                    )
                },
            },
        }
    }
}

/// Append the form encoding of the members from `i` on; `false` when a
/// member's value has none. On failure `out` is meaningless and dropped
/// by every caller.
#[verifier::loop_isolation(false)]
fn form_members(m: &Vec<(Vec<u8>, JsonValue)>, i: usize, out: &mut Vec<u8>) -> (ok: bool)
    requires
        i <= m@.len(),
    ensures
        ok ==> (sp_form_members(view_obj(m@), i as int) matches Option::Some(t)
            && final(out)@ == old(out)@ + t),
        !ok ==> sp_form_members(view_obj(m@), i as int) is None,
    decreases m@.len() - i,
{
    proof {
        crate::value::lemma_view_obj(m@);
    }
    if i >= m.len() {
        proof {
            assert(out@ =~= old(out)@ + Seq::<u8>::empty());
        }
        return true;
    }
    match scalar_text(&m[i].1) {
        Option::None => false,
        Option::Some(t) => {
            urlenc(m[i].0.as_slice(), out);
            out.push(61);
            urlenc(t.as_slice(), out);
            if i + 1 < m.len() {
                out.push(38);
                let ok = form_members(m, i + 1, out);
                if !ok {
                    return false;
                }
                proof {
                    let t_all = sp_form_members(view_obj(m@), i as int)->Some_0;
                    assert(out@ =~= old(out)@ + t_all);
                }
                true
            } else {
                proof {
                    let t_all = sp_form_members(view_obj(m@), i as int)->Some_0;
                    assert(out@ =~= old(out)@ + t_all);
                }
                true
            }
        },
    }
}

/// An ASCII letter.
pub open spec fn is_alpha(b: u8) -> bool {
    (65 <= b && b <= 90) || (97 <= b && b <= 122)
}

/// A byte legal inside a URL scheme.
pub open spec fn is_scheme_char(b: u8) -> bool {
    is_alpha(b) || (48 <= b && b <= 57) || b == 43 || b == 45 || b == 46
}

/// The first position at or after `i` holding no scheme byte.
pub open spec fn sp_scheme_end(s: Seq<u8>, i: int) -> int
    decreases s.len() - i,
{
    if 0 <= i < s.len() && is_scheme_char(s[i]) {
        sp_scheme_end(s, i + 1)
    } else {
        i
    }
}

/// An absolute URL as this library understands it: a scheme beginning
/// with a letter, then `://`, then at least one more byte.
pub open spec fn is_absolute_url(s: Seq<u8>) -> bool {
    let k = sp_scheme_end(s, 0);
    1 <= k && s.len() - k > 3 && is_alpha(s[0]) && s[k] == 58 && s[k + 1] == 47 && s[k + 2] == 47
}

/// Check that a URL is absolute.
pub fn check_absolute_url(s: &[u8]) -> (r: bool)
    ensures
        r == is_absolute_url(s@),
{
    let k = scheme_end(s, 0);
    if k >= 1 && s.len() - k > 3 {
        let a = s[0];
        (((65 <= a && a <= 90) || (97 <= a && a <= 122)) && s[k] == 58 && s[k + 1] == 47 && s[k + 2]
            == 47)
    } else {
        false
    }
}

/// Scan to the end of the scheme bytes.
fn scheme_end(s: &[u8], i: usize) -> (r: usize)
    requires
        i <= s@.len(),
    ensures
        i <= r <= s@.len(),
        r == sp_scheme_end(s@, i as int),
    decreases s@.len() - i,
{
    if i < s.len() {
        let b = s[i];
        if (65 <= b && b <= 90) || (97 <= b && b <= 122) || (48 <= b && b <= 57) || b == 43 || b
            == 45 || b == 46 {
            return scheme_end(s, i + 1);
        }
    }
    i
}

/// A request template as the configuration describes it: never mutated;
/// each run works on fresh copies.
#[derive(Debug)]
pub struct RequestProfile {
    /// The HTTP method, `GET` by default.
    pub method: Vec<u8>,
    /// The absolute URL the request goes to.
    pub url: Vec<u8>,
    /// The query template; object-shaped when present.
    pub params: Option<JsonValue>,
    /// The header template, in order; duplicates allowed.
    pub headers: Vec<(Vec<u8>, Vec<u8>)>,
    /// The body template; object-shaped when present.
    pub body: Option<JsonValue>,
}

/// A concrete request, ready to send: final headers, final query object
/// and encoded body.
#[derive(Debug)]
pub struct MergedRequest {
    pub headers: Vec<(Vec<u8>, Vec<u8>)>,
    pub query: JsonValue,
    pub body: Vec<u8>,
}

/// The members of an optional object-shaped value.
pub open spec fn opt_members(o: Option<JsonValue>) -> Seq<(Seq<u8>, JVal)> {
    match o {
        Option::Some(v) => obj_members(v@),
        Option::None => Seq::empty(),
    }
}

impl RequestProfile {
    /// A usable template: an absolute URL and object-shaped templates.
    pub open spec fn wf(&self) -> bool {
        &&& (self.params matches Option::Some(v) ==> v@ is Obj)
        &&& (self.body matches Option::Some(v) ==> v@ is Obj)
        &&& is_absolute_url(self.url@)
    }

    /// What merging produces from this template and the given overrides:
    /// the final headers, the final query object and the encoded body, or
    /// the first error.
    pub open spec fn sp_generate(&self, a: &ExtraArgs) -> Result<
        (Seq<(Seq<u8>, Seq<u8>)>, JVal, Seq<u8>),
        Error,
    > {
        match sp_apply_header_ovs(hdrs_model(self.headers@), hdrs_model(a.headers@), 0) {
            Result::Err(e) => Result::Err(e),
            Result::Ok(h1) => {
                let h2 = if sp_find_header(h1, ct_name(), 0) is Some {
                    h1
                } else {
                    h1 + seq![(ct_name(), app_json())]
                };
                let q = JVal::Obj(sp_apply_kv(opt_members(self.params), hdrs_model(a.query@), 0));
                let bm = sp_apply_kv(opt_members(self.body), hdrs_model(a.body@), 0);
                let ct = sp_content_type(h2);
                if ct == Option::Some(app_json()) {
                    Result::Ok((h2, q, sp_ser(JVal::Obj(bm))))
                } else if ct == Option::Some(app_form()) || ct == Option::Some(multipart_form()) {
                    match sp_form_members(bm, 0) {
                        Option::None => Result::Err(Error::UnsupportedContentType),
                        Option::Some(t) => Result::Ok((h2, q, t)),
                    }
                } else {
                    Result::Err(Error::UnsupportedContentType)
                }
            },
        }
    }

    /// Merge the overrides into this template. The template itself is
    /// read, never changed; every returned structure is fresh.
    pub fn generate(&self, args: &ExtraArgs) -> (r: Result<MergedRequest, Error>)
        requires
            self.wf(),
        ensures
            match r {
                Result::Ok(m) => self.sp_generate(args) == Result::<
                    (Seq<(Seq<u8>, Seq<u8>)>, JVal, Seq<u8>),
                    Error,
                >::Ok((hdrs_model(m.headers@), m.query@, m.body@)),
                Result::Err(e) => self.sp_generate(args) == Result::<
                    (Seq<(Seq<u8>, Seq<u8>)>, JVal, Seq<u8>),
                    Error,
                >::Err(e),
            },
    {
        let base = copy_pairs(&self.headers);
        let mut h1 = match apply_header_ovs(base, &args.headers, 0) {
            Result::Err(e) => {
                return Result::Err(e);
            },
            Result::Ok(h) => h,
        };
        let ctn = ct_name_vec();
        let has_ct = match find_header(&h1, ctn.as_slice(), 0) {
            Option::Some(_) => true,
            Option::None => false,
        };
        if !has_ct {
            let ghost h1_vec = h1@;
            h1.push((ct_name_vec(), app_json_vec()));
            proof {
                assert(hdrs_model(h1@) =~= hdrs_model(h1_vec) + seq![(ct_name(), app_json())]);
            }
        }
        let mut qm: Vec<(Vec<u8>, JsonValue)> = obj_base(&self.params);
        apply_kv(&mut qm, &args.query, 0);
        let mut bm: Vec<(Vec<u8>, JsonValue)> = obj_base(&self.body);
        apply_kv(&mut bm, &args.body, 0);
        let ct = get_content_type(&h1);
        match ct {
            Option::Some(c) => {
                let aj = app_json_vec();
                let af = app_form_vec();
                let mf = multipart_form_vec();
                if bytes_eq(c.as_slice(), aj.as_slice()) {
                    let body_val = JsonValue::Obj(bm);
                    let body_bytes = crate::json::to_json(&body_val);
                    Result::Ok(MergedRequest { headers: h1, query: JsonValue::Obj(qm), body: body_bytes })
                } else if bytes_eq(c.as_slice(), af.as_slice()) || bytes_eq(
                    c.as_slice(),
                    mf.as_slice(),
                ) {
                    let mut body_bytes: Vec<u8> = Vec::new();
                    let ok = form_members(&bm, 0, &mut body_bytes);
                    if ok {
                        Result::Ok(
                            MergedRequest { headers: h1, query: JsonValue::Obj(qm), body: body_bytes },
                        )
                    } else {
                        Result::Err(Error::UnsupportedContentType)
                    }
                } else {
                    Result::Err(Error::UnsupportedContentType)
                }
            },
            Option::None => Result::Err(Error::UnsupportedContentType),
        }
    }
}

/// A fresh copy of the members of an optional object-shaped value; the
/// empty members otherwise.
fn obj_base(o: &Option<JsonValue>) -> (r: Vec<(Vec<u8>, JsonValue)>)
    requires
        o matches Option::Some(v) ==> v@ is Obj,
    ensures
        view_obj(r@) == opt_members(*o),
{
    match o {
        Option::None => {
            let r: Vec<(Vec<u8>, JsonValue)> = Vec::new();
            proof {
                assert(view_obj(r@) =~= Seq::<(Seq<u8>, JVal)>::empty());
            }
            r
        },
        Option::Some(v) => {
            let c = v.duplicate();
            match c {
                JsonValue::Obj(m) => m,
                _ => {
                    proof {
                        assert(false);
                    }
                    Vec::new()
                },
            }
        },
    }
}

/// A fresh copy of a header list.
#[verifier::loop_isolation(false)]
pub fn copy_pairs(h: &Vec<(Vec<u8>, Vec<u8>)>) -> (r: Vec<(Vec<u8>, Vec<u8>)>)
    ensures
        hdrs_model(r@) == hdrs_model(h@),
{
    let mut out: Vec<(Vec<u8>, Vec<u8>)> = Vec::new();
    let mut i: usize = 0;
    while i < h.len()
        invariant
            0 <= i <= h@.len(),
            out@.len() == i,
            forall|j: int| 0 <= j < i ==> out@[j].0@ == h@[j].0@ && out@[j].1@ == h@[j].1@,
        decreases h@.len() - i,
    {
        let k = copy_bytes(&h[i].0);
        let v = copy_bytes(&h[i].1);
        out.push((k, v));
        i += 1;
    }
    proof {
        assert(hdrs_model(out@) =~= hdrs_model(h@));
    }
    out
}
/// A raw response as the transport hands it over: protocol version text,
/// status code, headers in arrival order (duplicates kept), body bytes.
#[derive(Debug)]
pub struct ResponseExt {
    pub version: Vec<u8>,
    pub status: u16,
    pub headers: Vec<(Vec<u8>, Vec<u8>)>,
    pub body: Vec<u8>,
}

/// The rendered header lines from `i` on: `Name: Value` and a line
/// break for every header whose name is outside the skip set, in arrival
/// order.
pub open spec fn sp_header_lines(
    h: Seq<(Seq<u8>, Seq<u8>)>,
    skip: Seq<Seq<u8>>,
    i: int,
) -> Seq<u8>
    decreases h.len() - i,
{
    if !(0 <= i < h.len()) {
        Seq::empty()
    } else if in_list_ci(skip, h[i].0) {
        sp_header_lines(h, skip, i + 1)
    } else {
        h[i].0 + seq![58u8, 32u8] + h[i].1 + seq![10u8] + sp_header_lines(h, skip, i + 1)
    }
}

/// Append the rendered header lines from `i` on.
fn write_header_lines(
    h: &Vec<(Vec<u8>, Vec<u8>)>,
    skip: &Vec<Vec<u8>>,
    i: usize,
    out: &mut Vec<u8>,
)
    requires
        i <= h@.len(),
    ensures
        final(out)@ == old(out)@ + sp_header_lines(hdrs_model(h@), list_model(skip@), i as int),
    decreases h@.len() - i,
{
    if i >= h.len() {
        proof {
            assert(out@ =~= old(out)@ + Seq::<u8>::empty());
        }
        return ;
    }
    if !crate::ascii::list_contains_ci(skip, h[i].0.as_slice()) {
        crate::json::append_bytes(out, h[i].0.as_slice());
        out.push(58);
        out.push(32);
        crate::json::append_bytes(out, h[i].1.as_slice());
        out.push(10);
    }
    write_header_lines(h, skip, i + 1, out);
    proof {
        assert(out@ =~= old(out)@ + sp_header_lines(hdrs_model(h@), list_model(skip@), i as int));
    }
}

/// A value with the skipped top-level keys removed; a value that is not
/// an object is untouched.
pub open spec fn sp_remove_top(v: JVal, skip: Seq<Seq<u8>>) -> JVal {
    match v {
        JVal::Obj(m) => JVal::Obj(crate::value::sp_remove_keys(m, skip)),
        _ => v,
    }
}

/// What body filtering yields on JSON text: the parse with skipped
/// top-level keys removed, brought to canonical form — objects
/// key-sorted, duplicate keys collapsed, at every level — and
/// pretty-rendered. The output is a function of the JSON value, not of
/// the member order in the body bytes; unparsable text is refused.
pub open spec fn sp_filter_json(body: Seq<u8>, skip: Seq<Seq<u8>>) -> Result<Seq<u8>, Error> {
    match crate::json::sp_parse(body) {
        Option::None => Result::Err(Error::MalformedBody),
        Option::Some(v) => Result::Ok(
            crate::json::sp_pretty(crate::canon::sp_canon(sp_remove_top(v, skip)), Seq::empty()),
        ),
    }
}

/// Filter JSON body text: parse it, remove the skipped top-level keys,
/// canonicalize, and render it deterministically.
pub fn filter_json(text: &[u8], skip: &Vec<Vec<u8>>) -> (r: Result<Vec<u8>, Error>)
    ensures
        match r {
            Result::Ok(t) => sp_filter_json(text@, list_model(skip@)) == Result::<
                Seq<u8>,
                Error,
            >::Ok(t@),
            Result::Err(e) => sp_filter_json(text@, list_model(skip@)) == Result::<
                Seq<u8>,
                Error,
            >::Err(e),
        },
{
    match crate::json::parse_json(text) {
        Option::None => Result::Err(Error::MalformedBody),
        Option::Some(v) => {
            let filtered = match v {
                JsonValue::Obj(members) => JsonValue::Obj(
                    crate::value::obj_remove_keys(members, skip),
                ),
                other => other,
            };
            let canonical = filtered.canonical();
            Result::Ok(crate::json::to_json_pretty(&canonical))
        },
    }
}

impl ResponseExt {
    /// The deterministic text form of this response under the given
    /// filtering rules: version and status, then the kept header lines
    /// in arrival order, a blank line, then the filtered body — a JSON
    /// body in canonical form, so its text depends on the JSON value
    /// and not on member order. A function of the response and the
    /// rules alone, so normalizing twice yields byte-identical text.
    pub open spec fn sp_filter_text(&self, p: &crate::config::ResponseProfile) -> Result<
        Seq<u8>,
        Error,
    > {
        let head = self.version@ + seq![32u8] + crate::ascii::dec_digits(self.status as nat)
            + seq![10u8] + sp_header_lines(hdrs_model(self.headers@), list_model(p.skip_headers@), 0)
            + seq![10u8];
        if sp_content_type(hdrs_model(self.headers@)) == Option::Some(app_json()) {
            match sp_filter_json(self.body@, list_model(p.skip_body@)) {
                Result::Err(e) => Result::Err(e),
                Result::Ok(b) => Result::Ok(head + b),
            }
        } else {
            Result::Ok(head + self.body@)
        }
    }

    /// Normalize this response under the given filtering rules.
    pub fn filter_text(&self, profile: &crate::config::ResponseProfile) -> (r: Result<
        Vec<u8>,
        Error,
    >)
        ensures
            match r {
                Result::Ok(t) => self.sp_filter_text(profile) == Result::<Seq<u8>, Error>::Ok(t@),
                Result::Err(e) => self.sp_filter_text(profile) == Result::<Seq<u8>, Error>::Err(e),
            },
    {
        let mut out: Vec<u8> = Vec::new();
        crate::json::append_bytes(&mut out, self.version.as_slice());
        out.push(32);
        crate::ascii::push_decimal(&mut out, self.status);
        out.push(10);
        write_header_lines(&self.headers, &profile.skip_headers, 0, &mut out);
        out.push(10);
        let ghost head = self.version@ + seq![32u8] + crate::ascii::dec_digits(self.status as nat)
            + seq![10u8] + sp_header_lines(
            hdrs_model(self.headers@),
            list_model(profile.skip_headers@),
            0,
        ) + seq![10u8];
        proof {
            assert(out@ =~= head);
        }
        let is_json = match get_content_type(&self.headers) {
            Option::Some(c) => {
                let aj = app_json_vec();
                bytes_eq(c.as_slice(), aj.as_slice())
            },
            Option::None => false,
        };
        if is_json {
            match filter_json(self.body.as_slice(), &profile.skip_body) {
                Result::Err(e) => Result::Err(e),
                Result::Ok(b) => {
                    crate::json::append_bytes(&mut out, b.as_slice());
                    Result::Ok(out)
                },
            }
        } else {
            crate::json::append_bytes(&mut out, self.body.as_slice());
            Result::Ok(out)
        }
    }
}

/// The headers from `i` on whose names are outside the skip set.
pub open spec fn sp_kept_headers(
    h: Seq<(Seq<u8>, Seq<u8>)>,
    skip: Seq<Seq<u8>>,
    i: int,
) -> Seq<(Seq<u8>, Seq<u8>)>
    decreases h.len() - i,
{
    if !(0 <= i < h.len()) {
        Seq::empty()
    } else if in_list_ci(skip, h[i].0) {
        sp_kept_headers(h, skip, i + 1)
    } else {
        seq![h[i]] + sp_kept_headers(h, skip, i + 1)
    }
}

/// Rendering ignores a leading header that was prepended: positions
/// shift by one.
proof fn lemma_lines_shift(
    x: (Seq<u8>, Seq<u8>),
    t: Seq<(Seq<u8>, Seq<u8>)>,
    s: Seq<Seq<u8>>,
    i: int,
)
    requires
        0 <= i <= t.len(),
    ensures
        sp_header_lines(seq![x] + t, s, i + 1) == sp_header_lines(t, s, i),
    decreases t.len() - i,
{
    if i < t.len() {
        lemma_lines_shift(x, t, s, i + 1);
        assert((seq![x] + t)[i + 1] == t[i]);
    }
}

/// The header section of a normalized response is exactly the rendering
/// of the headers whose names are outside the skip set — and none of
/// those names stands in the skip set. A skipped name (`Date`, say, in
/// any letter case) therefore contributes no line, whatever the arrival
/// order.
pub proof fn lemma_skip_headers(h: Seq<(Seq<u8>, Seq<u8>)>, skip: Seq<Seq<u8>>, i: int)
    requires
        0 <= i <= h.len(),
    ensures
        forall|j: int|
            0 <= j < sp_kept_headers(h, skip, i).len() ==> !in_list_ci(
                skip,
                sp_kept_headers(h, skip, i)[j].0,
            ),
        sp_header_lines(h, skip, i) == sp_header_lines(sp_kept_headers(h, skip, i), Seq::empty(), 0),
    decreases h.len() - i,
{
    if i < h.len() {
        lemma_skip_headers(h, skip, i + 1);
        if in_list_ci(skip, h[i].0) {
        } else {
            let kept = sp_kept_headers(h, skip, i);
            let rest = sp_kept_headers(h, skip, i + 1);
            assert(kept == seq![h[i]] + rest);
            assert forall|j: int| 0 <= j < kept.len() implies !in_list_ci(skip, kept[j].0) by {
                if j > 0 {
                    assert(kept[j] == rest[j - 1]);
                }
            }
            lemma_lines_shift(h[i], rest, Seq::empty(), 0);
            assert(kept[0] == h[i]);
            assert(kept.len() > 0);
            assert(!in_list_ci(Seq::empty(), kept[0].0));
            assert(sp_header_lines(kept, Seq::empty(), 0) == kept[0].0 + seq![58u8, 32u8]
                + kept[0].1 + seq![10u8] + sp_header_lines(kept, Seq::empty(), 1));
            assert(sp_header_lines(kept, Seq::empty(), 1) == sp_header_lines(
                rest,
                Seq::empty(),
                0,
            ));
        }
    }
}
} // verus!
