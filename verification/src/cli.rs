//! Command-line shapes and the override token grammar. The surrounding
//! application parses the actual process arguments; the token grammar —
//! `key=value`, with `%` marking a header override and `@` a body
//! override — lives here, verified.

use vstd::prelude::*;

use crate::json::is_ws;
use crate::req::is_alpha;
use crate::{Error, ExtraArgs};

verus! {

/// The whole command line: one action.
#[derive(Debug)]
pub struct Args {
    pub action: Action,
}

/// What the tool is asked to do.
#[derive(Debug)]
pub enum Action {
    /// Compare two responses under a named profile.
    Run(RunArgs),
}

/// The arguments of a run: the profile name, the override tokens, and
/// an optional configuration path.
#[derive(Debug)]
pub struct RunArgs {
    pub profile: Vec<u8>,
    pub extra_params: Vec<KeyVal>,
    pub config: Option<Vec<u8>>,
}

/// Which part of the request an override aims at.
#[derive(Debug, Clone)]
pub enum KeyValType {
    Query,
    Header,
    Body,
}

/// One parsed override token.
#[derive(Debug, Clone)]
pub struct KeyVal {
    pub key_type: KeyValType,
    pub key: Vec<u8>,
    pub value: Vec<u8>,
}

/// The position of the first `b` at or after `i`, or the length.
pub open spec fn sp_find_byte(s: Seq<u8>, b: u8, i: int) -> int
    decreases s.len() - i,
{
    if 0 <= i < s.len() && s[i] != b {
        sp_find_byte(s, b, i + 1)
    } else {
        i
    }
}

/// The first position at or after `i` holding no whitespace.
pub open spec fn sp_trim_start(s: Seq<u8>, i: int) -> int
    decreases s.len() - i,
{
    if 0 <= i < s.len() && is_ws(s[i]) {
        sp_trim_start(s, i + 1)
    } else {
        i
    }
}

/// The end position after dropping trailing whitespace below `e`.
pub open spec fn sp_trim_end(s: Seq<u8>, e: int) -> int
    decreases e,
{
    if 0 < e <= s.len() && is_ws(s[e - 1]) {
        sp_trim_end(s, e - 1)
    } else {
        e
    }
}

/// `s` with leading and trailing whitespace dropped.
pub open spec fn sp_trim(s: Seq<u8>) -> Seq<u8> {
    let a = sp_trim_start(s, 0);
    let b = sp_trim_end(s, s.len() as int);
    if b <= a {
        Seq::empty()
    } else {
        s.subrange(a, b)
    }
}

/// The reading of one override token `key=value`: both sides trimmed; a
/// leading `%` on the key marks a header override, a leading `@` a body
/// override, a leading letter a query override; anything else — no `=`,
/// an empty key, another first byte — is refused.
pub open spec fn sp_parse_key_val(s: Seq<u8>) -> Result<(KeyValType, Seq<u8>, Seq<u8>), Error> {
    let eq = sp_find_byte(s, 61, 0);
    if eq >= s.len() {
        Result::Err(Error::InvalidOverride)
    } else {
        let key = sp_trim(s.subrange(0, eq));
        let value = sp_trim(s.subrange(eq + 1, s.len() as int));
        if key.len() == 0 {
            Result::Err(Error::InvalidOverride)
        } else if key[0] == 37 {  // '%'
            Result::Ok((KeyValType::Header, key.subrange(1, key.len() as int), value))
        } else if key[0] == 64 {  // '@'
            Result::Ok((KeyValType::Body, key.subrange(1, key.len() as int), value))
        } else if is_alpha(key[0]) {
            Result::Ok((KeyValType::Query, key, value))
        } else {
            Result::Err(Error::InvalidOverride)
        }
    }
}

/// Scan to the first `b` or the end.
fn find_byte(s: &[u8], b: u8, i: usize) -> (r: usize)
    requires
        i <= s@.len(),
    ensures
        i <= r <= s@.len(),
        r == sp_find_byte(s@, b, i as int),
    decreases s@.len() - i,
{
    if i < s.len() && s[i] != b {
        find_byte(s, b, i + 1)
    } else {
        i
    }
}

/// Scan over leading whitespace.
fn trim_start(s: &[u8], i: usize) -> (r: usize)
    requires
        i <= s@.len(),
    ensures
        i <= r <= s@.len(),
        r == sp_trim_start(s@, i as int),
    decreases s@.len() - i,
{
    if i < s.len() {
        let b = s[i];
        if b == 32 || b == 9 || b == 10 || b == 13 {
            return trim_start(s, i + 1);
        }
    }
    i
}

/// Scan back over trailing whitespace.
fn trim_end(s: &[u8], e: usize) -> (r: usize)
    requires
        e <= s@.len(),
    ensures
        r <= e,
        r == sp_trim_end(s@, e as int),
    decreases e,
{
    if e > 0 {
        let b = s[e - 1];
        if b == 32 || b == 9 || b == 10 || b == 13 {
            return trim_end(s, e - 1);
        }
    }
    e
}

/// A trimmed copy of `s`.
fn trim(s: &[u8]) -> (r: Vec<u8>)
    ensures
        r@ == sp_trim(s@),
{
    let a = trim_start(s, 0);
    let b = trim_end(s, s.len());
    if b <= a {
        let r: Vec<u8> = Vec::new();
        proof {
            assert(r@ =~= Seq::<u8>::empty());
        }
        r
    } else {
        crate::json::sub_vec(s, a, b)
    }
}

/// Read one override token.
pub fn parse_key_val(s: &[u8]) -> (r: Result<KeyVal, Error>)
    ensures
        match r {
            Result::Ok(kv) => sp_parse_key_val(s@) == Result::<
                (KeyValType, Seq<u8>, Seq<u8>),
                Error,
            >::Ok((kv.key_type, kv.key@, kv.value@)),
            Result::Err(e) => sp_parse_key_val(s@) == Result::<
                (KeyValType, Seq<u8>, Seq<u8>),
                Error,
            >::Err(e),
        },
{
    let eq = find_byte(s, 61, 0);
    if eq >= s.len() {
        return Result::Err(Error::InvalidOverride);
    }
    let key_part = crate::json::sub_vec(s, 0, eq);
    let val_part = crate::json::sub_vec(s, eq + 1, s.len());
    let key = trim(key_part.as_slice());
    let value = trim(val_part.as_slice());
    if key.len() == 0 {
        return Result::Err(Error::InvalidOverride);
    }
    let first = key[0];
    if first == 37 {
        let stripped = crate::json::sub_vec(key.as_slice(), 1, key.len());
        Result::Ok(KeyVal { key_type: KeyValType::Header, key: stripped, value })
    } else if first == 64 {
        let stripped = crate::json::sub_vec(key.as_slice(), 1, key.len());
        Result::Ok(KeyVal { key_type: KeyValType::Body, key: stripped, value })
    } else if (65 <= first && first <= 90) || (97 <= first && first <= 122) {
        Result::Ok(KeyVal { key_type: KeyValType::Query, key, value })
    } else {
        Result::Err(Error::InvalidOverride)
    }
}

/// The (key, value) pairs of the tokens from `i` on aimed at `t`, in
/// order.
pub open spec fn sp_select(args: Seq<KeyVal>, t: KeyValType, i: int) -> Seq<(Seq<u8>, Seq<u8>)>
    decreases args.len() - i,
{
    if !(0 <= i < args.len()) {
        Seq::empty()
    } else {
        let rest = sp_select(args, t, i + 1);
        if args[i].key_type == t {
            seq![(args[i].key@, args[i].value@)] + rest
        } else {
            rest
        }
    }
}

/// The pairs of the tokens from `i` on aimed at `t`.
fn select(args: &Vec<KeyVal>, t: &KeyValType, i: usize) -> (r: Vec<(Vec<u8>, Vec<u8>)>)
    requires
        i <= args@.len(),
    ensures
        crate::req::hdrs_model(r@) == sp_select(args@, *t, i as int),
    decreases args@.len() - i,
{
    if i >= args.len() {
        let r: Vec<(Vec<u8>, Vec<u8>)> = Vec::new();
        proof {
            assert(crate::req::hdrs_model(r@) =~= sp_select(args@, *t, i as int));
        }
        return r;
    }
    let mut rest = select(args, t, i + 1);
    let matches_t = match (&args[i].key_type, t) {
        (KeyValType::Query, KeyValType::Query) => true,
        (KeyValType::Header, KeyValType::Header) => true,
        (KeyValType::Body, KeyValType::Body) => true,
        _ => false,
    };
    if matches_t {
        let ghost rest_vec = rest@;
        let pair = (
            crate::value::copy_bytes(&args[i].key),
            crate::value::copy_bytes(&args[i].value),
        );
        let ghost pair_model = (pair.0@, pair.1@);
        rest.insert(0, pair);
        proof {
            assert forall|j: int| 0 <= j < rest@.len() implies crate::req::hdrs_model(rest@)[j]
                == (seq![pair_model] + crate::req::hdrs_model(rest_vec))[j] by {
                if j > 0 {
                    assert(rest@[j] == rest_vec[j - 1]);
                }
            }
            assert(crate::req::hdrs_model(rest@) =~= sp_select(args@, *t, i as int));
        }
    }
    rest
}

impl ExtraArgs {
    /// Sort the parsed tokens into the three override lists, keeping
    /// each list's order of appearance.
    pub fn from_key_vals(args: Vec<KeyVal>) -> (r: ExtraArgs)
        ensures
            crate::req::hdrs_model(r.headers@) == sp_select(args@, KeyValType::Header, 0),
            crate::req::hdrs_model(r.query@) == sp_select(args@, KeyValType::Query, 0),
            crate::req::hdrs_model(r.body@) == sp_select(args@, KeyValType::Body, 0),
    {
        let headers = select(&args, &KeyValType::Header, 0);
        let query = select(&args, &KeyValType::Query, 0);
        let body = select(&args, &KeyValType::Body, 0);
        ExtraArgs { headers, query, body }
    }
}

} // verus!
