//! Configuration: named profiles, each a pair of request templates plus
//! response-filtering rules. Loading text from disk and decoding the
//! configuration syntax live outside; this module holds the shapes and the
//! lookup, and the value form a configuration round-trips through.

use vstd::prelude::*;

use crate::req::RequestProfile;

verus! {

/// Which parts of a response stay out of the comparison: header names
/// (matched case-insensitively) and top-level body keys (matched
/// exactly).
#[derive(Debug)]
pub struct ResponseProfile {
    pub skip_headers: Vec<Vec<u8>>,
    pub skip_body: Vec<Vec<u8>>,
}

/// One named comparison: two request templates and the shared filtering
/// rules for both responses.
#[derive(Debug)]
pub struct DiffProfile {
    pub request1: RequestProfile,
    pub request2: RequestProfile,
    pub response: ResponseProfile,
}

/// The whole configuration: profiles by name, unique within a
/// configuration, immutable after load.
#[derive(Debug)]
pub struct DiffConfig {
    pub profiles: Vec<(Vec<u8>, DiffProfile)>,
}

/// The index of the first profile under `name`, looking from `i` on.
pub open spec fn sp_find_profile(ps: Seq<(Vec<u8>, DiffProfile)>, name: Seq<u8>, i: int) -> Option<
    int,
>
    decreases ps.len() - i,
{
    if !(0 <= i < ps.len()) {
        Option::None
    } else if ps[i].0@ == name {
        Option::Some(i)
    } else {
        sp_find_profile(ps, name, i + 1)
    }
}

impl DiffConfig {
    /// Profile names are unique within a loaded configuration.
    pub open spec fn wf(&self) -> bool {
        forall|i: int, j: int|
            0 <= i < j < self.profiles@.len() ==> self.profiles@[i].0@ != self.profiles@[j].0@
    }

    /// Look a profile up by its exact name.
    pub fn get_profile(&self, name: &[u8]) -> (r: Option<&DiffProfile>)
        ensures
            match r {
                Option::Some(p) => sp_find_profile(self.profiles@, name@, 0) matches Option::Some(j)
                    && *p == self.profiles@[j].1,
                Option::None => sp_find_profile(self.profiles@, name@, 0) is None,
            },
    {
        self.find_from(name, 0)
    }

    /// Look a profile up from position `i` on.
    fn find_from(&self, name: &[u8], i: usize) -> (r: Option<&DiffProfile>)
        requires
            i <= self.profiles@.len(),
        ensures
            match r {
                Option::Some(p) => sp_find_profile(self.profiles@, name@, i as int)
                    matches Option::Some(j) && *p == self.profiles@[j].1,
                Option::None => sp_find_profile(self.profiles@, name@, i as int) is None,
            },
        decreases self.profiles@.len() - i,
    {
        if i >= self.profiles.len() {
            Option::None
        } else if crate::bytes_eq(self.profiles[i].0.as_slice(), name) {
            Option::Some(&self.profiles[i].1)
        } else {
            self.find_from(name, i + 1)
        }
    }
}

/// The fail-fast decision after the first exchange.
#[derive(Debug)]
pub enum NextStep {
    /// The first exchange succeeded: here is its response, dispatch the
    /// second request now.
    DispatchSecond(crate::req::ResponseExt),
    /// The first exchange failed: abort with its error; the second
    /// request is never dispatched.
    Abort(crate::Error),
}

/// Decide what follows the first exchange: a failure aborts the run at
/// once, so no second request is ever sent after a first-side error.
pub fn after_first(outcome: Result<crate::req::ResponseExt, crate::Error>) -> (r: NextStep)
    ensures
        match outcome {
            Result::Ok(resp) => r == NextStep::DispatchSecond(resp),
            Result::Err(e) => r == NextStep::Abort(e),
        },
{
    match outcome {
        Result::Ok(resp) => NextStep::DispatchSecond(resp),
        Result::Err(e) => NextStep::Abort(e),
    }
}

impl DiffProfile {
    /// Both templates are usable.
    pub open spec fn wf(&self) -> bool {
        self.request1.wf() && self.request2.wf()
    }

    /// Merge the same overrides into both templates, fail-fast: an error
    /// in the first merge hides the second.
    pub fn prepare(&self, args: &crate::ExtraArgs) -> (r: Result<
        (crate::req::MergedRequest, crate::req::MergedRequest),
        crate::Error,
    >)
        requires
            self.wf(),
        ensures
            match r {
                Result::Ok((m1, m2)) => self.request1.sp_generate(args) == Result::<
                    (Seq<(Seq<u8>, Seq<u8>)>, crate::JVal, Seq<u8>),
                    crate::Error,
                >::Ok((crate::req::hdrs_model(m1.headers@), m1.query@, m1.body@))
                    && self.request2.sp_generate(args) == Result::<
                    (Seq<(Seq<u8>, Seq<u8>)>, crate::JVal, Seq<u8>),
                    crate::Error,
                >::Ok((crate::req::hdrs_model(m2.headers@), m2.query@, m2.body@)),
                Result::Err(e) => self.request1.sp_generate(args) == Result::<
                    (Seq<(Seq<u8>, Seq<u8>)>, crate::JVal, Seq<u8>),
                    crate::Error,
                >::Err(e) || (self.request1.sp_generate(args) is Ok && self.request2.sp_generate(
                    args,
                ) == Result::<(Seq<(Seq<u8>, Seq<u8>)>, crate::JVal, Seq<u8>), crate::Error>::Err(
                    e,
                )),
            },
    {
        let m1 = match self.request1.generate(args) {
            Result::Err(e) => {
                return Result::Err(e);
            },
            Result::Ok(m) => m,
        };
        let m2 = match self.request2.generate(args) {
            Result::Err(e) => {
                return Result::Err(e);
            },
            Result::Ok(m) => m,
        };
        Result::Ok((m1, m2))
    }

    /// What comparing two raw responses yields under this profile's
    /// filtering rules: the first normalization error wins, else the
    /// line diff of the two normalized texts.
    pub open spec fn sp_diff_responses(
        &self,
        r1: &crate::req::ResponseExt,
        r2: &crate::req::ResponseExt,
    ) -> Result<Seq<u8>, crate::Error> {
        match r1.sp_filter_text(&self.response) {
            Result::Err(e) => Result::Err(e),
            Result::Ok(t1) => match r2.sp_filter_text(&self.response) {
                Result::Err(e) => Result::Err(e),
                Result::Ok(t2) => Result::Ok(crate::textdiff::sp_diff(t1, t2)),
            },
        }
    }

    /// Normalize both responses with the shared rules and compare them
    /// line by line.
    pub fn diff_responses(&self, r1: &crate::req::ResponseExt, r2: &crate::req::ResponseExt) -> (r:
        Result<Vec<u8>, crate::Error>)
        ensures
            match r {
                Result::Ok(t) => self.sp_diff_responses(r1, r2) == Result::<
                    Seq<u8>,
                    crate::Error,
                >::Ok(t@),
                Result::Err(e) => self.sp_diff_responses(r1, r2) == Result::<
                    Seq<u8>,
                    crate::Error,
                >::Err(e),
            },
    {
        let t1 = match r1.filter_text(&self.response) {
            Result::Err(e) => {
                return Result::Err(e);
            },
            Result::Ok(t) => t,
        };
        let t2 = match r2.filter_text(&self.response) {
            Result::Err(e) => {
                return Result::Err(e);
            },
            Result::Ok(t) => t,
        };
        Result::Ok(crate::textdiff::diff_text(t1.as_slice(), t2.as_slice()))
    }
}
/// The configuration key `method`.
pub open spec fn k_method() -> Seq<u8> {
    seq![109u8, 101, 116, 104, 111, 100]
}

/// The configuration key `url`.
pub open spec fn k_url() -> Seq<u8> {
    seq![117u8, 114, 108]
}

/// The configuration key `params`.
pub open spec fn k_params() -> Seq<u8> {
    seq![112u8, 97, 114, 97, 109, 115]
}

/// The configuration key `headers`.
pub open spec fn k_headers() -> Seq<u8> {
    seq![104u8, 101, 97, 100, 101, 114, 115]
}

/// The configuration key `body`.
pub open spec fn k_body() -> Seq<u8> {
    seq![98u8, 111, 100, 121]
}

/// The configuration key `request1`.
pub open spec fn k_request1() -> Seq<u8> {
    seq![114u8, 101, 113, 117, 101, 115, 116, 49]
}

/// The configuration key `request2`.
pub open spec fn k_request2() -> Seq<u8> {
    seq![114u8, 101, 113, 117, 101, 115, 116, 50]
}

/// The configuration key `response`.
pub open spec fn k_response() -> Seq<u8> {
    seq![114u8, 101, 115, 112, 111, 110, 115, 101]
}

/// The configuration key `skip_headers`.
pub open spec fn k_skip_headers() -> Seq<u8> {
    seq![115u8, 107, 105, 112, 95, 104, 101, 97, 100, 101, 114, 115]
}

/// The configuration key `skip_body`.
pub open spec fn k_skip_body() -> Seq<u8> {
    seq![115u8, 107, 105, 112, 95, 98, 111, 100, 121]
}

/// The default method `GET`.
pub open spec fn default_method() -> Seq<u8> {
    seq![71u8, 69, 84]
}

/// A list of byte strings as a list of string values.
pub open spec fn sp_strs_to_arr(l: Seq<Seq<u8>>) -> Seq<crate::JVal>
    decreases l.len(),
{
    if l.len() == 0 {
        Seq::empty()
    } else {
        seq![crate::JVal::Str(l[0])] + sp_strs_to_arr(l.drop_first())
    }
}

/// A list of values read back as byte strings; a non-string refuses.
pub open spec fn sp_arr_to_strs(a: Seq<crate::JVal>) -> Option<Seq<Seq<u8>>>
    decreases a.len(),
{
    if a.len() == 0 {
        Option::Some(Seq::empty())
    } else {
        match a[0] {
            crate::JVal::Str(s) => match sp_arr_to_strs(a.drop_first()) {
                Option::None => Option::None,
                Option::Some(rest) => Option::Some(seq![s] + rest),
            },
            _ => Option::None,
        }
    }
}

/// Writing strings out and reading them back is the identity.
pub proof fn lemma_strs_round(l: Seq<Seq<u8>>)
    ensures
        sp_arr_to_strs(sp_strs_to_arr(l)) == Option::Some(l),
    decreases l.len(),
{
    if l.len() > 0 {
        lemma_strs_round(l.drop_first());
        let a = sp_strs_to_arr(l);
        assert(a.drop_first() =~= sp_strs_to_arr(l.drop_first()));
        assert(seq![l[0]] + l.drop_first() =~= l);
    }
}

/// A header list as an object of string values.
pub open spec fn sp_hdrs_to_obj(h: Seq<(Seq<u8>, Seq<u8>)>) -> Seq<(Seq<u8>, crate::JVal)>
    decreases h.len(),
{
    if h.len() == 0 {
        Seq::empty()
    } else {
        seq![(h[0].0, crate::JVal::Str(h[0].1))] + sp_hdrs_to_obj(h.drop_first())
    }
}

/// An object read back as a header list; a non-string value refuses.
pub open spec fn sp_obj_to_hdrs(m: Seq<(Seq<u8>, crate::JVal)>) -> Option<Seq<(Seq<u8>, Seq<u8>)>>
    decreases m.len(),
{
    if m.len() == 0 {
        Option::Some(Seq::empty())
    } else {
        match m[0].1 {
            crate::JVal::Str(s) => match sp_obj_to_hdrs(m.drop_first()) {
                Option::None => Option::None,
                Option::Some(rest) => Option::Some(seq![(m[0].0, s)] + rest),
            },
            _ => Option::None,
        }
    }
}

/// Writing headers out and reading them back is the identity.
pub proof fn lemma_hdrs_round(h: Seq<(Seq<u8>, Seq<u8>)>)
    ensures
        sp_obj_to_hdrs(sp_hdrs_to_obj(h)) == Option::Some(h),
    decreases h.len(),
{
    if h.len() > 0 {
        lemma_hdrs_round(h.drop_first());
        let m = sp_hdrs_to_obj(h);
        assert(m.drop_first() =~= sp_hdrs_to_obj(h.drop_first()));
        assert(seq![(h[0].0, h[0].1)] + h.drop_first() =~= h);
    }
}

/// An optional object template as a stored value: absent is null.
pub open spec fn opt_val(o: Option<crate::JsonValue>) -> crate::JVal {
    match o {
        Option::Some(v) => v@,
        Option::None => crate::JVal::Null,
    }
}

/// The model of an optional object template.
pub open spec fn opt_model(o: Option<crate::JsonValue>) -> Option<crate::JVal> {
    match o {
        Option::Some(v) => Option::Some(v@),
        Option::None => Option::None,
    }
}

/// The model of a request template: method, url, optional params
/// object, headers, optional body object.
pub open spec fn req_model(p: RequestProfile) -> (
    Seq<u8>,
    Seq<u8>,
    Option<crate::JVal>,
    Seq<(Seq<u8>, Seq<u8>)>,
    Option<crate::JVal>,
) {
    (
        p.method@,
        p.url@,
        opt_model(p.params),
        crate::req::hdrs_model(p.headers@),
        opt_model(p.body),
    )
}

/// A request template written as a structured value: every field under
/// its key, absent templates as null, headers as an object of strings.
pub open spec fn sp_req_value(p: RequestProfile) -> crate::JVal {
    crate::JVal::Obj(
        seq![
            (k_method(), crate::JVal::Str(p.method@)),
            (k_url(), crate::JVal::Str(p.url@)),
            (k_params(), opt_val(p.params)),
            (k_headers(), crate::JVal::Obj(sp_hdrs_to_obj(crate::req::hdrs_model(p.headers@)))),
            (k_body(), opt_val(p.body)),
        ],
    )
}

/// A request template read back from a structured value. The url is
/// required and must be absolute; the method defaults to `GET`; params
/// and body must be objects or null when present; headers an object of
/// strings.
pub open spec fn sp_req_from(v: crate::JVal) -> Result<
    (Seq<u8>, Seq<u8>, Option<crate::JVal>, Seq<(Seq<u8>, Seq<u8>)>, Option<crate::JVal>),
    crate::Error,
> {
    if !(v is Obj) {
        Result::Err(crate::Error::MalformedConfig)
    } else {
        let m = crate::value::obj_members(v);
        let method_r = match crate::value::key_lookup(m, k_method()) {
            Option::None => Result::Ok(default_method()),
            Option::Some(crate::JVal::Str(s)) => Result::Ok(s),
            Option::Some(_) => Result::Err(crate::Error::MalformedConfig),
        };
        let params_r = match crate::value::key_lookup(m, k_params()) {
            Option::None => Result::Ok(Option::<crate::JVal>::None),
            Option::Some(crate::JVal::Null) => Result::Ok(Option::<crate::JVal>::None),
            Option::Some(crate::JVal::Obj(pm)) => Result::Ok(
                Option::Some(crate::JVal::Obj(pm)),
            ),
            Option::Some(_) => Result::Err(crate::Error::MalformedConfig),
        };
        let headers_r = match crate::value::key_lookup(m, k_headers()) {
            Option::None => Result::Ok(Seq::<(Seq<u8>, Seq<u8>)>::empty()),
            Option::Some(crate::JVal::Obj(hm)) => match sp_obj_to_hdrs(hm) {
                Option::Some(h) => Result::Ok(h),
                Option::None => Result::Err(crate::Error::MalformedConfig),
            },
            Option::Some(_) => Result::Err(crate::Error::MalformedConfig),
        };
        let body_r = match crate::value::key_lookup(m, k_body()) {
            Option::None => Result::Ok(Option::<crate::JVal>::None),
            Option::Some(crate::JVal::Null) => Result::Ok(Option::<crate::JVal>::None),
            Option::Some(crate::JVal::Obj(bm)) => Result::Ok(
                Option::Some(crate::JVal::Obj(bm)),
            ),
            Option::Some(_) => Result::Err(crate::Error::MalformedConfig),
        };
        match (crate::value::key_lookup(m, k_url()), method_r, params_r, headers_r, body_r) {
            (
                Option::Some(crate::JVal::Str(u)),
                Result::Ok(method),
                Result::Ok(params),
                Result::Ok(headers),
                Result::Ok(body),
            ) => {
                if crate::req::is_absolute_url(u) {
                    Result::Ok((method, u, params, headers, body))
                } else {
                    Result::Err(crate::Error::MalformedConfig)
                }
            },
            _ => Result::Err(crate::Error::MalformedConfig),
        }
    }
}

/// Writing a usable request template out and reading it back yields the
/// same template, field for field.
pub proof fn lemma_req_round(p: RequestProfile)
    requires
        p.wf(),
    ensures
        sp_req_from(sp_req_value(p)) == Result::<
            (Seq<u8>, Seq<u8>, Option<crate::JVal>, Seq<(Seq<u8>, Seq<u8>)>, Option<crate::JVal>),
            crate::Error,
        >::Ok(req_model(p)),
{
    let m = crate::value::obj_members(sp_req_value(p));
    assert(k_method() != k_url());
    assert(k_params()[0] != k_method()[0]);
    assert(k_params() != k_method());
    assert(k_params() != k_url());
    assert(k_headers() != k_method() && k_headers() != k_url() && k_headers() != k_params());
    assert(k_body() != k_method() && k_body() != k_url() && k_body() != k_params() && k_body()
        != k_headers());
    crate::value::lemma_key_lookup_first(m, k_method(), 0);
    crate::value::lemma_key_lookup_first(m, k_url(), 1);
    crate::value::lemma_key_lookup_first(m, k_params(), 2);
    crate::value::lemma_key_lookup_first(m, k_headers(), 3);
    crate::value::lemma_key_lookup_first(m, k_body(), 4);
    lemma_hdrs_round(crate::req::hdrs_model(p.headers@));
    match p.params {
        Option::Some(v) => {
            assert(v@ is Obj);
        },
        Option::None => {},
    }
    match p.body {
        Option::Some(v) => {
            assert(v@ is Obj);
        },
        Option::None => {},
    }
}
/// Filtering rules written as a structured value: two string lists.
pub open spec fn sp_resp_value(p: ResponseProfile) -> crate::JVal {
    crate::JVal::Obj(
        seq![
            (k_skip_headers(), crate::JVal::Arr(sp_strs_to_arr(crate::req::list_model(p.skip_headers@)))),
            (k_skip_body(), crate::JVal::Arr(sp_strs_to_arr(crate::req::list_model(p.skip_body@)))),
        ],
    )
}

/// Filtering rules read back from a structured value; absent lists are
/// empty.
pub open spec fn sp_resp_from(v: crate::JVal) -> Result<
    (Seq<Seq<u8>>, Seq<Seq<u8>>),
    crate::Error,
> {
    if !(v is Obj) {
        Result::Err(crate::Error::MalformedConfig)
    } else {
        let m = crate::value::obj_members(v);
        let sh_r = match crate::value::key_lookup(m, k_skip_headers()) {
            Option::None => Result::Ok(Seq::<Seq<u8>>::empty()),
            Option::Some(crate::JVal::Arr(a)) => match sp_arr_to_strs(a) {
                Option::Some(l) => Result::Ok(l),
                Option::None => Result::Err(crate::Error::MalformedConfig),
            },
            Option::Some(_) => Result::Err(crate::Error::MalformedConfig),
        };
        let sb_r = match crate::value::key_lookup(m, k_skip_body()) {
            Option::None => Result::Ok(Seq::<Seq<u8>>::empty()),
            Option::Some(crate::JVal::Arr(a)) => match sp_arr_to_strs(a) {
                Option::Some(l) => Result::Ok(l),
                Option::None => Result::Err(crate::Error::MalformedConfig),
            },
            Option::Some(_) => Result::Err(crate::Error::MalformedConfig),
        };
        match (sh_r, sb_r) {
            (Result::Ok(sh), Result::Ok(sb)) => Result::Ok((sh, sb)),
            _ => Result::Err(crate::Error::MalformedConfig),
        }
    }
}

/// Writing filtering rules out and reading them back yields the same
/// rules.
pub proof fn lemma_resp_round(p: ResponseProfile)
    ensures
        sp_resp_from(sp_resp_value(p)) == Result::<
            (Seq<Seq<u8>>, Seq<Seq<u8>>),
            crate::Error,
        >::Ok((crate::req::list_model(p.skip_headers@), crate::req::list_model(p.skip_body@))),
{
    let m = crate::value::obj_members(sp_resp_value(p));
    assert(k_skip_headers() != k_skip_body());
    crate::value::lemma_key_lookup_first(m, k_skip_headers(), 0);
    crate::value::lemma_key_lookup_first(m, k_skip_body(), 1);
    lemma_strs_round(crate::req::list_model(p.skip_headers@));
    lemma_strs_round(crate::req::list_model(p.skip_body@));
}

/// One comparison written as a structured value.
pub open spec fn sp_profile_value(p: DiffProfile) -> crate::JVal {
    crate::JVal::Obj(
        seq![
            (k_request1(), sp_req_value(p.request1)),
            (k_request2(), sp_req_value(p.request2)),
            (k_response(), sp_resp_value(p.response)),
        ],
    )
}

/// The model of one comparison.
pub open spec fn profile_model(p: DiffProfile) -> (
    (Seq<u8>, Seq<u8>, Option<crate::JVal>, Seq<(Seq<u8>, Seq<u8>)>, Option<crate::JVal>),
    (Seq<u8>, Seq<u8>, Option<crate::JVal>, Seq<(Seq<u8>, Seq<u8>)>, Option<crate::JVal>),
    (Seq<Seq<u8>>, Seq<Seq<u8>>),
) {
    (req_model(p.request1), req_model(p.request2), (
        crate::req::list_model(p.response.skip_headers@),
        crate::req::list_model(p.response.skip_body@),
    ))
}

/// One comparison read back: both request templates are required; the
/// filtering rules default to empty.
pub open spec fn sp_profile_from(v: crate::JVal) -> Result<
    (
        (Seq<u8>, Seq<u8>, Option<crate::JVal>, Seq<(Seq<u8>, Seq<u8>)>, Option<crate::JVal>),
        (Seq<u8>, Seq<u8>, Option<crate::JVal>, Seq<(Seq<u8>, Seq<u8>)>, Option<crate::JVal>),
        (Seq<Seq<u8>>, Seq<Seq<u8>>),
    ),
    crate::Error,
> {
    if !(v is Obj) {
        Result::Err(crate::Error::MalformedConfig)
    } else {
        let m = crate::value::obj_members(v);
        let r1_r = match crate::value::key_lookup(m, k_request1()) {
            Option::Some(rv) => sp_req_from(rv),
            Option::None => Result::Err(crate::Error::MalformedConfig),
        };
        let r2_r = match crate::value::key_lookup(m, k_request2()) {
            Option::Some(rv) => sp_req_from(rv),
            Option::None => Result::Err(crate::Error::MalformedConfig),
        };
        let resp_r = match crate::value::key_lookup(m, k_response()) {
            Option::None => Result::Ok((Seq::<Seq<u8>>::empty(), Seq::<Seq<u8>>::empty())),
            Option::Some(rv) => sp_resp_from(rv),
        };
        match (r1_r, r2_r, resp_r) {
            (Result::Ok(r1), Result::Ok(r2), Result::Ok(resp)) => Result::Ok((r1, r2, resp)),
            _ => Result::Err(crate::Error::MalformedConfig),
        }
    }
}

/// Writing one comparison out and reading it back yields the same
/// profiles, field for field.
pub proof fn lemma_profile_round(p: DiffProfile)
    requires
        p.wf(),
    ensures
        sp_profile_from(sp_profile_value(p)) == Result::<
            (
                (Seq<u8>, Seq<u8>, Option<crate::JVal>, Seq<(Seq<u8>, Seq<u8>)>, Option<
                    crate::JVal,
                >),
                (Seq<u8>, Seq<u8>, Option<crate::JVal>, Seq<(Seq<u8>, Seq<u8>)>, Option<
                    crate::JVal,
                >),
                (Seq<Seq<u8>>, Seq<Seq<u8>>),
            ),
            crate::Error,
        >::Ok(profile_model(p)),
{
    let m = crate::value::obj_members(sp_profile_value(p));
    assert(k_request1()[7] != k_request2()[7]);
    assert(k_request1() != k_request2());
    assert(k_request1()[2] != k_response()[2]);
    assert(k_request1() != k_response());
    assert(k_request2()[2] != k_response()[2]);
    assert(k_request2() != k_response());
    crate::value::lemma_key_lookup_first(m, k_request1(), 0);
    crate::value::lemma_key_lookup_first(m, k_request2(), 1);
    crate::value::lemma_key_lookup_first(m, k_response(), 2);
    lemma_req_round(p.request1);
    lemma_req_round(p.request2);
    lemma_resp_round(p.response);
}

/// A whole configuration written as a structured value: an object of
/// profiles under their names, in order.
pub open spec fn sp_profiles_value(ps: Seq<(Vec<u8>, DiffProfile)>) -> Seq<(Seq<u8>, crate::JVal)>
    decreases ps.len(),
{
    if ps.len() == 0 {
        Seq::empty()
    } else {
        seq![(ps[0].0@, sp_profile_value(ps[0].1))] + sp_profiles_value(ps.drop_first())
    }
}

/// The model of a whole configuration.
pub open spec fn config_model(c: DiffConfig) -> Seq<
    (
        Seq<u8>,
        (
            (Seq<u8>, Seq<u8>, Option<crate::JVal>, Seq<(Seq<u8>, Seq<u8>)>, Option<crate::JVal>),
            (Seq<u8>, Seq<u8>, Option<crate::JVal>, Seq<(Seq<u8>, Seq<u8>)>, Option<crate::JVal>),
            (Seq<Seq<u8>>, Seq<Seq<u8>>),
        ),
    ),
> {
    Seq::new(c.profiles@.len(), |i: int| (c.profiles@[i].0@, profile_model(c.profiles@[i].1)))
}

/// Profiles read back, member by member.
pub open spec fn sp_profiles_from(m: Seq<(Seq<u8>, crate::JVal)>) -> Result<
    Seq<
        (
            Seq<u8>,
            (
                (Seq<u8>, Seq<u8>, Option<crate::JVal>, Seq<(Seq<u8>, Seq<u8>)>, Option<
                    crate::JVal,
                >),
                (Seq<u8>, Seq<u8>, Option<crate::JVal>, Seq<(Seq<u8>, Seq<u8>)>, Option<
                    crate::JVal,
                >),
                (Seq<Seq<u8>>, Seq<Seq<u8>>),
            ),
        ),
    >,
    crate::Error,
>
    decreases m.len(),
{
    if m.len() == 0 {
        Result::Ok(Seq::empty())
    } else {
        match sp_profile_from(m[0].1) {
            Result::Err(e) => Result::Err(e),
            Result::Ok(pm) => match sp_profiles_from(m.drop_first()) {
                Result::Err(e) => Result::Err(e),
                Result::Ok(rest) => Result::Ok(seq![(m[0].0, pm)] + rest),
            },
        }
    }
}

/// A whole configuration written out and read back is the same
/// configuration: the same names in the same order, each profile equal
/// field for field.
pub proof fn lemma_config_round(c: DiffConfig)
    requires
        forall|i: int| 0 <= i < c.profiles@.len() ==> (#[trigger] c.profiles@[i].1).wf(),
    ensures
        sp_profiles_from(sp_profiles_value(c.profiles@)) matches Result::Ok(ms) && ms
            == config_model(c),
{
    lemma_config_round_from(c, 0);
    assert(c.profiles@.skip(0) =~= c.profiles@);
    assert(config_model(c).skip(0) =~= config_model(c));
}

/// The tail of the round trip, from position `i` on.
proof fn lemma_config_round_from(c: DiffConfig, i: int)
    requires
        0 <= i <= c.profiles@.len(),
        forall|j: int| 0 <= j < c.profiles@.len() ==> (#[trigger] c.profiles@[j].1).wf(),
    ensures
        sp_profiles_from(sp_profiles_value(c.profiles@.skip(i))) matches Result::Ok(ms) && ms
            == config_model(c).skip(i),
    decreases c.profiles@.len() - i,
{
    let ps = c.profiles@.skip(i);
    if ps.len() == 0 {
        assert(config_model(c).skip(i) =~= Seq::empty());
    } else {
        assert(ps[0] == c.profiles@[i]);
        lemma_profile_round(c.profiles@[i].1);
        lemma_config_round_from(c, i + 1);
        assert(ps.drop_first() =~= c.profiles@.skip(i + 1));
        assert(sp_profiles_value(ps).drop_first() =~= sp_profiles_value(ps.drop_first()));
        let ms = sp_profiles_from(sp_profiles_value(ps))->Ok_0;
        assert(ms =~= config_model(c).skip(i));
    }
}

/// The configuration key `method` as a fresh byte string.
fn k_method_vec() -> (r: Vec<u8>)
    ensures
        r@ == k_method(),
{
    let r: Vec<u8> = vec![109, 101, 116, 104, 111, 100];
    proof {
        assert(r@ =~= seq![109u8, 101, 116, 104, 111, 100]);
    }
    r
}

/// The configuration key `url` as a fresh byte string.
fn k_url_vec() -> (r: Vec<u8>)
    ensures
        r@ == k_url(),
{
    let r: Vec<u8> = vec![117, 114, 108];
    proof {
        assert(r@ =~= seq![117u8, 114, 108]);
    }
    r
}

/// The configuration key `params` as a fresh byte string.
fn k_params_vec() -> (r: Vec<u8>)
    ensures
        r@ == k_params(),
{
    let r: Vec<u8> = vec![112, 97, 114, 97, 109, 115];
    proof {
        assert(r@ =~= seq![112u8, 97, 114, 97, 109, 115]);
    }
    r
}

/// The configuration key `headers` as a fresh byte string.
fn k_headers_vec() -> (r: Vec<u8>)
    ensures
        r@ == k_headers(),
{
    let r: Vec<u8> = vec![104, 101, 97, 100, 101, 114, 115];
    proof {
        assert(r@ =~= seq![104u8, 101, 97, 100, 101, 114, 115]);
    }
    r
}

/// The configuration key `body` as a fresh byte string.
fn k_body_vec() -> (r: Vec<u8>)
    ensures
        r@ == k_body(),
{
    let r: Vec<u8> = vec![98, 111, 100, 121];
    proof {
        assert(r@ =~= seq![98u8, 111, 100, 121]);
    }
    r
}

/// The configuration key `request1` as a fresh byte string.
fn k_request1_vec() -> (r: Vec<u8>)
    ensures
        r@ == k_request1(),
{
    let r: Vec<u8> = vec![114, 101, 113, 117, 101, 115, 116, 49];
    proof {
        assert(r@ =~= seq![114u8, 101, 113, 117, 101, 115, 116, 49]);
    }
    r
}

/// The configuration key `request2` as a fresh byte string.
fn k_request2_vec() -> (r: Vec<u8>)
    ensures
        r@ == k_request2(),
{
    let r: Vec<u8> = vec![114, 101, 113, 117, 101, 115, 116, 50];
    proof {
        assert(r@ =~= seq![114u8, 101, 113, 117, 101, 115, 116, 50]);
    }
    r
}

/// The configuration key `response` as a fresh byte string.
fn k_response_vec() -> (r: Vec<u8>)
    ensures
        r@ == k_response(),
{
    let r: Vec<u8> = vec![114, 101, 115, 112, 111, 110, 115, 101];
    proof {
        assert(r@ =~= seq![114u8, 101, 115, 112, 111, 110, 115, 101]);
    }
    r
}

/// The configuration key `skip_headers` as a fresh byte string.
fn k_skip_headers_vec() -> (r: Vec<u8>)
    ensures
        r@ == k_skip_headers(),
{
    let r: Vec<u8> = vec![115, 107, 105, 112, 95, 104, 101, 97, 100, 101, 114, 115];
    proof {
        assert(r@ =~= seq![115u8, 107, 105, 112, 95, 104, 101, 97, 100, 101, 114, 115]);
    }
    r
}

/// The configuration key `skip_body` as a fresh byte string.
fn k_skip_body_vec() -> (r: Vec<u8>)
    ensures
        r@ == k_skip_body(),
{
    let r: Vec<u8> = vec![115, 107, 105, 112, 95, 98, 111, 100, 121];
    proof {
        assert(r@ =~= seq![115u8, 107, 105, 112, 95, 98, 111, 100, 121]);
    }
    r
}
/// Copy a list of byte strings into string values, from `i` on.
fn strs_to_arr(l: &Vec<Vec<u8>>, i: usize) -> (r: Vec<crate::JsonValue>)
    requires
        i <= l@.len(),
    ensures
        crate::value::view_arr(r@) == sp_strs_to_arr(crate::req::list_model(l@).skip(i as int)),
    decreases l@.len() - i,
{
    let ghost model = crate::req::list_model(l@);
    if i >= l.len() {
        let r: Vec<crate::JsonValue> = Vec::new();
        proof {
            assert(model.skip(i as int) =~= Seq::<Seq<u8>>::empty());
            assert(crate::value::view_arr(r@) =~= sp_strs_to_arr(model.skip(i as int)));
        }
        return r;
    }
    let mut rest = strs_to_arr(l, i + 1);
    let ghost rest_vec = rest@;
    let s = crate::value::copy_bytes(&l[i]);
    let ghost s_model = s@;
    rest.insert(0, crate::JsonValue::Str(s));
    proof {
        assert(model.skip(i as int)[0] == model[i as int]);
        assert(model.skip(i as int).drop_first() =~= model.skip(i + 1));
        crate::value::lemma_view_arr(rest_vec);
        crate::value::lemma_view_arr(rest@);
        assert forall|j: int| 0 <= j < rest@.len() implies crate::value::view_arr(rest@)[j] == (
        seq![crate::JVal::Str(s_model)] + crate::value::view_arr(rest_vec))[j] by {
            if j > 0 {
                assert(rest@[j] == rest_vec[j - 1]);
            }
        }
        assert(crate::value::view_arr(rest@) =~= sp_strs_to_arr(model.skip(i as int)));
    }
    rest
}

/// Read string values back as byte strings, from `i` on.
fn arr_to_strs(a: &Vec<crate::JsonValue>, i: usize) -> (r: Option<Vec<Vec<u8>>>)
    requires
        i <= a@.len(),
    ensures
        match r {
            Option::Some(l) => sp_arr_to_strs(crate::value::view_arr(a@).skip(i as int))
                == Option::Some(crate::req::list_model(l@)),
            Option::None => sp_arr_to_strs(crate::value::view_arr(a@).skip(i as int)) is None,
        },
    decreases a@.len() - i,
{
    let ghost model = crate::value::view_arr(a@);
    proof {
        crate::value::lemma_view_arr(a@);
    }
    if i >= a.len() {
        let r: Vec<Vec<u8>> = Vec::new();
        proof {
            assert(model.skip(i as int) =~= Seq::<crate::JVal>::empty());
            assert(crate::req::list_model(r@) =~= Seq::<Seq<u8>>::empty());
        }
        return Option::Some(r);
    }
    proof {
        assert(model.skip(i as int)[0] == model[i as int]);
        assert(model.skip(i as int).drop_first() =~= model.skip(i + 1));
    }
    match &a[i] {
        crate::JsonValue::Str(s) => {
            match arr_to_strs(a, i + 1) {
                Option::None => Option::None,
                Option::Some(mut rest) => {
                    let ghost rest_vec = rest@;
                    rest.insert(0, crate::value::copy_bytes(s));
                    proof {
                        assert forall|j: int| 0 <= j < rest@.len() implies crate::req::list_model(
                            rest@,
                        )[j] == (seq![s@] + crate::req::list_model(rest_vec))[j] by {
                            if j > 0 {
                                assert(rest@[j] == rest_vec[j - 1]);
                            }
                        }
                        assert(crate::req::list_model(rest@) =~= seq![s@] + crate::req::list_model(
                            rest_vec,
                        ));
                    }
                    Option::Some(rest)
                },
            }
        },
        _ => Option::None,
    }
}

/// Copy a header list into an object of string values, from `i` on.
fn hdrs_to_obj(h: &Vec<(Vec<u8>, Vec<u8>)>, i: usize) -> (r: Vec<(Vec<u8>, crate::JsonValue)>)
    requires
        i <= h@.len(),
    ensures
        crate::value::view_obj(r@) == sp_hdrs_to_obj(crate::req::hdrs_model(h@).skip(i as int)),
    decreases h@.len() - i,
{
    let ghost model = crate::req::hdrs_model(h@);
    if i >= h.len() {
        let r: Vec<(Vec<u8>, crate::JsonValue)> = Vec::new();
        proof {
            assert(model.skip(i as int) =~= Seq::<(Seq<u8>, Seq<u8>)>::empty());
            assert(crate::value::view_obj(r@) =~= sp_hdrs_to_obj(model.skip(i as int)));
        }
        return r;
    }
    let mut rest = hdrs_to_obj(h, i + 1);
    let ghost rest_vec = rest@;
    let name = crate::value::copy_bytes(&h[i].0);
    let value = crate::value::copy_bytes(&h[i].1);
    let ghost pair_model = (name@, crate::JVal::Str(value@));
    rest.insert(0, (name, crate::JsonValue::Str(value)));
    proof {
        assert(model.skip(i as int)[0] == model[i as int]);
        assert(model.skip(i as int).drop_first() =~= model.skip(i + 1));
        crate::value::lemma_view_obj(rest_vec);
        crate::value::lemma_view_obj(rest@);
        assert forall|j: int| 0 <= j < rest@.len() implies crate::value::view_obj(rest@)[j] == (
        seq![pair_model] + crate::value::view_obj(rest_vec))[j] by {
            if j > 0 {
                assert(rest@[j] == rest_vec[j - 1]);
            }
        }
        assert(crate::value::view_obj(rest@) =~= sp_hdrs_to_obj(model.skip(i as int)));
    }
    rest
}

/// Read an object of string values back as a header list, from `i` on.
fn obj_to_hdrs(m: &Vec<(Vec<u8>, crate::JsonValue)>, i: usize) -> (r: Option<
    Vec<(Vec<u8>, Vec<u8>)>,
>)
    requires
        i <= m@.len(),
    ensures
        match r {
            Option::Some(h) => sp_obj_to_hdrs(crate::value::view_obj(m@).skip(i as int))
                == Option::Some(crate::req::hdrs_model(h@)),
            Option::None => sp_obj_to_hdrs(crate::value::view_obj(m@).skip(i as int)) is None,
        },
    decreases m@.len() - i,
{
    let ghost model = crate::value::view_obj(m@);
    proof {
        crate::value::lemma_view_obj(m@);
    }
    if i >= m.len() {
        let r: Vec<(Vec<u8>, Vec<u8>)> = Vec::new();
        proof {
            assert(model.skip(i as int) =~= Seq::<(Seq<u8>, crate::JVal)>::empty());
            assert(crate::req::hdrs_model(r@) =~= Seq::<(Seq<u8>, Seq<u8>)>::empty());
        }
        return Option::Some(r);
    }
    proof {
        assert(model.skip(i as int)[0] == model[i as int]);
        assert(model.skip(i as int).drop_first() =~= model.skip(i + 1));
    }
    match &m[i].1 {
        crate::JsonValue::Str(s) => {
            match obj_to_hdrs(m, i + 1) {
                Option::None => Option::None,
                Option::Some(mut rest) => {
                    let ghost rest_vec = rest@;
                    let pair = (crate::value::copy_bytes(&m[i].0), crate::value::copy_bytes(s));
                    let ghost pair_model = (pair.0@, pair.1@);
                    rest.insert(0, pair);
                    proof {
                        assert forall|j: int| 0 <= j < rest@.len() implies crate::req::hdrs_model(
                            rest@,
                        )[j] == (seq![pair_model] + crate::req::hdrs_model(rest_vec))[j] by {
                            if j > 0 {
                                assert(rest@[j] == rest_vec[j - 1]);
                            }
                        }
                        assert(crate::req::hdrs_model(rest@) =~= seq![pair_model]
                            + crate::req::hdrs_model(rest_vec));
                    }
                    Option::Some(rest)
                },
            }
        },
        _ => Option::None,
    }
}

/// An optional template as a stored value.
fn opt_to_value(o: &Option<crate::JsonValue>) -> (r: crate::JsonValue)
    ensures
        r@ == opt_val(*o),
{
    match o {
        Option::Some(v) => v.duplicate(),
        Option::None => crate::JsonValue::Null,
    }
}

impl RequestProfile {
    /// This template written as a structured value.
    pub fn to_value(&self) -> (r: crate::JsonValue)
        ensures
            r@ == sp_req_value(*self),
    {
        let mut members: Vec<(Vec<u8>, crate::JsonValue)> = Vec::new();
        members.push((k_method_vec(), crate::JsonValue::Str(crate::value::copy_bytes(&self.method))));
        members.push((k_url_vec(), crate::JsonValue::Str(crate::value::copy_bytes(&self.url))));
        members.push((k_params_vec(), opt_to_value(&self.params)));
        let hs = hdrs_to_obj(&self.headers, 0);
        members.push((k_headers_vec(), crate::JsonValue::Obj(hs)));
        members.push((k_body_vec(), opt_to_value(&self.body)));
        proof {
            crate::value::lemma_view_obj(members@);
            assert(crate::req::hdrs_model(self.headers@).skip(0) =~= crate::req::hdrs_model(
                self.headers@,
            ));
            assert(crate::value::view_obj(members@) =~= crate::value::obj_members(
                sp_req_value(*self),
            ));
        }
        crate::JsonValue::Obj(members)
    }

    /// A template read back from a structured value.
    pub fn from_value(v: &crate::JsonValue) -> (r: Result<RequestProfile, crate::Error>)
        ensures
            match r {
                Result::Ok(p) => sp_req_from(v@) == Result::<
                    (Seq<u8>, Seq<u8>, Option<crate::JVal>, Seq<(Seq<u8>, Seq<u8>)>, Option<
                        crate::JVal,
                    >),
                    crate::Error,
                >::Ok(req_model(p)) && p.wf(),
                Result::Err(e) => sp_req_from(v@) == Result::<
                    (Seq<u8>, Seq<u8>, Option<crate::JVal>, Seq<(Seq<u8>, Seq<u8>)>, Option<
                        crate::JVal,
                    >),
                    crate::Error,
                >::Err(e),
            },
    {
        let members = match v {
            crate::JsonValue::Obj(m) => m,
            _ => {
                return Result::Err(crate::Error::MalformedConfig);
            },
        };
        let km = k_method_vec();
        let method = match crate::value::obj_get(members, km.as_slice()) {
            Option::None => {
                let g: Vec<u8> = vec![71, 69, 84];
                proof {
                    assert(g@ =~= default_method());
                }
                g
            },
            Option::Some(crate::JsonValue::Str(s)) => crate::value::copy_bytes(s),
            Option::Some(_) => {
                return Result::Err(crate::Error::MalformedConfig);
            },
        };
        let ku = k_url_vec();
        let url = match crate::value::obj_get(members, ku.as_slice()) {
            Option::Some(crate::JsonValue::Str(u)) => {
                if !crate::req::check_absolute_url(u.as_slice()) {
                    return Result::Err(crate::Error::MalformedConfig);
                }
                crate::value::copy_bytes(u)
            },
            _ => {
                return Result::Err(crate::Error::MalformedConfig);
            },
        };
        let kp = k_params_vec();
        let params = match crate::value::obj_get(members, kp.as_slice()) {
            Option::None => Option::None,
            Option::Some(pv) => match pv {
                crate::JsonValue::Null => Option::None,
                crate::JsonValue::Obj(_) => Option::Some(pv.duplicate()),
                _ => {
                    return Result::Err(crate::Error::MalformedConfig);
                },
            },
        };
        let kh = k_headers_vec();
        let headers = match crate::value::obj_get(members, kh.as_slice()) {
            Option::None => {
                let h: Vec<(Vec<u8>, Vec<u8>)> = Vec::new();
                proof {
                    assert(crate::req::hdrs_model(h@) =~= Seq::<(Seq<u8>, Seq<u8>)>::empty());
                }
                h
            },
            Option::Some(crate::JsonValue::Obj(hm)) => {
                proof {
                    assert(crate::value::view_obj(hm@).skip(0) =~= crate::value::view_obj(hm@));
                }
                match obj_to_hdrs(hm, 0) {
                    Option::Some(h) => h,
                    Option::None => {
                        return Result::Err(crate::Error::MalformedConfig);
                    },
                }
            },
            Option::Some(_) => {
                return Result::Err(crate::Error::MalformedConfig);
            },
        };
        let kb = k_body_vec();
        let body = match crate::value::obj_get(members, kb.as_slice()) {
            Option::None => Option::None,
            Option::Some(bv) => match bv {
                crate::JsonValue::Null => Option::None,
                crate::JsonValue::Obj(_) => Option::Some(bv.duplicate()),
                _ => {
                    return Result::Err(crate::Error::MalformedConfig);
                },
            },
        };
        Result::Ok(RequestProfile { method, url, params, headers, body })
    }
}
impl ResponseProfile {
    /// These rules written as a structured value.
    pub fn to_value(&self) -> (r: crate::JsonValue)
        ensures
            r@ == sp_resp_value(*self),
    {
        let mut members: Vec<(Vec<u8>, crate::JsonValue)> = Vec::new();
        let sh = strs_to_arr(&self.skip_headers, 0);
        members.push((k_skip_headers_vec(), crate::JsonValue::Arr(sh)));
        let sb = strs_to_arr(&self.skip_body, 0);
        members.push((k_skip_body_vec(), crate::JsonValue::Arr(sb)));
        proof {
            crate::value::lemma_view_obj(members@);
            assert(crate::req::list_model(self.skip_headers@).skip(0) =~= crate::req::list_model(
                self.skip_headers@,
            ));
            assert(crate::req::list_model(self.skip_body@).skip(0) =~= crate::req::list_model(
                self.skip_body@,
            ));
            assert(crate::value::view_obj(members@) =~= crate::value::obj_members(
                sp_resp_value(*self),
            ));
        }
        crate::JsonValue::Obj(members)
    }

    /// Rules read back from a structured value.
    pub fn from_value(v: &crate::JsonValue) -> (r: Result<ResponseProfile, crate::Error>)
        ensures
            match r {
                Result::Ok(p) => sp_resp_from(v@) == Result::<
                    (Seq<Seq<u8>>, Seq<Seq<u8>>),
                    crate::Error,
                >::Ok((
                    crate::req::list_model(p.skip_headers@),
                    crate::req::list_model(p.skip_body@),
                )),
                Result::Err(e) => sp_resp_from(v@) == Result::<
                    (Seq<Seq<u8>>, Seq<Seq<u8>>),
                    crate::Error,
                >::Err(e),
            },
    {
        let members = match v {
            crate::JsonValue::Obj(m) => m,
            _ => {
                return Result::Err(crate::Error::MalformedConfig);
            },
        };
        let ksh = k_skip_headers_vec();
        let skip_headers = match crate::value::obj_get(members, ksh.as_slice()) {
            Option::None => {
                let l: Vec<Vec<u8>> = Vec::new();
                proof {
                    assert(crate::req::list_model(l@) =~= Seq::<Seq<u8>>::empty());
                }
                l
            },
            Option::Some(crate::JsonValue::Arr(a)) => {
                proof {
                    assert(crate::value::view_arr(a@).skip(0) =~= crate::value::view_arr(a@));
                }
                match arr_to_strs(a, 0) {
                    Option::Some(l) => l,
                    Option::None => {
                        return Result::Err(crate::Error::MalformedConfig);
                    },
                }
            },
            Option::Some(_) => {
                return Result::Err(crate::Error::MalformedConfig);
            },
        };
        let ksb = k_skip_body_vec();
        let skip_body = match crate::value::obj_get(members, ksb.as_slice()) {
            Option::None => {
                let l: Vec<Vec<u8>> = Vec::new();
                proof {
                    assert(crate::req::list_model(l@) =~= Seq::<Seq<u8>>::empty());
                }
                l
            },
            Option::Some(crate::JsonValue::Arr(a)) => {
                proof {
                    assert(crate::value::view_arr(a@).skip(0) =~= crate::value::view_arr(a@));
                }
                match arr_to_strs(a, 0) {
                    Option::Some(l) => l,
                    Option::None => {
                        return Result::Err(crate::Error::MalformedConfig);
                    },
                }
            },
            Option::Some(_) => {
                return Result::Err(crate::Error::MalformedConfig);
            },
        };
        Result::Ok(ResponseProfile { skip_headers, skip_body })
    }
}

impl DiffProfile {
    /// This comparison written as a structured value.
    pub fn to_value(&self) -> (r: crate::JsonValue)
        ensures
            r@ == sp_profile_value(*self),
    {
        let mut members: Vec<(Vec<u8>, crate::JsonValue)> = Vec::new();
        members.push((k_request1_vec(), self.request1.to_value()));
        members.push((k_request2_vec(), self.request2.to_value()));
        members.push((k_response_vec(), self.response.to_value()));
        proof {
            crate::value::lemma_view_obj(members@);
            assert(crate::value::view_obj(members@) =~= crate::value::obj_members(
                sp_profile_value(*self),
            ));
        }
        crate::JsonValue::Obj(members)
    }

    /// A comparison read back from a structured value.
    pub fn from_value(v: &crate::JsonValue) -> (r: Result<DiffProfile, crate::Error>)
        ensures
            match r {
                Result::Ok(p) => sp_profile_from(v@) == Result::<
                    (
                        (Seq<u8>, Seq<u8>, Option<crate::JVal>, Seq<(Seq<u8>, Seq<u8>)>, Option<
                            crate::JVal,
                        >),
                        (Seq<u8>, Seq<u8>, Option<crate::JVal>, Seq<(Seq<u8>, Seq<u8>)>, Option<
                            crate::JVal,
                        >),
                        (Seq<Seq<u8>>, Seq<Seq<u8>>),
                    ),
                    crate::Error,
                >::Ok(profile_model(p)) && p.wf(),
                Result::Err(e) => sp_profile_from(v@) == Result::<
                    (
                        (Seq<u8>, Seq<u8>, Option<crate::JVal>, Seq<(Seq<u8>, Seq<u8>)>, Option<
                            crate::JVal,
                        >),
                        (Seq<u8>, Seq<u8>, Option<crate::JVal>, Seq<(Seq<u8>, Seq<u8>)>, Option<
                            crate::JVal,
                        >),
                        (Seq<Seq<u8>>, Seq<Seq<u8>>),
                    ),
                    crate::Error,
                >::Err(e),
            },
    {
        let members = match v {
            crate::JsonValue::Obj(m) => m,
            _ => {
                return Result::Err(crate::Error::MalformedConfig);
            },
        };
        let k1 = k_request1_vec();
        let request1 = match crate::value::obj_get(members, k1.as_slice()) {
            Option::Some(rv) => match RequestProfile::from_value(rv) {
                Result::Ok(p) => p,
                Result::Err(e) => {
                    return Result::Err(e);
                },
            },
            Option::None => {
                return Result::Err(crate::Error::MalformedConfig);
            },
        };
        let k2 = k_request2_vec();
        let request2 = match crate::value::obj_get(members, k2.as_slice()) {
            Option::Some(rv) => match RequestProfile::from_value(rv) {
                Result::Ok(p) => p,
                Result::Err(e) => {
                    return Result::Err(e);
                },
            },
            Option::None => {
                return Result::Err(crate::Error::MalformedConfig);
            },
        };
        let kr = k_response_vec();
        let response = match crate::value::obj_get(members, kr.as_slice()) {
            Option::None => {
                let p = ResponseProfile { skip_headers: Vec::new(), skip_body: Vec::new() };
                proof {
                    assert(crate::req::list_model(p.skip_headers@) =~= Seq::<Seq<u8>>::empty());
                    assert(crate::req::list_model(p.skip_body@) =~= Seq::<Seq<u8>>::empty());
                }
                p
            },
            Option::Some(rv) => match ResponseProfile::from_value(rv) {
                Result::Ok(p) => p,
                Result::Err(e) => {
                    return Result::Err(e);
                },
            },
        };
        Result::Ok(DiffProfile { request1, request2, response })
    }
}

impl DiffConfig {
    /// This configuration written as a structured value: an object of
    /// profiles under their names, in order.
    pub fn to_value(&self) -> (r: crate::JsonValue)
        ensures
            r@ == crate::JVal::Obj(sp_profiles_value(self.profiles@)),
    {
        let members = profiles_to_value(&self.profiles, 0);
        proof {
            assert(self.profiles@.skip(0) =~= self.profiles@);
        }
        crate::JsonValue::Obj(members)
    }

    /// A configuration read back from a structured value.
    pub fn from_value(v: &crate::JsonValue) -> (r: Result<DiffConfig, crate::Error>)
        ensures
            match r {
                Result::Ok(c) => v@ is Obj && (sp_profiles_from(crate::value::obj_members(v@))
                    matches Result::Ok(ms) && ms == config_model(c)),
                Result::Err(_) => !(v@ is Obj) || sp_profiles_from(
                    crate::value::obj_members(v@),
                ) is Err,
            },
    {
        let members = match v {
            crate::JsonValue::Obj(m) => m,
            _ => {
                return Result::Err(crate::Error::MalformedConfig);
            },
        };
        proof {
            assert(crate::value::view_obj(members@).skip(0) =~= crate::value::view_obj(members@));
        }
        match profiles_from_value(members, 0) {
            Result::Ok(profiles) => {
                let c = DiffConfig { profiles };
                proof {
                    assert(config_model(c).skip(0) =~= config_model(c));
                }
                Result::Ok(c)
            },
            Result::Err(e) => Result::Err(e),
        }
    }
}

/// Profiles written out under their names, from `i` on.
fn profiles_to_value(ps: &Vec<(Vec<u8>, DiffProfile)>, i: usize) -> (r: Vec<
    (Vec<u8>, crate::JsonValue),
>)
    requires
        i <= ps@.len(),
    ensures
        crate::value::view_obj(r@) == sp_profiles_value(ps@.skip(i as int)),
    decreases ps@.len() - i,
{
    if i >= ps.len() {
        let r: Vec<(Vec<u8>, crate::JsonValue)> = Vec::new();
        proof {
            assert(ps@.skip(i as int) =~= Seq::<(Vec<u8>, DiffProfile)>::empty());
            assert(crate::value::view_obj(r@) =~= sp_profiles_value(ps@.skip(i as int)));
        }
        return r;
    }
    let mut rest = profiles_to_value(ps, i + 1);
    let ghost rest_vec = rest@;
    let name = crate::value::copy_bytes(&ps[i].0);
    let pv = ps[i].1.to_value();
    let ghost pair_model = (name@, pv@);
    rest.insert(0, (name, pv));
    proof {
        assert(ps@.skip(i as int)[0] == ps@[i as int]);
        assert(ps@.skip(i as int).drop_first() =~= ps@.skip(i + 1));
        crate::value::lemma_view_obj(rest_vec);
        crate::value::lemma_view_obj(rest@);
        assert forall|j: int| 0 <= j < rest@.len() implies crate::value::view_obj(rest@)[j] == (
        seq![pair_model] + crate::value::view_obj(rest_vec))[j] by {
            if j > 0 {
                assert(rest@[j] == rest_vec[j - 1]);
            }
        }
        assert(crate::value::view_obj(rest@) =~= sp_profiles_value(ps@.skip(i as int)));
    }
    rest
}

/// Profiles read back, member by member, from `i` on.
fn profiles_from_value(m: &Vec<(Vec<u8>, crate::JsonValue)>, i: usize) -> (r: Result<
    Vec<(Vec<u8>, DiffProfile)>,
    crate::Error,
>)
    requires
        i <= m@.len(),
    ensures
        match r {
            Result::Ok(ps) => sp_profiles_from(crate::value::view_obj(m@).skip(i as int))
                matches Result::Ok(ms) && ms == Seq::new(
                ps@.len(),
                |j: int| (ps@[j].0@, profile_model(ps@[j].1)),
            ),
            Result::Err(e) => sp_profiles_from(crate::value::view_obj(m@).skip(i as int))
                == Result::<
                Seq<
                    (
                        Seq<u8>,
                        (
                            (Seq<u8>, Seq<u8>, Option<crate::JVal>, Seq<(Seq<u8>, Seq<u8>)>, Option<
                                crate::JVal,
                            >),
                            (Seq<u8>, Seq<u8>, Option<crate::JVal>, Seq<(Seq<u8>, Seq<u8>)>, Option<
                                crate::JVal,
                            >),
                            (Seq<Seq<u8>>, Seq<Seq<u8>>),
                        ),
                    ),
                >,
                crate::Error,
            >::Err(e),
        },
    decreases m@.len() - i,
{
    let ghost model = crate::value::view_obj(m@);
    proof {
        crate::value::lemma_view_obj(m@);
    }
    if i >= m.len() {
        let r: Vec<(Vec<u8>, DiffProfile)> = Vec::new();
        proof {
            assert(model.skip(i as int) =~= Seq::<(Seq<u8>, crate::JVal)>::empty());
            assert(Seq::new(r@.len(), |j: int| (r@[j].0@, profile_model(r@[j].1)))
                =~= Seq::<(
                Seq<u8>,
                (
                    (Seq<u8>, Seq<u8>, Option<crate::JVal>, Seq<(Seq<u8>, Seq<u8>)>, Option<
                        crate::JVal,
                    >),
                    (Seq<u8>, Seq<u8>, Option<crate::JVal>, Seq<(Seq<u8>, Seq<u8>)>, Option<
                        crate::JVal,
                    >),
                    (Seq<Seq<u8>>, Seq<Seq<u8>>),
                ),
            )>::empty());
        }
        return Result::Ok(r);
    }
    proof {
        assert(model.skip(i as int)[0] == model[i as int]);
        assert(model.skip(i as int).drop_first() =~= model.skip(i + 1));
    }
    let p = match DiffProfile::from_value(&m[i].1) {
        Result::Ok(p) => p,
        Result::Err(e) => {
            return Result::Err(e);
        },
    };
    match profiles_from_value(m, i + 1) {
        Result::Err(e) => Result::Err(e),
        Result::Ok(mut rest) => {
            let ghost rest_vec = rest@;
            let name = crate::value::copy_bytes(&m[i].0);
            let ghost p_model = profile_model(p);
            let ghost name_model = name@;
            rest.insert(0, (name, p));
            proof {
                let ms_new = Seq::new(rest@.len(), |j: int| (rest@[j].0@, profile_model(rest@[j].1)));
                let ms_rest = Seq::new(
                    rest_vec.len(),
                    |j: int| (rest_vec[j].0@, profile_model(rest_vec[j].1)),
                );
                assert forall|j: int| 0 <= j < ms_new.len() implies ms_new[j] == (seq![
                    (name_model, p_model),
                ] + ms_rest)[j] by {
                    if j > 0 {
                        assert(rest@[j] == rest_vec[j - 1]);
                    }
                }
                assert(ms_new =~= seq![(name_model, p_model)] + ms_rest);
            }
            Result::Ok(rest)
        },
    }
}
} // verus!
