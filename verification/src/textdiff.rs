//! The line-oriented comparison of two normalized texts: shared context,
//! lines only in the first text, lines only in the second. Equal texts
//! yield an explicit no-differences result rather than emptiness.

use vstd::prelude::*;

use crate::ascii::bytes_eq;
use crate::json::{append_bytes, sub_vec};

verus! {

broadcast use vstd::std_specs::vec::group_vec_axioms, vstd::seq::axiom_seq_index_decreases;

/// The words `no differences`.
pub open spec fn no_differences() -> Seq<u8> {
    seq![110u8, 111, 32, 100, 105, 102, 102, 101, 114, 101, 110, 99, 101, 115]
}

/// The position of the first line feed at or after `i`, or the length.
pub open spec fn sp_line_end(s: Seq<u8>, i: int) -> int
    decreases s.len() - i,
{
    if 0 <= i < s.len() && s[i] != 10 {
        sp_line_end(s, i + 1)
    } else {
        i
    }
}

/// A line's end lies between its start and the text's end.
pub proof fn lemma_line_end(s: Seq<u8>, i: int)
    requires
        0 <= i <= s.len(),
    ensures
        i <= sp_line_end(s, i) <= s.len(),
    decreases s.len() - i,
{
    if 0 <= i < s.len() && s[i] != 10 {
        lemma_line_end(s, i + 1);
    }
}

/// The lines of `s` from `i` on: the segments between line feeds, the
/// feeds themselves excluded.
pub open spec fn sp_lines_from(s: Seq<u8>, i: int) -> Seq<Seq<u8>>
    decreases s.len() - i,
    via sp_lines_from_dec
{
    if !(0 <= i <= s.len()) {
        Seq::empty()
    } else {
        let e = sp_line_end(s, i);
        if e >= s.len() {
            seq![s.subrange(i, s.len() as int)]
        } else {
            seq![s.subrange(i, e)] + sp_lines_from(s, e + 1)
        }
    }
}

#[via_fn]
proof fn sp_lines_from_dec(s: Seq<u8>, i: int) {
    if 0 <= i <= s.len() {
        lemma_line_end(s, i);
    }
}

/// The length of the common prefix of two line lists, counted from `i`.
pub open spec fn sp_common_prefix(a: Seq<Seq<u8>>, b: Seq<Seq<u8>>, i: int) -> int
    decreases a.len() - i,
{
    if 0 <= i < a.len() && i < b.len() && a[i] == b[i] {
        sp_common_prefix(a, b, i + 1)
    } else {
        i
    }
}

/// The length of the common suffix of two line lists outside their
/// common prefix `p`, counted from `k`.
pub open spec fn sp_common_suffix(a: Seq<Seq<u8>>, b: Seq<Seq<u8>>, p: int, k: int) -> int
    decreases a.len() - p - k,
{
    if 0 <= k && k < a.len() - p && k < b.len() - p && a[a.len() - 1 - k] == b[b.len() - 1 - k] {
        sp_common_suffix(a, b, p, k + 1)
    } else {
        k
    }
}

/// Lines `from..to`, each behind `prefix` and under a line feed.
pub open spec fn sp_render(lines: Seq<Seq<u8>>, from: int, to: int, prefix: Seq<u8>) -> Seq<u8>
    decreases to - from,
{
    if !(0 <= from < to <= lines.len()) {
        Seq::empty()
    } else {
        prefix + lines[from] + seq![10u8] + sp_render(lines, from + 1, to, prefix)
    }
}

/// The comparison of two normalized texts. Equal texts yield the words
/// `no differences`. Different texts yield, line by line: the common
/// leading lines behind two spaces, then the remaining lines of the
/// first text behind `- `, the remaining lines of the second behind
/// `+ `, and the common trailing lines behind two spaces again.
pub open spec fn sp_diff(t1: Seq<u8>, t2: Seq<u8>) -> Seq<u8> {
    if t1 == t2 {
        no_differences()
    } else {
        let a = sp_lines_from(t1, 0);
        let b = sp_lines_from(t2, 0);
        let p = sp_common_prefix(a, b, 0);
        let k = sp_common_suffix(a, b, p, 0);
        sp_render(a, 0, p, seq![32u8, 32u8]) + sp_render(a, p, a.len() - k, seq![45u8, 32u8])
            + sp_render(b, p, b.len() - k, seq![43u8, 32u8]) + sp_render(
            a,
            a.len() - k,
            a.len() as int,
            seq![32u8, 32u8],
        )
    }
}

/// Scan to the next line feed.
fn line_end(s: &[u8], i: usize) -> (r: usize)
    requires
        i <= s@.len(),
    ensures
        i <= r <= s@.len(),
        r == sp_line_end(s@, i as int),
    decreases s@.len() - i,
{
    if i < s.len() && s[i] != 10 {
        line_end(s, i + 1)
    } else {
        i
    }
}

/// Split text into its lines from `i` on.
fn lines_from(s: &[u8], i: usize) -> (r: Vec<Vec<u8>>)
    requires
        i <= s@.len(),
    ensures
        crate::req::list_model(r@) == sp_lines_from(s@, i as int),
    decreases s@.len() - i,
{
    let e = line_end(s, i);
    let seg = sub_vec(s, i, e);
    if e >= s.len() {
        let mut r: Vec<Vec<u8>> = Vec::new();
        r.push(seg);
        proof {
            assert(crate::req::list_model(r@) =~= sp_lines_from(s@, i as int));
        }
        r
    } else {
        let mut r = lines_from(s, e + 1);
        let ghost r_vec = r@;
        r.insert(0, seg);
        proof {
            assert forall|j: int| 0 <= j < r@.len() implies crate::req::list_model(r@)[j] == (
            seq![s@.subrange(i as int, e as int)] + crate::req::list_model(r_vec))[j] by {
                if j > 0 {
                    assert(r@[j] == r_vec[j - 1]);
                }
            }
            assert(crate::req::list_model(r@) =~= sp_lines_from(s@, i as int));
        }
        r
    }
}

/// Count the common prefix.
fn common_prefix(a: &Vec<Vec<u8>>, b: &Vec<Vec<u8>>, i: usize) -> (r: usize)
    requires
        i <= a@.len(),
        i <= b@.len(),
    ensures
        i <= r <= a@.len(),
        r <= b@.len(),
        r == sp_common_prefix(crate::req::list_model(a@), crate::req::list_model(b@), i as int),
    decreases a@.len() - i,
{
    if i < a.len() && i < b.len() && bytes_eq(a[i].as_slice(), b[i].as_slice()) {
        common_prefix(a, b, i + 1)
    } else {
        i
    }
}

/// Count the common suffix outside the common prefix.
fn common_suffix(a: &Vec<Vec<u8>>, b: &Vec<Vec<u8>>, p: usize, k: usize) -> (r: usize)
    requires
        p <= a@.len(),
        p <= b@.len(),
        k <= a@.len() - p,
        k <= b@.len() - p,
    ensures
        k <= r,
        r <= a@.len() - p,
        r <= b@.len() - p,
        r == sp_common_suffix(crate::req::list_model(a@), crate::req::list_model(b@), p as int, k as int),
    decreases a@.len() - p - k,
{
    if k < a.len() - p && k < b.len() - p && bytes_eq(
        a[a.len() - 1 - k].as_slice(),
        b[b.len() - 1 - k].as_slice(),
    ) {
        common_suffix(a, b, p, k + 1)
    } else {
        k
    }
}

/// Append lines `from..to`, each behind the prefix.
fn write_render(lines: &Vec<Vec<u8>>, from: usize, to: usize, prefix: &Vec<u8>, out: &mut Vec<u8>)
    requires
        to <= lines@.len(),
    ensures
        final(out)@ == old(out)@ + sp_render(
            crate::req::list_model(lines@),
            from as int,
            to as int,
            prefix@,
        ),
    decreases to - from,
{
    if !(from < to) {
        proof {
            assert(out@ =~= old(out)@ + Seq::<u8>::empty());
        }
        return ;
    }
    append_bytes(out, prefix.as_slice());
    append_bytes(out, lines[from].as_slice());
    out.push(10);
    write_render(lines, from + 1, to, prefix, out);
    proof {
        assert(out@ =~= old(out)@ + sp_render(
            crate::req::list_model(lines@),
            from as int,
            to as int,
            prefix@,
        ));
    }
}

/// Compare two normalized texts line by line.
pub fn diff_text(t1: &[u8], t2: &[u8]) -> (r: Vec<u8>)
    ensures
        r@ == sp_diff(t1@, t2@),
{
    if bytes_eq(t1, t2) {
        let r: Vec<u8> = vec![110, 111, 32, 100, 105, 102, 102, 101, 114, 101, 110, 99, 101, 115];
        proof {
            assert(r@ =~= no_differences());
        }
        return r;
    }
    let a = lines_from(t1, 0);
    let b = lines_from(t2, 0);
    let p = common_prefix(&a, &b, 0);
    let k = common_suffix(&a, &b, p, 0);
    let ctx: Vec<u8> = vec![32, 32];
    let minus: Vec<u8> = vec![45, 32];
    let plus: Vec<u8> = vec![43, 32];
    proof {
        assert(ctx@ =~= seq![32u8, 32u8]);
        assert(minus@ =~= seq![45u8, 32u8]);
        assert(plus@ =~= seq![43u8, 32u8]);
    }
    let mut out: Vec<u8> = Vec::new();
    write_render(&a, 0, p, &ctx, &mut out);
    write_render(&a, p, a.len() - k, &minus, &mut out);
    write_render(&b, p, b.len() - k, &plus, &mut out);
    write_render(&a, a.len() - k, a.len(), &ctx, &mut out);
    proof {
        assert(out@ =~= sp_diff(t1@, t2@));
    }
    out
}

/// The counted prefix is a true common prefix: every line before it
/// agrees between the two sides.
pub proof fn lemma_prefix_agrees(a: Seq<Seq<u8>>, b: Seq<Seq<u8>>, i: int)
    requires
        0 <= i <= a.len(),
        i <= b.len(),
    ensures
        i <= sp_common_prefix(a, b, i) <= a.len(),
        sp_common_prefix(a, b, i) <= b.len(),
        forall|j: int| i <= j < sp_common_prefix(a, b, i) ==> a[j] == b[j],
    decreases a.len() - i,
{
    if 0 <= i < a.len() && i < b.len() && a[i] == b[i] {
        lemma_prefix_agrees(a, b, i + 1);
    }
}

/// The counted suffix is a true common suffix: every line within it
/// agrees between the two sides.
pub proof fn lemma_suffix_agrees(a: Seq<Seq<u8>>, b: Seq<Seq<u8>>, p: int, k: int)
    requires
        0 <= p,
        p <= a.len(),
        p <= b.len(),
        0 <= k <= a.len() - p,
        k <= b.len() - p,
    ensures
        k <= sp_common_suffix(a, b, p, k) <= a.len() - p,
        sp_common_suffix(a, b, p, k) <= b.len() - p,
        forall|j: int|
            k <= j < sp_common_suffix(a, b, p, k) ==> #[trigger] a[a.len() - 1 - j] == b[b.len() - 1
                - j],
    decreases a.len() - p - k,
{
    if 0 <= k && k < a.len() - p && k < b.len() - p && a[a.len() - 1 - k] == b[b.len() - 1 - k] {
        lemma_suffix_agrees(a, b, p, k + 1);
    }
}

/// The comparison shows as context only lines both sides share: the
/// leading lines it renders behind spaces agree pairwise, so do the
/// trailing ones, and what stands between them — the `- ` and `+ `
/// sections — is exactly each side's remainder.
pub proof fn lemma_diff_context(a: Seq<Seq<u8>>, b: Seq<Seq<u8>>)
    ensures
        ({
            let p = sp_common_prefix(a, b, 0);
            let k = sp_common_suffix(a, b, p, 0);
            &&& 0 <= p <= a.len()
            &&& p <= b.len()
            &&& 0 <= k <= a.len() - p
            &&& k <= b.len() - p
            &&& forall|i: int| 0 <= i < p ==> a[i] == b[i]
            &&& forall|j: int| 0 <= j < k ==> #[trigger] a[a.len() - 1 - j] == b[b.len() - 1 - j]
        }),
{
    lemma_prefix_agrees(a, b, 0);
    let p = sp_common_prefix(a, b, 0);
    lemma_suffix_agrees(a, b, p, 0);
}
/// The counted prefix stops exactly at the first mismatch.
proof fn lemma_prefix_stops(a: Seq<Seq<u8>>, b: Seq<Seq<u8>>, i: int, j: int)
    requires
        0 <= i <= j < a.len(),
        j < b.len(),
        forall|x: int| i <= x < j ==> a[x] == b[x],
        a[j] != b[j],
    ensures
        sp_common_prefix(a, b, i) == j,
    decreases j - i,
{
    if i < j {
        lemma_prefix_stops(a, b, i + 1, j);
    }
}

/// The counted suffix stops exactly at the last mismatch.
proof fn lemma_suffix_stops(a: Seq<Seq<u8>>, b: Seq<Seq<u8>>, j: int, k: int)
    requires
        a.len() == b.len(),
        0 <= j < a.len(),
        forall|x: int| j < x < a.len() ==> #[trigger] a[x] == b[x],
        a[j] != b[j],
        0 <= k <= a.len() - 1 - j,
    ensures
        sp_common_suffix(a, b, j, k) == a.len() - 1 - j,
    decreases a.len() - 1 - j - k,
{
    if k < a.len() - 1 - j {
        assert(a[a.len() - 1 - k] == b[b.len() - 1 - k]);
        lemma_suffix_stops(a, b, j, k + 1);
    } else {
        assert(a[a.len() - 1 - k] == a[j]);
    }
}

/// Where exactly one line differs between two equally long line lists,
/// the comparison shows exactly one `- ` line — the first list's — and
/// one `+ ` line — the second's — between shared context: the counted
/// prefix reaches the changed line, the counted suffix covers
/// everything after it, and each middle section renders that one line.
pub proof fn lemma_single_line_change(a: Seq<Seq<u8>>, b: Seq<Seq<u8>>, j: int)
    requires
        a.len() == b.len(),
        0 <= j < a.len(),
        forall|i: int| 0 <= i < a.len() && i != j ==> #[trigger] a[i] == b[i],
        a[j] != b[j],
    ensures
        sp_common_prefix(a, b, 0) == j,
        sp_common_suffix(a, b, j, 0) == a.len() - 1 - j,
        sp_render(a, j, j + 1, seq![45u8, 32u8]) == seq![45u8, 32u8] + a[j] + seq![10u8],
        sp_render(b, j, j + 1, seq![43u8, 32u8]) == seq![43u8, 32u8] + b[j] + seq![10u8],
{
    reveal_with_fuel(sp_render, 3);
    lemma_prefix_stops(a, b, 0, j);
    lemma_suffix_stops(a, b, j, 0);
    assert(sp_render(a, j + 1, j + 1, seq![45u8, 32u8]) =~= Seq::<u8>::empty());
    assert(sp_render(b, j + 1, j + 1, seq![43u8, 32u8]) =~= Seq::<u8>::empty());
    assert(sp_render(a, j, j + 1, seq![45u8, 32u8]) =~= seq![45u8, 32u8] + a[j] + seq![10u8]);
    assert(sp_render(b, j, j + 1, seq![43u8, 32u8]) =~= seq![43u8, 32u8] + b[j] + seq![10u8]);
}
} // verus!
