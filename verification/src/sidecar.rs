//! The metric sidecar: the JSON text written (atomically) next to each
//! encoded clip. The emission is canonical — field order, digits and
//! separators are pinned down exactly — so what lands on disk is a function
//! of the record alone.

use vstd::prelude::*;

use crate::merge::{
    all_digits, digits_val, lemma_dec_val_public, lemma_digits_val_bound, lemma_digits_val_push,
};
use crate::metrics::ClipMetrics;
use crate::text::{i64_dec, spec_dec, spec_dec_signed, u64_dec};

verus! {

/// Unsigned numbers joined with commas.
pub open spec fn spec_join_u64(s: Seq<u64>) -> Seq<char>
    decreases s.len(),
{
    if s.len() == 0 {
        Seq::empty()
    } else if s.len() == 1 {
        spec_dec(s[0] as nat)
    } else {
        spec_join_u64(s.drop_last()) + ","@ + spec_dec(s.last() as nat)
    }
}

/// Signed numbers joined with commas.
pub open spec fn spec_join_i64(s: Seq<i64>) -> Seq<char>
    decreases s.len(),
{
    if s.len() == 0 {
        Seq::empty()
    } else if s.len() == 1 {
        spec_dec_signed(s[0] as int)
    } else {
        spec_join_i64(s.drop_last()) + ","@ + spec_dec_signed(s.last() as int)
    }
}

/// An optional array of unsigned numbers: `null` or `[..]`.
pub open spec fn spec_u64_array_field(v: Option<Seq<u64>>) -> Seq<char> {
    match v {
        Some(s) => "["@ + spec_join_u64(s) + "]"@,
        None => "null"@,
    }
}

/// An optional array of signed numbers: `null` or `[..]`.
pub open spec fn spec_i64_array_field(v: Option<Seq<i64>>) -> Seq<char> {
    match v {
        Some(s) => "["@ + spec_join_i64(s) + "]"@,
        None => "null"@,
    }
}

/// The sidecar text of six optional fields in fixed order: duration in
/// microseconds, packet sizes, and the four metric vectors in thousandths;
/// absent probes render as `null`.
pub open spec fn spec_sidecar_text(
    duration: Option<u64>,
    sizes: Option<Seq<u64>>,
    psnr: Option<Seq<i64>>,
    ssim: Option<Seq<i64>>,
    vmaf: Option<Seq<i64>>,
    ssimulacra2: Option<Seq<i64>>,
) -> Seq<char> {
    "{\"duration\":"@ + ((match duration {
        Some(d) => spec_dec(d as nat),
        None => "null"@,
    }) + (",\"sizes\":"@ + (spec_u64_array_field(sizes) + (",\"psnr\":"@ + (
    spec_i64_array_field(psnr) + (",\"ssim\":"@ + (spec_i64_array_field(ssim) + (",\"vmaf\":"@
        + (spec_i64_array_field(vmaf) + (",\"ssimulacra2\":"@ + (spec_i64_array_field(
        ssimulacra2,
    ) + "}"@)))))))))))
}

/// The sidecar text of a record.
pub open spec fn spec_sidecar_json(m: ClipMetrics) -> Seq<char> {
    spec_sidecar_text(
        m.spec_duration_micros(),
        m.spec_sizes(),
        m.spec_psnr(),
        m.spec_ssim(),
        m.spec_vmaf(),
        m.spec_ssimulacra2(),
    )
}

/// Renders unsigned numbers joined with commas.
fn join_u64(v: &Vec<u64>) -> (r: String)
    ensures
        r@ == spec_join_u64(v@),
{
    let mut s = String::new();
    let mut i: usize = 0;
    while i < v.len()
        invariant
            i <= v@.len(),
            s@ == spec_join_u64(v@.take(i as int)),
        decreases v@.len() - i,
    {
        if i > 0 {
            s.append(",");
        }
        let d = u64_dec(v[i]);
        s.append(d.as_str());
        proof {
            assert(v@.take(i + 1).drop_last() =~= v@.take(i as int));
            assert(v@.take(i + 1).last() == v@[i as int]);
            if i == 0 {
                assert(s@ =~= spec_join_u64(v@.take(i + 1)));
            }
        }
        i += 1;
    }
    proof {
        assert(v@.take(v@.len() as int) =~= v@);
    }
    s
}

/// Whether every score in an optional vector leaves the smallest machine
/// integer free (renderings need the magnitude).
pub open spec fn scores_bounded(v: Option<Seq<i64>>) -> bool {
    match v {
        Some(s) => forall|i: int| 0 <= i < s.len() ==> (#[trigger] s[i]) > i64::MIN,
        None => true,
    }
}

/// Renders signed numbers joined with commas.
fn join_i64(v: &Vec<i64>) -> (r: String)
    requires
        forall|i: int| 0 <= i < v@.len() ==> (#[trigger] v@[i]) > i64::MIN,
    ensures
        r@ == spec_join_i64(v@),
{
    let mut s = String::new();
    let mut i: usize = 0;
    while i < v.len()
        invariant
            forall|k: int| 0 <= k < v@.len() ==> (#[trigger] v@[k]) > i64::MIN,
            i <= v@.len(),
            s@ == spec_join_i64(v@.take(i as int)),
        decreases v@.len() - i,
    {
        if i > 0 {
            s.append(",");
        }
        let d = i64_dec(v[i]);
        s.append(d.as_str());
        proof {
            assert(v@.take(i + 1).drop_last() =~= v@.take(i as int));
            assert(v@.take(i + 1).last() == v@[i as int]);
            if i == 0 {
                assert(s@ =~= spec_join_i64(v@.take(i + 1)));
            }
        }
        i += 1;
    }
    proof {
        assert(v@.take(v@.len() as int) =~= v@);
    }
    s
}

/// The view of an optional borrowed vector.
pub open spec fn opt_scores_view(v: Option<&Vec<i64>>) -> Option<Seq<i64>> {
    match v {
        Some(vec) => Some(vec@),
        None => None,
    }
}

/// Renders one optional signed array.
fn i64_array_field(v: Option<&Vec<i64>>) -> (r: String)
    requires
        scores_bounded(opt_scores_view(v)),
    ensures
        r@ == spec_i64_array_field(opt_scores_view(v)),
{
    match v {
        Some(vec) => {
            proof {
                assert(opt_scores_view(v) == Some(vec@));
                assert forall|i: int| 0 <= i < vec@.len() implies (#[trigger] vec@[i])
                    > i64::MIN by {
                    assert(scores_bounded(Some(vec@)));
                };
            }
            let mut s = String::new();
            s.append("[");
            let body = join_i64(vec);
            s.append(body.as_str());
            s.append("]");
            proof {
                assert(s@ =~= "["@ + spec_join_i64(vec@) + "]"@);
            }
            s
        },
        None => "null".to_owned(),
    }
}

/// Renders an optional unsigned number: the number or `null`.
fn u64_field(v: Option<u64>) -> (r: String)
    ensures
        r@ == match v {
            Some(d) => spec_dec(d as nat),
            None => "null"@,
        },
{
    match v {
        Some(d) => u64_dec(d),
        None => "null".to_owned(),
    }
}

/// Renders one optional unsigned array.
fn u64_array_field(v: Option<&Vec<u64>>) -> (r: String)
    ensures
        r@ == spec_u64_array_field(
            match v {
                Some(vec) => Some(vec@),
                None => None,
            },
        ),
{
    match v {
        Some(vec) => {
            let mut s = String::new();
            s.append("[");
            let body = join_u64(vec);
            s.append(body.as_str());
            s.append("]");
            proof {
                assert(s@ =~= "["@ + spec_join_u64(vec@) + "]"@);
            }
            s
        },
        None => "null".to_owned(),
    }
}

/// Joins the six rendered fields with the sidecar's fixed frame.
fn assemble_sidecar(
    duration: String,
    sizes: String,
    psnr: String,
    ssim: String,
    vmaf: String,
    ssimulacra2: String,
) -> (r: String)
    ensures
        r@ == "{\"duration\":"@ + (duration@ + (",\"sizes\":"@ + (sizes@ + (",\"psnr\":"@ + (
        psnr@ + (",\"ssim\":"@ + (ssim@ + (",\"vmaf\":"@ + (vmaf@ + (",\"ssimulacra2\":"@ + (
        ssimulacra2@ + "}"@))))))))))),
{
    let mut x = ssimulacra2;
    x.append("}");
    let t5 = ",\"ssimulacra2\":".to_owned().concat(x.as_str());
    let mut v = vmaf;
    v.append(t5.as_str());
    let t4 = ",\"vmaf\":".to_owned().concat(v.as_str());
    let mut ss = ssim;
    ss.append(t4.as_str());
    let t3 = ",\"ssim\":".to_owned().concat(ss.as_str());
    let mut p = psnr;
    p.append(t3.as_str());
    let t2 = ",\"psnr\":".to_owned().concat(p.as_str());
    let mut z = sizes;
    z.append(t2.as_str());
    let t1 = ",\"sizes\":".to_owned().concat(z.as_str());
    let mut d = duration;
    d.append(t1.as_str());
    "{\"duration\":".to_owned().concat(d.as_str())
}

/// Renders a record's sidecar text.
pub fn sidecar_json(m: &ClipMetrics) -> (r: String)
    requires
        scores_bounded(m.spec_psnr()),
        scores_bounded(m.spec_ssim()),
        scores_bounded(m.spec_vmaf()),
        scores_bounded(m.spec_ssimulacra2()),
    ensures
        r@ == spec_sidecar_json(*m),
{
    assemble_sidecar(
        u64_field(m.duration_micros()),
        u64_array_field(m.sizes()),
        i64_array_field(m.psnr()),
        i64_array_field(m.ssim()),
        i64_array_field(m.vmaf()),
        i64_array_field(m.ssimulacra2()),
    )
}

/// The six optional fields of a sidecar, as loaded back from disk.
pub struct SidecarData {
    pub duration: Option<u64>,
    pub sizes: Option<Vec<u64>>,
    pub psnr: Option<Vec<i64>>,
    pub ssim: Option<Vec<i64>>,
    pub vmaf: Option<Vec<i64>>,
    pub ssimulacra2: Option<Vec<i64>>,
}

/// The view of an optional unsigned vector.
pub open spec fn opt_u64_view(v: Option<Vec<u64>>) -> Option<Seq<u64>> {
    match v {
        Some(vec) => Some(vec@),
        None => None,
    }
}

/// The view of an optional signed vector.
pub open spec fn opt_i64_view(v: Option<Vec<i64>>) -> Option<Seq<i64>> {
    match v {
        Some(vec) => Some(vec@),
        None => None,
    }
}

/// The sidecar text these loaded fields would emit.
pub open spec fn spec_sidecar_data_text(d: SidecarData) -> Seq<char> {
    spec_sidecar_text(
        d.duration,
        opt_u64_view(d.sizes),
        opt_i64_view(d.psnr),
        opt_i64_view(d.ssim),
        opt_i64_view(d.vmaf),
        opt_i64_view(d.ssimulacra2),
    )
}

/// Renders loaded fields back to sidecar text.
pub fn sidecar_data_json(d: &SidecarData) -> (r: String)
    requires
        scores_bounded(opt_i64_view(d.psnr)),
        scores_bounded(opt_i64_view(d.ssim)),
        scores_bounded(opt_i64_view(d.vmaf)),
        scores_bounded(opt_i64_view(d.ssimulacra2)),
    ensures
        r@ == spec_sidecar_data_text(*d),
{
    proof {
        assert(opt_scores_view(match d.psnr {
            Some(ref v) => Some(v),
            None => None,
        }) == opt_i64_view(d.psnr));
    }
    assemble_sidecar(
        u64_field(d.duration),
        u64_array_field(d.sizes.as_ref()),
        i64_array_field(d.psnr.as_ref()),
        i64_array_field(d.ssim.as_ref()),
        i64_array_field(d.vmaf.as_ref()),
        i64_array_field(d.ssimulacra2.as_ref()),
    )
}

/// Whether two strings hold the same characters.
fn str_eq(a: &str, b: &str) -> (r: bool)
    ensures
        r == (a@ == b@),
{
    let a_len = a.unicode_len();
    let b_len = b.unicode_len();
    if a_len != b_len {
        return false;
    }
    let mut i: usize = 0;
    while i < a_len
        invariant
            a_len == a@.len(),
            b_len == b@.len(),
            a_len == b_len,
            i <= a_len,
            forall|k: int| 0 <= k < i ==> a@[k] == b@[k],
        decreases a_len - i,
    {
        if a.get_char(i) != b.get_char(i) {
            return false;
        }
        i += 1;
    }
    proof {
        assert(a@ =~= b@);
    }
    true
}

/// Whether a character is a decimal digit.
fn is_digit_char(c: char) -> (r: bool)
    ensures
        r == (48 <= c as int <= 57),
{
    (c as u32) >= 48 && (c as u32) <= 57
}

/// Splits `s` at `pos + a.len()` when the text from `pos` on is `a`
/// followed by `b`.
proof fn lemma_take_step(s: Seq<char>, pos: int, a: Seq<char>, b: Seq<char>)
    requires
        0 <= pos <= s.len(),
        s.skip(pos) == a + b,
    ensures
        pos + a.len() + b.len() == s.len(),
        s.skip(pos + a.len()) == b,
        s.subrange(pos, pos + a.len()) == a,
        forall|i: int| 0 <= i < a.len() ==> s[pos + i] == #[trigger] a[i],
{
    assert(s.skip(pos).len() == s.len() - pos);
    assert forall|i: int| 0 <= i < a.len() implies s[pos + i] == #[trigger] a[i] by {
        assert(s.skip(pos)[i] == s[pos + i]);
        assert((a + b)[i] == a[i]);
    };
    assert(s.skip(pos + a.len()) =~= b) by {
        assert forall|i: int| 0 <= i < b.len() implies s.skip(pos + a.len())[i]
            == #[trigger] b[i] by {
            assert(s.skip(pos + a.len())[i] == s[pos + a.len() + i]);
            assert(s.skip(pos)[a.len() + i] == s[pos + a.len() + i]);
            assert((a + b)[a.len() + i] == b[i]);
        };
    };
    assert(s.subrange(pos, pos + a.len()) =~= a);
}

/// A digit prefix never exceeds the whole digit string's value.
proof fn lemma_digits_val_take(s: Seq<char>, k: int)
    requires
        all_digits(s),
        0 <= k <= s.len(),
    ensures
        0 <= digits_val(s.take(k)) <= digits_val(s),
    decreases s.len() - k,
{
    assert forall|i: int| 0 <= i < s.take(k).len() implies 48 <= (#[trigger] s.take(k)[i]) as int
        <= 57 by {
        assert(s.take(k)[i] == s[i]);
    };
    lemma_digits_val_bound(s.take(k));
    if k == s.len() {
        assert(s.take(k) =~= s);
    } else {
        lemma_digits_val_take(s, k + 1);
        assert(s.take(k + 1) =~= s.take(k).push(s[k]));
        lemma_digits_val_push(s.take(k), s[k]);
    }
}

/// Consumes a literal at `pos`; succeeds exactly when the literal is what
/// stands there.
fn take_lit(s: &str, pos: usize, lit: &str) -> (r: Option<usize>)
    requires
        pos <= s@.len(),
    ensures
        r matches Some(p) ==> p == pos + lit@.len() && pos + lit@.len() <= s@.len()
            && s@.subrange(pos as int, pos + lit@.len()) == lit@,
        pos + lit@.len() <= s@.len() && s@.subrange(pos as int, pos + lit@.len()) == lit@
            ==> r is Some,
{
    let l = lit.unicode_len();
    let n = s.unicode_len();
    if n - pos < l {
        return None;
    }
    let mut i: usize = 0;
    while i < l
        invariant
            l == lit@.len(),
            n == s@.len(),
            pos + l <= n,
            i <= l,
            forall|k: int| 0 <= k < i ==> s@[pos + k] == #[trigger] lit@[k],
        decreases l - i,
    {
        if s.get_char(pos + i) != lit.get_char(i) {
            proof {
                assert(s@.subrange(pos as int, pos + l) != lit@) by {
                    assert(s@.subrange(pos as int, pos + l)[i as int] == s@[pos + i]);
                };
            }
            return None;
        }
        i += 1;
    }
    proof {
        assert(s@.subrange(pos as int, pos + l) =~= lit@);
    }
    Some(pos + l)
}

/// Reads an unsigned number at `pos`, or fails. Where what stands at `pos`
/// is the canonical rendering of `v` followed by text that opens with a
/// non-digit (if by anything), the read succeeds and yields exactly `v`.
fn take_u64(s: &str, pos: usize, Ghost(v): Ghost<u64>, Ghost(t): Ghost<Seq<char>>) -> (r: Option<
    (u64, usize),
>)
    requires
        pos <= s@.len(),
    ensures
        r matches Some(p) ==> pos < p.1 <= s@.len(),
        s@.skip(pos as int) == spec_dec(v as nat) + t && (t.len() == 0 || !(48 <= t[0] as int
            <= 57)) ==> (r matches Some(p) && p.0 == v && p.1 == s@.len() - t.len()),
{
    let ghost hyp = s@.skip(pos as int) == spec_dec(v as nat) + t && (t.len() == 0 || !(48
        <= t[0] as int <= 57));
    let ghost dv = spec_dec(v as nat);
    proof {
        lemma_dec_val_public(v as nat);
        lemma_dec_digits(v as nat);
        if hyp {
            lemma_take_step(s@, pos as int, dv, t);
        }
    }
    let n = s.unicode_len();
    if pos >= n || !is_digit_char(s.get_char(pos)) {
        proof {
            if hyp {
                assert(s@[pos as int] == dv[0]);
                assert(false);
            }
        }
        return None;
    }
    let mut acc: u64 = 0;
    let mut i: usize = pos;
    while i < n && is_digit_char(s.get_char(i))
        invariant
            n == s@.len(),
            pos <= i <= n,
            pos < n,
            48 <= s@[pos as int] as int <= 57,
            dv == spec_dec(v as nat),
            all_digits(dv),
            digits_val(dv) == v as int,
            dv.len() >= 1,
            hyp == (s@.skip(pos as int) == spec_dec(v as nat) + t && (t.len() == 0 || !(48
                <= t[0] as int <= 57))),
            hyp ==> s@.skip(pos as int) == dv + t,
            hyp ==> (t.len() == 0 || !(48 <= t[0] as int <= 57)),
            hyp ==> pos + dv.len() + t.len() == n,
            hyp ==> (forall|k: int| 0 <= k < dv.len() ==> s@[pos + k] == #[trigger] dv[k]),
            hyp ==> i <= pos + dv.len(),
            hyp ==> acc as int == digits_val(dv.take(i - pos)),
        decreases n - i,
    {
        let d = (s.get_char(i) as u32 - 48) as u64;
        proof {
            if hyp {
                if i == pos + dv.len() {
                    assert(t.len() == s@.len() - pos - dv.len());
                    assert(s@.skip(pos as int)[i - pos] == s@[i as int]);
                    assert((dv + t)[i - pos] == t[0]);
                    assert(false);
                }
                assert(s@[i as int] == dv[i - pos]);
                assert(dv.take(i - pos + 1) =~= dv.take(i - pos).push(dv[i - pos]));
                lemma_digits_val_push(dv.take(i - pos), dv[i - pos]);
                lemma_digits_val_take(dv, i - pos + 1);
                assert(acc as int * 10 + d as int == digits_val(dv.take(i - pos + 1)));
                assert(digits_val(dv.take(i - pos + 1)) <= v);
            }
        }
        if acc > (u64::MAX - d) / 10 {
            proof {
                if hyp {
                    assert(10 * acc as int <= u64::MAX - d);
                    assert((10 * acc as int) / 10 == acc as int) by {
                        vstd::arithmetic::div_mod::lemma_div_multiples_vanish(acc as int, 10);
                    };
                    vstd::arithmetic::div_mod::lemma_div_is_ordered(
                        10 * acc as int,
                        u64::MAX - d,
                        10,
                    );
                    assert(false);
                }
            }
            return None;
        }
        acc = acc * 10 + d;
        i += 1;
    }
    proof {
        if hyp {
            if i < pos + dv.len() {
                assert(s@[i as int] == dv[i - pos]);
                assert(48 <= s@[i as int] as int <= 57);
                assert(false);
            }
            assert(dv.take(i - pos) =~= dv);
            assert(acc as int == v as int);
        }
    }
    if i == pos {
        // the character at `pos` was checked to be a digit, so the loop
        // advanced at least once
        proof {
            assert(48 <= s@[pos as int] as int <= 57);
            assert(false);
        }
        return None;
    }
    Some((acc, i))
}

/// Reads a signed number at `pos`, or fails. The smallest machine integer
/// is refused, so every loaded score has a magnitude. Where what stands at
/// `pos` is the canonical rendering of `v` followed by text that opens with
/// a non-digit (if by anything), the read succeeds and yields exactly `v`.
fn take_i64(s: &str, pos: usize, Ghost(v): Ghost<i64>, Ghost(t): Ghost<Seq<char>>) -> (r: Option<
    (i64, usize),
>)
    requires
        pos <= s@.len(),
    ensures
        r matches Some(p) ==> pos < p.1 <= s@.len() && p.0 > i64::MIN,
        v > i64::MIN && s@.skip(pos as int) == spec_dec_signed(v as int) + t && (t.len() == 0 || !(
        48 <= t[0] as int <= 57)) ==> (r matches Some(p) && p.0 == v && p.1 == s@.len() - t.len()),
{
    let ghost hyp = v > i64::MIN && s@.skip(pos as int) == spec_dec_signed(v as int) + t && (
    t.len() == 0 || !(48 <= t[0] as int <= 57));
    let ghost mag: u64 = if v >= 0 {
        v as u64
    } else {
        (-(v as int)) as u64
    };
    proof {
        if hyp {
            lemma_dec_digits(mag as nat);
            if v < 0 {
                assert(spec_dec_signed(v as int) == seq!['-'] + spec_dec(mag as nat));
                assert((seq!['-'] + spec_dec(mag as nat)) + t =~= seq!['-'] + (spec_dec(
                    mag as nat,
                ) + t));
                lemma_take_step(s@, pos as int, seq!['-'], spec_dec(mag as nat) + t);
            } else {
                assert(spec_dec_signed(v as int) == spec_dec(mag as nat));
            }
        }
    }
    let n = s.unicode_len();
    if pos < n && s.get_char(pos) == '-' {
        proof {
            if hyp && v >= 0 {
                assert(s@.skip(pos as int)[0] == s@[pos as int]);
                assert((spec_dec(mag as nat) + t)[0] == spec_dec(mag as nat)[0]);
                assert(48 <= spec_dec(mag as nat)[0] as int <= 57);
                assert(false);
            }
        }
        match take_u64(s, pos + 1, Ghost(mag), Ghost(t)) {
            Some((m, end)) => {
                if m <= i64::MAX as u64 {
                    Some((-(m as i64), end))
                } else {
                    proof {
                        if hyp {
                            assert(false);
                        }
                    }
                    None
                }
            },
            None => {
                proof {
                    if hyp {
                        assert(false);
                    }
                }
                None
            },
        }
    } else {
        proof {
            if hyp && v < 0 {
                assert(s@.skip(pos as int)[0] == s@[pos as int]);
                assert(((seq!['-'] + spec_dec(mag as nat)) + t)[0] == '-');
                assert(pos < n);
                assert(false);
            }
        }
        match take_u64(s, pos, Ghost(mag), Ghost(t)) {
            Some((m, end)) => {
                if m <= i64::MAX as u64 {
                    Some((m as i64, end))
                } else {
                    proof {
                        if hyp {
                            assert(false);
                        }
                    }
                    None
                }
            },
            None => {
                proof {
                    if hyp {
                        assert(false);
                    }
                }
                None
            },
        }
    }
}

/// Unfolds a comma join of unsigned numbers from the front: the first
/// number, then a comma and the rest.
proof fn lemma_join_u64_unfold_first(v: Seq<u64>)
    requires
        v.len() >= 1,
    ensures
        v.len() == 1 ==> spec_join_u64(v) == spec_dec(v[0] as nat),
        v.len() >= 2 ==> spec_join_u64(v) == spec_dec(v[0] as nat) + (","@ + spec_join_u64(
            v.skip(1),
        )),
    decreases v.len(),
{
    if v.len() == 1 {
    } else if v.len() == 2 {
        assert(v.drop_last().len() == 1);
        assert(v.drop_last()[0] == v[0]);
        assert(v.skip(1).len() == 1);
        assert(v.skip(1)[0] == v[1]);
        assert(v.last() == v[1]);
        assert(spec_join_u64(v.drop_last()) == spec_dec(v.drop_last()[0] as nat));
        assert(spec_join_u64(v.skip(1)) == spec_dec(v.skip(1)[0] as nat));
        assert(spec_join_u64(v) == spec_join_u64(v.drop_last()) + ","@ + spec_dec(
            v.last() as nat,
        ));
        assert(spec_join_u64(v) =~= spec_dec(v[0] as nat) + (","@ + spec_join_u64(v.skip(1))));
    } else {
        lemma_join_u64_unfold_first(v.drop_last());
        assert(v.drop_last()[0] == v[0]);
        assert(v.drop_last().skip(1) =~= v.skip(1).drop_last());
        assert(v.skip(1).len() >= 2);
        assert(v.skip(1).last() == v.last());
        assert(spec_join_u64(v) == spec_join_u64(v.drop_last()) + ","@ + spec_dec(
            v.last() as nat,
        ));
        assert(spec_join_u64(v.drop_last()) == spec_dec(v[0] as nat) + (","@ + spec_join_u64(
            v.drop_last().skip(1),
        )));
        assert(spec_join_u64(v.skip(1)) == spec_join_u64(v.skip(1).drop_last()) + ","@ + spec_dec(
            v.skip(1).last() as nat,
        ));
        assert(spec_join_u64(v) =~= spec_dec(v[0] as nat) + (","@ + spec_join_u64(v.skip(1))));
    }
}

/// Unfolds a comma join of signed numbers from the front.
proof fn lemma_join_i64_unfold_first(v: Seq<i64>)
    requires
        v.len() >= 1,
    ensures
        v.len() == 1 ==> spec_join_i64(v) == spec_dec_signed(v[0] as int),
        v.len() >= 2 ==> spec_join_i64(v) == spec_dec_signed(v[0] as int) + (","@ + spec_join_i64(
            v.skip(1),
        )),
    decreases v.len(),
{
    if v.len() == 1 {
    } else if v.len() == 2 {
        assert(v.drop_last().len() == 1);
        assert(v.drop_last()[0] == v[0]);
        assert(v.skip(1).len() == 1);
        assert(v.skip(1)[0] == v[1]);
        assert(v.last() == v[1]);
        assert(spec_join_i64(v.drop_last()) == spec_dec_signed(v.drop_last()[0] as int));
        assert(spec_join_i64(v.skip(1)) == spec_dec_signed(v.skip(1)[0] as int));
        assert(spec_join_i64(v) == spec_join_i64(v.drop_last()) + ","@ + spec_dec_signed(
            v.last() as int,
        ));
        assert(spec_join_i64(v) =~= spec_dec_signed(v[0] as int) + (","@ + spec_join_i64(
            v.skip(1),
        )));
    } else {
        lemma_join_i64_unfold_first(v.drop_last());
        assert(v.drop_last()[0] == v[0]);
        assert(v.drop_last().skip(1) =~= v.skip(1).drop_last());
        assert(v.skip(1).len() >= 2);
        assert(v.skip(1).last() == v.last());
        assert(spec_join_i64(v) == spec_join_i64(v.drop_last()) + ","@ + spec_dec_signed(
            v.last() as int,
        ));
        assert(spec_join_i64(v.drop_last()) == spec_dec_signed(v[0] as int) + (","@
            + spec_join_i64(v.drop_last().skip(1))));
        assert(spec_join_i64(v.skip(1)) == spec_join_i64(v.skip(1).drop_last()) + ","@
            + spec_dec_signed(v.skip(1).last() as int));
        assert(spec_join_i64(v) =~= spec_dec_signed(v[0] as int) + (","@ + spec_join_i64(
            v.skip(1),
        )));
    }
}

/// Reads `null` or an array of unsigned numbers, or fails. Where what
/// stands at `pos` is the canonical rendering of `f`, the read succeeds and
/// yields exactly `f`.
fn take_u64_array_field(
    s: &str,
    pos: usize,
    Ghost(f): Ghost<Option<Seq<u64>>>,
    Ghost(t): Ghost<Seq<char>>,
) -> (r: Option<(Option<Vec<u64>>, usize)>)
    requires
        pos <= s@.len(),
    ensures
        r matches Some(p) ==> pos <= p.1 <= s@.len(),
        s@.skip(pos as int) == spec_u64_array_field(f) + t ==> (r matches Some(p)
            && opt_u64_view(p.0) == f && p.1 == s@.len() - t.len()),
{
    let ghost hyp = s@.skip(pos as int) == spec_u64_array_field(f) + t;
    let ghost items: Seq<u64> = match f {
        Some(v) => v,
        None => Seq::empty(),
    };
    proof {
        reveal_strlit("null");
        reveal_strlit("[");
        reveal_strlit("]");
        reveal_strlit(",");
        if hyp {
            match f {
                Some(_) => {
                    assert(spec_u64_array_field(f) + t =~= "["@ + (spec_join_u64(items) + ("]"@
                        + t)));
                    lemma_take_step(s@, pos as int, "["@, spec_join_u64(items) + ("]"@ + t));
                    lemma_join_u64_chars(items);
                },
                None => {
                    lemma_take_step(s@, pos as int, "null"@, t);
                },
            }
        }
    }
    if let Some(end) = take_lit(s, pos, "null") {
        proof {
            if hyp && f is Some {
                assert(s@.subrange(pos as int, pos + 4)[0] == 'n');
                assert(s@[pos as int] == '[');
                assert(false);
            }
        }
        return Some((None, end));
    }
    let cur0 = match take_lit(s, pos, "[") {
        Some(p) => p,
        None => {
            proof {
                if hyp {
                    assert(f is Some);
                    assert(false);
                }
            }
            return None;
        },
    };
    let mut cur = cur0;
    let mut out: Vec<u64> = Vec::new();
    if let Some(end) = take_lit(s, cur, "]") {
        proof {
            if hyp {
                assert(s@.skip(cur as int) == spec_join_u64(items) + ("]"@ + t));
                if items.len() > 0 {
                    lemma_join_u64_unfold_first(items);
                    lemma_dec_digits(items[0] as nat);
                    assert(spec_join_u64(items)[0] == spec_dec(items[0] as nat)[0]);
                    assert(s@.skip(cur as int)[0] == s@[cur as int]);
                    assert((spec_join_u64(items) + ("]"@ + t))[0] == spec_join_u64(items)[0]);
                    assert(s@[cur as int] == spec_join_u64(items)[0]);
                    assert(s@.subrange(cur as int, cur + 1)[0] == ']');
                    assert(false);
                }
                assert(spec_join_u64(items) + ("]"@ + t) =~= "]"@ + t);
                lemma_take_step(s@, cur as int, "]"@, t);
                assert(opt_u64_view(Some(out)) =~~= f);
            }
        }
        return Some((Some(out), end));
    }
    proof {
        if hyp && items.len() == 0 {
            assert(spec_join_u64(items) + ("]"@ + t) =~= "]"@ + t);
            assert(s@.skip(cur as int) == "]"@ + t);
            lemma_take_step(s@, cur as int, "]"@, t);
            assert(false);
        }
        if hyp {
            assert(items.skip(0) =~= items);
            assert(out@ =~= items.take(0));
        }
    }
    let ghost mut k: int = 0;
    loop
        invariant
            pos <= cur <= s@.len(),
            hyp == (s@.skip(pos as int) == spec_u64_array_field(f) + t),
            hyp ==> f == Some(items),
            hyp ==> 0 <= k < items.len(),
            hyp ==> out@ == items.take(k),
            hyp ==> s@.skip(cur as int) == spec_join_u64(items.skip(k)) + ("]"@ + t),
        decreases s@.len() - cur,
    {
        proof {
            reveal_strlit("]");
            reveal_strlit(",");
        }
        let ghost rest: Seq<char> = if hyp {
            if k == items.len() - 1 {
                "]"@ + t
            } else {
                ","@ + (spec_join_u64(items.skip(k + 1)) + ("]"@ + t))
            }
        } else {
            Seq::empty()
        };
        let ghost gv: u64 = if hyp {
            items[k]
        } else {
            0
        };
        proof {
            if hyp {
                lemma_join_u64_unfold_first(items.skip(k));
                assert(items.skip(k)[0] == items[k]);
                if k == items.len() - 1 {
                    assert(items.skip(k).len() == 1);
                    assert(s@.skip(cur as int) =~= spec_dec(items[k] as nat) + rest);
                } else {
                    assert(items.skip(k).skip(1) =~= items.skip(k + 1));
                    assert(s@.skip(cur as int) =~= spec_dec(items[k] as nat) + rest);
                }
                assert(rest.len() > 0);
                assert(!(48 <= rest[0] as int <= 57));
                lemma_take_step(s@, cur as int, spec_dec(items[k] as nat), rest);
            }
        }
        let (value, after) = match take_u64(s, cur, Ghost(gv), Ghost(rest)) {
            Some(p) => p,
            None => {
                proof {
                    if hyp {
                        assert(false);
                    }
                }
                return None;
            },
        };
        out.push(value);
        proof {
            if hyp {
                assert(s@.skip(after as int) == rest);
                assert(out@ =~= items.take(k + 1));
            }
        }
        cur = after;
        if let Some(end) = take_lit(s, cur, "]") {
            proof {
                if hyp {
                    if k < items.len() - 1 {
                        assert(s@.subrange(cur as int, cur + 1)[0] == ']');
                        assert(rest[0] == ',');
                        assert(s@.skip(cur as int)[0] == s@[cur as int]);
                        assert(false);
                    }
                    lemma_take_step(s@, cur as int, "]"@, t);
                    assert(items.take(k + 1) =~= items);
                    assert(opt_u64_view(Some(out)) =~~= f);
                }
            }
            return Some((Some(out), end));
        }
        proof {
            if hyp && k == items.len() - 1 {
                lemma_take_step(s@, cur as int, "]"@, t);
                assert(false);
            }
            if hyp {
                lemma_take_step(s@, cur as int, ","@, spec_join_u64(items.skip(k + 1)) + ("]"@
                    + t));
            }
        }
        match take_lit(s, cur, ",") {
            Some(p) => {
                if p == cur {
                    proof {
                        if hyp {
                            assert(false);
                        }
                    }
                    return None;
                }
                proof {
                    if hyp {
                        k = k + 1;
                    }
                }
                cur = p;
            },
            None => {
                proof {
                    if hyp {
                        assert(false);
                    }
                }
                return None;
            },
        }
    }
}

/// Reads `null` or an array of signed numbers, or fails. Where what stands
/// at `pos` is the canonical rendering of `f` and every score in `f` has a
/// magnitude, the read succeeds and yields exactly `f`.
fn take_i64_array_field(
    s: &str,
    pos: usize,
    Ghost(f): Ghost<Option<Seq<i64>>>,
    Ghost(t): Ghost<Seq<char>>,
) -> (r: Option<(Option<Vec<i64>>, usize)>)
    requires
        pos <= s@.len(),
    ensures
        r matches Some(p) ==> pos <= p.1 <= s@.len() && scores_bounded(opt_i64_view(p.0)),
        s@.skip(pos as int) == spec_i64_array_field(f) + t && scores_bounded(f) ==> (r matches Some(
            p,
        ) && opt_i64_view(p.0) == f && p.1 == s@.len() - t.len()),
{
    let ghost hyp = s@.skip(pos as int) == spec_i64_array_field(f) + t && scores_bounded(f);
    let ghost items: Seq<i64> = match f {
        Some(v) => v,
        None => Seq::empty(),
    };
    proof {
        reveal_strlit("null");
        reveal_strlit("[");
        reveal_strlit("]");
        reveal_strlit(",");
        if hyp {
            match f {
                Some(_) => {
                    assert(spec_i64_array_field(f) + t =~= "["@ + (spec_join_i64(items) + ("]"@
                        + t)));
                    lemma_take_step(s@, pos as int, "["@, spec_join_i64(items) + ("]"@ + t));
                    lemma_join_i64_chars(items);
                },
                None => {
                    lemma_take_step(s@, pos as int, "null"@, t);
                },
            }
        }
    }
    if let Some(end) = take_lit(s, pos, "null") {
        proof {
            if hyp && f is Some {
                assert(s@.subrange(pos as int, pos + 4)[0] == 'n');
                assert(s@[pos as int] == '[');
                assert(false);
            }
        }
        return Some((None, end));
    }
    let cur0 = match take_lit(s, pos, "[") {
        Some(p) => p,
        None => {
            proof {
                if hyp {
                    assert(f is Some);
                    assert(false);
                }
            }
            return None;
        },
    };
    let mut cur = cur0;
    let mut out: Vec<i64> = Vec::new();
    if let Some(end) = take_lit(s, cur, "]") {
        proof {
            if hyp {
                assert(s@.skip(cur as int) == spec_join_i64(items) + ("]"@ + t));
                if items.len() > 0 {
                    lemma_join_i64_unfold_first(items);
                    lemma_dec_signed_chars(items[0] as int);
                    assert(spec_join_i64(items)[0] == spec_dec_signed(items[0] as int)[0]);
                    assert(s@.skip(cur as int)[0] == s@[cur as int]);
                    assert((spec_join_i64(items) + ("]"@ + t))[0] == spec_join_i64(items)[0]);
                    assert(s@[cur as int] == spec_join_i64(items)[0]);
                    assert(s@.subrange(cur as int, cur + 1)[0] == ']');
                    assert(false);
                }
                assert(spec_join_i64(items) + ("]"@ + t) =~= "]"@ + t);
                assert(s@.skip(cur as int) == "]"@ + t);
                lemma_take_step(s@, cur as int, "]"@, t);
                assert(opt_i64_view(Some(out)) =~~= f);
            }
        }
        return Some((Some(out), end));
    }
    proof {
        if hyp && items.len() == 0 {
            assert(spec_join_i64(items) + ("]"@ + t) =~= "]"@ + t);
            assert(s@.skip(cur as int) == "]"@ + t);
            lemma_take_step(s@, cur as int, "]"@, t);
            assert(false);
        }
        if hyp {
            assert(items.skip(0) =~= items);
            assert(out@ =~= items.take(0));
        }
    }
    let ghost mut k: int = 0;
    loop
        invariant
            pos <= cur <= s@.len(),
            forall|j: int| 0 <= j < out@.len() ==> (#[trigger] out@[j]) > i64::MIN,
            hyp == (s@.skip(pos as int) == spec_i64_array_field(f) + t && scores_bounded(f)),
            hyp ==> f == Some(items),
            hyp ==> 0 <= k < items.len(),
            hyp ==> out@ == items.take(k),
            hyp ==> s@.skip(cur as int) == spec_join_i64(items.skip(k)) + ("]"@ + t),
        decreases s@.len() - cur,
    {
        proof {
            reveal_strlit("]");
            reveal_strlit(",");
        }
        let ghost rest: Seq<char> = if hyp {
            if k == items.len() - 1 {
                "]"@ + t
            } else {
                ","@ + (spec_join_i64(items.skip(k + 1)) + ("]"@ + t))
            }
        } else {
            Seq::empty()
        };
        let ghost gv: i64 = if hyp {
            items[k]
        } else {
            0
        };
        proof {
            if hyp {
                lemma_join_i64_unfold_first(items.skip(k));
                assert(items.skip(k)[0] == items[k]);
                if k == items.len() - 1 {
                    assert(items.skip(k).len() == 1);
                    assert(s@.skip(cur as int) =~= spec_dec_signed(items[k] as int) + rest);
                } else {
                    assert(items.skip(k).skip(1) =~= items.skip(k + 1));
                    assert(s@.skip(cur as int) =~= spec_dec_signed(items[k] as int) + rest);
                }
                assert(rest.len() > 0);
                assert(!(48 <= rest[0] as int <= 57));
                assert(gv > i64::MIN);
                lemma_take_step(s@, cur as int, spec_dec_signed(items[k] as int), rest);
            }
        }
        let (value, after) = match take_i64(s, cur, Ghost(gv), Ghost(rest)) {
            Some(p) => p,
            None => {
                proof {
                    if hyp {
                        assert(false);
                    }
                }
                return None;
            },
        };
        out.push(value);
        proof {
            if hyp {
                assert(s@.skip(after as int) == rest);
                assert(out@ =~= items.take(k + 1));
            }
        }
        cur = after;
        if let Some(end) = take_lit(s, cur, "]") {
            proof {
                if hyp {
                    if k < items.len() - 1 {
                        assert(s@.subrange(cur as int, cur + 1)[0] == ']');
                        assert(rest[0] == ',');
                        assert(s@.skip(cur as int)[0] == s@[cur as int]);
                        assert(false);
                    }
                    lemma_take_step(s@, cur as int, "]"@, t);
                    assert(items.take(k + 1) =~= items);
                    assert(opt_i64_view(Some(out)) =~~= f);
                }
            }
            return Some((Some(out), end));
        }
        proof {
            if hyp && k == items.len() - 1 {
                lemma_take_step(s@, cur as int, "]"@, t);
                assert(false);
            }
            if hyp {
                lemma_take_step(s@, cur as int, ","@, spec_join_i64(items.skip(k + 1)) + ("]"@
                    + t));
            }
        }
        match take_lit(s, cur, ",") {
            Some(p) => {
                if p == cur {
                    proof {
                        if hyp {
                            assert(false);
                        }
                    }
                    return None;
                }
                proof {
                    if hyp {
                        k = k + 1;
                    }
                }
                cur = p;
            },
            None => {
                proof {
                    if hyp {
                        assert(false);
                    }
                }
                return None;
            },
        }
    }
}

/// The rendering of an optional unsigned number: the number or `null`.
pub open spec fn spec_opt_u64_text(v: Option<u64>) -> Seq<char> {
    match v {
        Some(d) => spec_dec(d as nat),
        None => "null"@,
    }
}

/// Reads `null` or an unsigned number, or fails. Where what stands at `pos`
/// is the canonical rendering of `f` followed by a comma, the read succeeds
/// and yields exactly `f`.
fn take_u64_field(
    s: &str,
    pos: usize,
    Ghost(f): Ghost<Option<u64>>,
    Ghost(t): Ghost<Seq<char>>,
) -> (r: Option<(Option<u64>, usize)>)
    requires
        pos <= s@.len(),
    ensures
        r matches Some(p) ==> pos <= p.1 <= s@.len(),
        s@.skip(pos as int) == spec_opt_u64_text(f) + t && t.len() > 0 && t[0] == ',' ==> (
        r matches Some(p) && p.0 == f && p.1 == s@.len() - t.len()),
{
    let ghost hyp = s@.skip(pos as int) == spec_opt_u64_text(f) + t && t.len() > 0 && t[0] == ',';
    proof {
        reveal_strlit("null");
        if hyp {
            match f {
                Some(d) => {
                    lemma_dec_digits(d as nat);
                    lemma_take_step(s@, pos as int, spec_dec(d as nat), t);
                },
                None => {
                    lemma_take_step(s@, pos as int, "null"@, t);
                },
            }
        }
    }
    if let Some(end) = take_lit(s, pos, "null") {
        proof {
            if hyp && f is Some {
                let d = f.unwrap();
                assert(s@.subrange(pos as int, pos + 4)[0] == 'n');
                assert(s@[pos as int] == spec_dec(d as nat)[0]);
                assert(48 <= spec_dec(d as nat)[0] as int <= 57);
                assert(false);
            }
        }
        return Some((None, end));
    }
    proof {
        if hyp && f is None {
            assert(false);
        }
    }
    let ghost gv: u64 = match f {
        Some(d) => d,
        None => 0,
    };
    match take_u64(s, pos, Ghost(gv), Ghost(t)) {
        Some((value, end)) => Some((Some(value), end)),
        None => {
            proof {
                if hyp {
                    assert(false);
                }
            }
            None
        },
    }
}

/// Whether `s` is the canonical sidecar text of `d`, with every score's
/// magnitude representable (as the writer demands of what it renders).
pub open spec fn canonical_sidecar(s: Seq<char>, d: SidecarData) -> bool {
    s == spec_sidecar_data_text(d) && scores_bounded(opt_i64_view(d.psnr)) && scores_bounded(
        opt_i64_view(d.ssim),
    ) && scores_bounded(opt_i64_view(d.vmaf)) && scores_bounded(opt_i64_view(d.ssimulacra2))
}

/// Loads a sidecar. The result is accepted only if rendering it reproduces
/// the given text character for character, so whatever loads is exactly the
/// record that would have written this sidecar; anything else is refused
/// rather than half-read. Conversely the canonical text of any record is
/// accepted, so a cache written by the renderer always loads.
#[verifier::spinoff_prover]
#[verifier::rlimit(100)]
pub fn parse_sidecar(s: &str) -> (r: Option<SidecarData>)
    ensures
        r matches Some(d) ==> s@ == spec_sidecar_data_text(d) && scores_bounded(
            opt_i64_view(d.psnr),
        ) && scores_bounded(opt_i64_view(d.ssim)) && scores_bounded(opt_i64_view(d.vmaf))
            && scores_bounded(opt_i64_view(d.ssimulacra2)),
        (exists|d: SidecarData| canonical_sidecar(s@, d)) ==> r is Some,
{
    let ghost hyp = exists|d: SidecarData| canonical_sidecar(s@, d);
    let ghost w: SidecarData = choose|d: SidecarData| canonical_sidecar(s@, d);
    let ghost wd = spec_opt_u64_text(w.duration);
    let ghost wz = spec_u64_array_field(opt_u64_view(w.sizes));
    let ghost wp = spec_i64_array_field(opt_i64_view(w.psnr));
    let ghost ws = spec_i64_array_field(opt_i64_view(w.ssim));
    let ghost wv = spec_i64_array_field(opt_i64_view(w.vmaf));
    let ghost wx = spec_i64_array_field(opt_i64_view(w.ssimulacra2));
    let ghost g6 = wx + "}"@;
    let ghost t5 = ",\"ssimulacra2\":"@ + g6;
    let ghost g5 = wv + t5;
    let ghost t4 = ",\"vmaf\":"@ + g5;
    let ghost g4 = ws + t4;
    let ghost t3 = ",\"ssim\":"@ + g4;
    let ghost g3 = wp + t3;
    let ghost t2 = ",\"psnr\":"@ + g3;
    let ghost g2 = wz + t2;
    let ghost t1 = ",\"sizes\":"@ + g2;
    let ghost g1 = wd + t1;
    proof {
        reveal_strlit("{\"duration\":");
        reveal_strlit(",\"sizes\":");
        reveal_strlit(",\"psnr\":");
        reveal_strlit(",\"ssim\":");
        reveal_strlit(",\"vmaf\":");
        reveal_strlit(",\"ssimulacra2\":");
        reveal_strlit("}");
        if hyp {
            assert(canonical_sidecar(s@, w));
            assert(s@ == "{\"duration\":"@ + g1);
            assert(s@.skip(0) =~= s@);
            lemma_take_step(s@, 0, "{\"duration\":"@, g1);
        }
    }
    let n = s.unicode_len();
    let pos = match take_lit(s, 0, "{\"duration\":") {
        Some(p) => p,
        None => {
            proof {
                if hyp {
                    assert(false);
                }
            }
            return None;
        },
    };
    let (duration, pos) = match take_u64_field(s, pos, Ghost(w.duration), Ghost(t1)) {
        Some(p) => p,
        None => {
            proof {
                if hyp {
                    assert(t1[0] == ',');
                    assert(false);
                }
            }
            return None;
        },
    };
    proof {
        if hyp {
            assert(t1[0] == ',');
            assert(s@.skip(pos - wd.len()) == wd + t1);
            lemma_take_step(s@, pos - wd.len(), wd, t1);
            assert(s@.skip(pos as int) == ",\"sizes\":"@ + g2);
            lemma_take_step(s@, pos as int, ",\"sizes\":"@, g2);
        }
    }
    let pos = match take_lit(s, pos, ",\"sizes\":") {
        Some(p) => p,
        None => {
            proof {
                if hyp {
                    assert(false);
                }
            }
            return None;
        },
    };
    let (sizes, pos) = match take_u64_array_field(
        s,
        pos,
        Ghost(opt_u64_view(w.sizes)),
        Ghost(t2),
    ) {
        Some(p) => p,
        None => {
            proof {
                if hyp {
                    assert(false);
                }
            }
            return None;
        },
    };
    proof {
        if hyp {
            assert(s@.skip(pos - wz.len()) == wz + t2);
            lemma_take_step(s@, pos - wz.len(), wz, t2);
            assert(s@.skip(pos as int) == ",\"psnr\":"@ + g3);
            lemma_take_step(s@, pos as int, ",\"psnr\":"@, g3);
        }
    }
    let pos = match take_lit(s, pos, ",\"psnr\":") {
        Some(p) => p,
        None => {
            proof {
                if hyp {
                    assert(false);
                }
            }
            return None;
        },
    };
    let (psnr, pos) = match take_i64_array_field(s, pos, Ghost(opt_i64_view(w.psnr)), Ghost(t3)) {
        Some(p) => p,
        None => {
            proof {
                if hyp {
                    assert(false);
                }
            }
            return None;
        },
    };
    proof {
        if hyp {
            assert(s@.skip(pos - wp.len()) == wp + t3);
            lemma_take_step(s@, pos - wp.len(), wp, t3);
            assert(s@.skip(pos as int) == ",\"ssim\":"@ + g4);
            lemma_take_step(s@, pos as int, ",\"ssim\":"@, g4);
        }
    }
    let pos = match take_lit(s, pos, ",\"ssim\":") {
        Some(p) => p,
        None => {
            proof {
                if hyp {
                    assert(false);
                }
            }
            return None;
        },
    };
    let (ssim, pos) = match take_i64_array_field(s, pos, Ghost(opt_i64_view(w.ssim)), Ghost(t4)) {
        Some(p) => p,
        None => {
            proof {
                if hyp {
                    assert(false);
                }
            }
            return None;
        },
    };
    proof {
        if hyp {
            assert(s@.skip(pos - ws.len()) == ws + t4);
            lemma_take_step(s@, pos - ws.len(), ws, t4);
            assert(s@.skip(pos as int) == ",\"vmaf\":"@ + g5);
            lemma_take_step(s@, pos as int, ",\"vmaf\":"@, g5);
        }
    }
    let pos = match take_lit(s, pos, ",\"vmaf\":") {
        Some(p) => p,
        None => {
            proof {
                if hyp {
                    assert(false);
                }
            }
            return None;
        },
    };
    let (vmaf, pos) = match take_i64_array_field(s, pos, Ghost(opt_i64_view(w.vmaf)), Ghost(t5)) {
        Some(p) => p,
        None => {
            proof {
                if hyp {
                    assert(false);
                }
            }
            return None;
        },
    };
    proof {
        if hyp {
            assert(s@.skip(pos - wv.len()) == wv + t5);
            lemma_take_step(s@, pos - wv.len(), wv, t5);
            assert(s@.skip(pos as int) == ",\"ssimulacra2\":"@ + g6);
            lemma_take_step(s@, pos as int, ",\"ssimulacra2\":"@, g6);
        }
    }
    let pos = match take_lit(s, pos, ",\"ssimulacra2\":") {
        Some(p) => p,
        None => {
            proof {
                if hyp {
                    assert(false);
                }
            }
            return None;
        },
    };
    let (ssimulacra2, pos) = match take_i64_array_field(
        s,
        pos,
        Ghost(opt_i64_view(w.ssimulacra2)),
        Ghost("}"@),
    ) {
        Some(p) => p,
        None => {
            proof {
                if hyp {
                    assert(s@.skip(pos as int) == wx + "}"@);
                    assert(false);
                }
            }
            return None;
        },
    };
    proof {
        if hyp {
            assert(s@.skip(pos - wx.len()) == wx + "}"@);
            lemma_take_step(s@, pos - wx.len(), wx, "}"@);
            assert(s@.skip(pos as int) == "}"@);
            assert(s@.skip(pos as int) =~= "}"@ + Seq::<char>::empty());
            lemma_take_step(s@, pos as int, "}"@, Seq::<char>::empty());
        }
    }
    let pos = match take_lit(s, pos, "}") {
        Some(p) => p,
        None => {
            proof {
                if hyp {
                    assert(false);
                }
            }
            return None;
        },
    };
    if pos != n {
        proof {
            if hyp {
                assert(false);
            }
        }
        return None;
    }

    let data = SidecarData { duration, sizes, psnr, ssim, vmaf, ssimulacra2 };
    let rendered = sidecar_data_json(&data);
    if str_eq(rendered.as_str(), s) {
        Some(data)
    } else {
        proof {
            if hyp {
                assert(spec_sidecar_data_text(data) == spec_sidecar_data_text(w));
                assert(false);
            }
        }
        None
    }
}

/// Whether a character can occur inside an array body: a digit, a comma, or
/// a minus sign.
pub open spec fn is_body_char(c: char) -> bool {
    48 <= c as int <= 57 || c == ',' || c == '-'
}

/// Whether every character of a sequence is an array-body character.
pub open spec fn body_chars(s: Seq<char>) -> bool {
    forall|i: int| 0 <= i < s.len() ==> is_body_char(#[trigger] s[i])
}

/// Whether every character of a sequence is a digit.
pub open spec fn digit_chars(s: Seq<char>) -> bool {
    forall|i: int| 0 <= i < s.len() ==> 48 <= (#[trigger] s[i]) as int <= 57
}

/// A decimal rendering is one or more digits.
proof fn lemma_dec_digits(n: nat)
    ensures
        digit_chars(crate::text::spec_dec(n)),
        crate::text::spec_dec(n).len() >= 1,
    decreases n,
{
    if n < 10 {
    } else {
        lemma_dec_digits(n / 10);
        assert forall|i: int| 0 <= i < spec_dec(n).len() implies 48 <= (#[trigger] spec_dec(n)[i])
            as int <= 57 by {
            if i < spec_dec(n / 10).len() {
                assert(spec_dec(n)[i] == spec_dec(n / 10)[i]);
            } else {
                assert(spec_dec(n)[i] == crate::text::spec_digit((n % 10) as int));
            }
        };
    }
}

/// Two digit runs that end at the first non-digit are the same run: if the
/// combined strings agree and both terminators open with a non-digit, the
/// runs and the remainders agree separately.
proof fn lemma_digit_segment(a1: Seq<char>, t1: Seq<char>, a2: Seq<char>, t2: Seq<char>)
    requires
        a1 + t1 == a2 + t2,
        digit_chars(a1),
        digit_chars(a2),
        t1.len() > 0,
        t2.len() > 0,
        !(48 <= t1[0] as int <= 57),
        !(48 <= t2[0] as int <= 57),
    ensures
        a1 == a2,
        t1 == t2,
{
    let x = a1 + t1;
    if a1.len() < a2.len() {
        assert(x[a1.len() as int] == t1[0]);
        assert((a2 + t2)[a1.len() as int] == a2[a1.len() as int]);
        assert(false);
    } else if a2.len() < a1.len() {
        assert(x[a2.len() as int] == a1[a2.len() as int]);
        assert((a2 + t2)[a2.len() as int] == t2[0]);
        assert(false);
    } else {
        assert(a1 =~= a2) by {
            assert(forall|i: int| 0 <= i < a1.len() ==> x[i] == #[trigger] a1[i] && x[i] == a2[i]);
        };
        assert((a1 + t1).len() == a1.len() + t1.len());
        assert((a2 + t2).len() == a2.len() + t2.len());
        assert(t1.len() == t2.len());
        assert forall|i: int| 0 <= i < t1.len() implies t1[i] == t2[i] by {
            assert(x[a1.len() + i] == t1[i]);
            assert((a2 + t2)[a2.len() + i] == t2[i]);
        };
        assert(t1 =~= t2);
    }
}

/// The same separation for array bodies, whose terminators open with a
/// character that is neither digit, comma nor minus.
proof fn lemma_body_segment(a1: Seq<char>, t1: Seq<char>, a2: Seq<char>, t2: Seq<char>)
    requires
        a1 + t1 == a2 + t2,
        body_chars(a1),
        body_chars(a2),
        t1.len() > 0,
        t2.len() > 0,
        !is_body_char(t1[0]),
        !is_body_char(t2[0]),
    ensures
        a1 == a2,
        t1 == t2,
{
    let x = a1 + t1;
    if a1.len() < a2.len() {
        assert(x[a1.len() as int] == t1[0]);
        assert((a2 + t2)[a1.len() as int] == a2[a1.len() as int]);
        assert(false);
    } else if a2.len() < a1.len() {
        assert(x[a2.len() as int] == a1[a2.len() as int]);
        assert((a2 + t2)[a2.len() as int] == t2[0]);
        assert(false);
    } else {
        assert(a1 =~= a2) by {
            assert(forall|i: int| 0 <= i < a1.len() ==> x[i] == #[trigger] a1[i] && x[i] == a2[i]);
        };
        assert((a1 + t1).len() == a1.len() + t1.len());
        assert((a2 + t2).len() == a2.len() + t2.len());
        assert(t1.len() == t2.len());
        assert forall|i: int| 0 <= i < t1.len() implies t1[i] == t2[i] by {
            assert(x[a1.len() + i] == t1[i]);
            assert((a2 + t2)[a2.len() + i] == t2[i]);
        };
        assert(t1 =~= t2);
    }
}

/// Equal decimal renderings come from equal numbers.
proof fn lemma_dec_injective(n1: nat, n2: nat)
    requires
        crate::text::spec_dec(n1) == crate::text::spec_dec(n2),
    ensures
        n1 == n2,
{
    crate::merge::lemma_dec_val_public(n1);
    crate::merge::lemma_dec_val_public(n2);
}

/// Whether every character is a digit or a minus sign.
pub open spec fn signed_chars(s: Seq<char>) -> bool {
    forall|i: int| 0 <= i < s.len() ==> (48 <= (#[trigger] s[i]) as int <= 57 || s[i] == '-')
}

/// A signed decimal rendering is digits with at most a leading minus.
proof fn lemma_dec_signed_chars(v: int)
    ensures
        signed_chars(spec_dec_signed(v)),
        spec_dec_signed(v).len() >= 1,
{
    if v < 0 {
        lemma_dec_digits((-v) as nat);
        assert forall|i: int| 0 <= i < spec_dec_signed(v).len() implies (48 <= (
        #[trigger] spec_dec_signed(v)[i]) as int <= 57 || spec_dec_signed(v)[i] == '-') by {
            if i >= 1 {
                assert(spec_dec_signed(v)[i] == spec_dec((-v) as nat)[i - 1]);
            }
        };
    } else {
        lemma_dec_digits(v as nat);
    }
}

/// Equal signed renderings come from equal values.
proof fn lemma_dec_signed_injective(v1: int, v2: int)
    requires
        spec_dec_signed(v1) == spec_dec_signed(v2),
    ensures
        v1 == v2,
{
    lemma_dec_digits(if v1 < 0 {
        (-v1) as nat
    } else {
        v1 as nat
    });
    lemma_dec_digits(if v2 < 0 {
        (-v2) as nat
    } else {
        v2 as nat
    });
    if v1 < 0 && v2 < 0 {
        assert(spec_dec_signed(v1)[0] == '-');
        assert(spec_dec((-v1) as nat) =~= spec_dec_signed(v1).skip(1));
        assert(spec_dec((-v2) as nat) =~= spec_dec_signed(v2).skip(1));
        lemma_dec_injective((-v1) as nat, (-v2) as nat);
    } else if v1 < 0 {
        assert(spec_dec_signed(v1)[0] == '-');
        assert(spec_dec_signed(v2)[0] == spec_dec(v2 as nat)[0]);
        assert(false);
    } else if v2 < 0 {
        assert(spec_dec_signed(v2)[0] == '-');
        assert(spec_dec_signed(v1)[0] == spec_dec(v1 as nat)[0]);
        assert(false);
    } else {
        lemma_dec_injective(v1 as nat, v2 as nat);
    }
}

/// A joined unsigned list holds only digits and commas.
proof fn lemma_join_u64_chars(v: Seq<u64>)
    ensures
        body_chars(spec_join_u64(v)),
        v.len() >= 1 ==> spec_join_u64(v).len() >= 1,
    decreases v.len(),
{
    reveal_strlit(",");
    if v.len() == 0 {
    } else if v.len() == 1 {
        lemma_dec_digits(v[0] as nat);
    } else {
        lemma_join_u64_chars(v.drop_last());
        lemma_dec_digits(v.last() as nat);
        let j = spec_join_u64(v.drop_last());
        let d = spec_dec(v.last() as nat);
        assert forall|i: int| 0 <= i < spec_join_u64(v).len() implies is_body_char(
            #[trigger] spec_join_u64(v)[i],
        ) by {
            if i < j.len() {
                assert(spec_join_u64(v)[i] == j[i]);
            } else if i == j.len() {
                assert(spec_join_u64(v)[i] == ',');
            } else {
                assert(spec_join_u64(v)[i] == d[i - j.len() - 1]);
            }
        };
    }
}

/// A joined signed list holds only digits, commas and minus signs.
proof fn lemma_join_i64_chars(v: Seq<i64>)
    ensures
        body_chars(spec_join_i64(v)),
        v.len() >= 1 ==> spec_join_i64(v).len() >= 1,
    decreases v.len(),
{
    reveal_strlit(",");
    if v.len() == 0 {
    } else if v.len() == 1 {
        lemma_dec_signed_chars(v[0] as int);
    } else {
        lemma_join_i64_chars(v.drop_last());
        lemma_dec_signed_chars(v.last() as int);
        let j = spec_join_i64(v.drop_last());
        let d = spec_dec_signed(v.last() as int);
        assert forall|i: int| 0 <= i < spec_join_i64(v).len() implies is_body_char(
            #[trigger] spec_join_i64(v)[i],
        ) by {
            if i < j.len() {
                assert(spec_join_i64(v)[i] == j[i]);
            } else if i == j.len() {
                assert(spec_join_i64(v)[i] == ',');
            } else {
                assert(spec_join_i64(v)[i] == d[i - j.len() - 1]);
            }
        };
    }
}

/// Comma-joined unsigned numbers split only one way: equal joins come from
/// equal lists.
proof fn lemma_join_u64_injective(v1: Seq<u64>, v2: Seq<u64>)
    requires
        spec_join_u64(v1) == spec_join_u64(v2),
    ensures
        v1 =~= v2,
    decreases v1.len() + v2.len(),
{
    reveal_strlit(",");
    lemma_join_u64_chars(v1);
    lemma_join_u64_chars(v2);
    if v1.len() == 0 {
        if v2.len() >= 1 {
            assert(spec_join_u64(v2).len() >= 1);
            assert(false);
        }
    } else if v2.len() == 0 {
        assert(spec_join_u64(v1).len() >= 1);
        assert(false);
    } else if v1.len() == 1 && v2.len() == 1 {
        lemma_dec_injective(v1[0] as nat, v2[0] as nat);
        assert(v1 =~= v2);
    } else if v1.len() == 1 {
        // a single number has no comma; a longer list renders one
        lemma_dec_digits(v1[0] as nat);
        let j2 = spec_join_u64(v2.drop_last());
        let d2 = spec_dec(v2.last() as nat);
        lemma_dec_digits(v2.last() as nat);
        let p2 = j2.len() as int;
        assert(spec_join_u64(v2)[p2] == ',');
        assert(spec_join_u64(v1)[p2] == spec_dec(v1[0] as nat)[p2]);
        assert(false);
    } else if v2.len() == 1 {
        lemma_dec_digits(v2[0] as nat);
        let j1 = spec_join_u64(v1.drop_last());
        let d1 = spec_dec(v1.last() as nat);
        lemma_dec_digits(v1.last() as nat);
        let p1 = j1.len() as int;
        assert(spec_join_u64(v1)[p1] == ',');
        assert(spec_join_u64(v2)[p1] == spec_dec(v2[0] as nat)[p1]);
        assert(false);
    } else {
        let x = spec_join_u64(v1);
        let j1 = spec_join_u64(v1.drop_last());
        let d1 = spec_dec(v1.last() as nat);
        let j2 = spec_join_u64(v2.drop_last());
        let d2 = spec_dec(v2.last() as nat);
        lemma_dec_digits(v1.last() as nat);
        lemma_dec_digits(v2.last() as nat);
        let p1 = j1.len() as int;
        let p2 = j2.len() as int;
        assert(x.len() == p1 + 1 + d1.len());
        assert(x.len() == p2 + 1 + d2.len());
        if p1 < p2 {
            // the right side's final comma would sit inside the left
            // side's final (all-digit) number
            assert(x[p2] == ',');
            assert(x[p2] == d1[p2 - p1 - 1]);
            assert(false);
        } else if p2 < p1 {
            assert(x[p1] == ',');
            assert(x[p1] == d2[p1 - p2 - 1]);
            assert(false);
        } else {
            assert(j1 =~= j2) by {
                assert(forall|i: int| 0 <= i < p1 ==> x[i] == #[trigger] j1[i] && x[i] == j2[i]);
            };
            assert(d1 =~= d2) by {
                assert(forall|i: int|
                    0 <= i < d1.len() ==> x[p1 + 1 + i] == #[trigger] d1[i] && x[p1 + 1 + i]
                        == d2[i]);
            };
            lemma_dec_injective(v1.last() as nat, v2.last() as nat);
            lemma_join_u64_injective(v1.drop_last(), v2.drop_last());
            assert(v1 =~= v1.drop_last().push(v1.last()));
            assert(v2 =~= v2.drop_last().push(v2.last()));
            assert(v1 =~= v2);
        }
    }
}

/// Comma-joined signed numbers split only one way.
proof fn lemma_join_i64_injective(v1: Seq<i64>, v2: Seq<i64>)
    requires
        spec_join_i64(v1) == spec_join_i64(v2),
    ensures
        v1 =~= v2,
    decreases v1.len() + v2.len(),
{
    reveal_strlit(",");
    lemma_join_i64_chars(v1);
    lemma_join_i64_chars(v2);
    if v1.len() == 0 {
        if v2.len() >= 1 {
            assert(spec_join_i64(v2).len() >= 1);
            assert(false);
        }
    } else if v2.len() == 0 {
        assert(spec_join_i64(v1).len() >= 1);
        assert(false);
    } else if v1.len() == 1 && v2.len() == 1 {
        lemma_dec_signed_injective(v1[0] as int, v2[0] as int);
        assert(v1 =~= v2);
    } else if v1.len() == 1 {
        lemma_dec_signed_chars(v1[0] as int);
        let j2 = spec_join_i64(v2.drop_last());
        lemma_dec_signed_chars(v2.last() as int);
        let p2 = j2.len() as int;
        assert(spec_join_i64(v2)[p2] == ',');
        assert(spec_join_i64(v1)[p2] == spec_dec_signed(v1[0] as int)[p2]);
        assert(false);
    } else if v2.len() == 1 {
        lemma_dec_signed_chars(v2[0] as int);
        let j1 = spec_join_i64(v1.drop_last());
        lemma_dec_signed_chars(v1.last() as int);
        let p1 = j1.len() as int;
        assert(spec_join_i64(v1)[p1] == ',');
        assert(spec_join_i64(v2)[p1] == spec_dec_signed(v2[0] as int)[p1]);
        assert(false);
    } else {
        let x = spec_join_i64(v1);
        let j1 = spec_join_i64(v1.drop_last());
        let d1 = spec_dec_signed(v1.last() as int);
        let j2 = spec_join_i64(v2.drop_last());
        let d2 = spec_dec_signed(v2.last() as int);
        lemma_dec_signed_chars(v1.last() as int);
        lemma_dec_signed_chars(v2.last() as int);
        let p1 = j1.len() as int;
        let p2 = j2.len() as int;
        assert(x.len() == p1 + 1 + d1.len());
        assert(x.len() == p2 + 1 + d2.len());
        if p1 < p2 {
            assert(x[p2] == ',');
            assert(x[p2] == d1[p2 - p1 - 1]);
            assert(false);
        } else if p2 < p1 {
            assert(x[p1] == ',');
            assert(x[p1] == d2[p1 - p2 - 1]);
            assert(false);
        } else {
            assert(j1 =~= j2) by {
                assert(forall|i: int| 0 <= i < p1 ==> x[i] == #[trigger] j1[i] && x[i] == j2[i]);
            };
            assert(d1 =~= d2) by {
                assert(forall|i: int|
                    0 <= i < d1.len() ==> x[p1 + 1 + i] == #[trigger] d1[i] && x[p1 + 1 + i]
                        == d2[i]);
            };
            lemma_dec_signed_injective(v1.last() as int, v2.last() as int);
            lemma_join_i64_injective(v1.drop_last(), v2.drop_last());
            assert(v1 =~= v1.drop_last().push(v1.last()));
            assert(v2 =~= v2.drop_last().push(v2.last()));
            assert(v1 =~= v2);
        }
    }
}

/// One duration field followed by its terminating comma splits only one
/// way.
proof fn lemma_u64_field_step(d1: Option<u64>, t1: Seq<char>, d2: Option<u64>, t2: Seq<char>)
    requires
        (match d1 {
            Some(d) => spec_dec(d as nat),
            None => "null"@,
        }) + t1 == (match d2 {
            Some(d) => spec_dec(d as nat),
            None => "null"@,
        }) + t2,
        t1.len() > 0,
        t2.len() > 0,
        t1[0] == ',',
        t2[0] == ',',
    ensures
        d1 == d2,
        t1 == t2,
{
    reveal_strlit("null");
    match (d1, d2) {
        (Some(a), Some(b)) => {
            lemma_dec_digits(a as nat);
            lemma_dec_digits(b as nat);
            lemma_digit_segment(spec_dec(a as nat), t1, spec_dec(b as nat), t2);
            lemma_dec_injective(a as nat, b as nat);
        },
        (Some(a), None) => {
            lemma_dec_digits(a as nat);
            assert((spec_dec(a as nat) + t1)[0] == spec_dec(a as nat)[0]);
            assert(("null"@ + t2)[0] == 'n');
            assert(false);
        },
        (None, Some(b)) => {
            lemma_dec_digits(b as nat);
            assert((spec_dec(b as nat) + t2)[0] == spec_dec(b as nat)[0]);
            assert(("null"@ + t1)[0] == 'n');
            assert(false);
        },
        (None, None) => {
            let x = "null"@ + t1;
            assert(x.len() == 4 + t1.len());
            assert(x.len() == 4 + t2.len());
            assert(t1 =~= t2) by {
                assert(forall|i: int|
                    0 <= i < t1.len() ==> x[4 + i] == #[trigger] t1[i] && x[4 + i] == t2[i]);
            };
        },
    }
}

/// One optional unsigned array followed by anything splits only one way.
proof fn lemma_u64_array_step(
    f1: Option<Seq<u64>>,
    t1: Seq<char>,
    f2: Option<Seq<u64>>,
    t2: Seq<char>,
)
    requires
        spec_u64_array_field(f1) + t1 == spec_u64_array_field(f2) + t2,
        t1.len() > 0,
        t2.len() > 0,
    ensures
        f1 =~~= f2,
        t1 == t2,
{
    reveal_strlit("null");
    reveal_strlit("[");
    reveal_strlit("]");
    match (f1, f2) {
        (Some(v1), Some(v2)) => {
            lemma_join_u64_chars(v1);
            lemma_join_u64_chars(v2);
            let x = spec_u64_array_field(Some(v1)) + t1;
            let a1 = spec_join_u64(v1) + ("]"@ + t1);
            let a2 = spec_join_u64(v2) + ("]"@ + t2);
            assert(a1 =~= x.skip(1));
            assert(a2 =~= (spec_u64_array_field(Some(v2)) + t2).skip(1));
            assert(a1 == a2);
            assert(("]"@ + t1)[0] == ']');
            assert(("]"@ + t2)[0] == ']');
            lemma_body_segment(spec_join_u64(v1), "]"@ + t1, spec_join_u64(v2), "]"@ + t2);
            lemma_join_u64_injective(v1, v2);
            let y = "]"@ + t1;
            assert(y == "]"@ + t2);
            assert(t1 =~= t2) by {
                assert(forall|i: int|
                    0 <= i < t1.len() ==> y[1 + i] == #[trigger] t1[i] && y[1 + i] == t2[i]);
            };
        },
        (Some(v1), None) => {
            assert((spec_u64_array_field(Some(v1)) + t1)[0] == '[');
            assert(("null"@ + t2)[0] == 'n');
            assert(false);
        },
        (None, Some(v2)) => {
            assert((spec_u64_array_field(Some(v2)) + t2)[0] == '[');
            assert(("null"@ + t1)[0] == 'n');
            assert(false);
        },
        (None, None) => {
            let x = "null"@ + t1;
            assert(x.len() == 4 + t1.len());
            assert(x.len() == 4 + t2.len());
            assert(t1 =~= t2) by {
                assert(forall|i: int|
                    0 <= i < t1.len() ==> x[4 + i] == #[trigger] t1[i] && x[4 + i] == t2[i]);
            };
        },
    }
}

/// One optional signed array followed by anything splits only one way.
proof fn lemma_i64_array_step(
    f1: Option<Seq<i64>>,
    t1: Seq<char>,
    f2: Option<Seq<i64>>,
    t2: Seq<char>,
)
    requires
        spec_i64_array_field(f1) + t1 == spec_i64_array_field(f2) + t2,
        t1.len() > 0,
        t2.len() > 0,
    ensures
        f1 =~~= f2,
        t1 == t2,
{
    reveal_strlit("null");
    reveal_strlit("[");
    reveal_strlit("]");
    match (f1, f2) {
        (Some(v1), Some(v2)) => {
            lemma_join_i64_chars(v1);
            lemma_join_i64_chars(v2);
            let x = spec_i64_array_field(Some(v1)) + t1;
            let a1 = spec_join_i64(v1) + ("]"@ + t1);
            let a2 = spec_join_i64(v2) + ("]"@ + t2);
            assert(a1 =~= x.skip(1));
            assert(a2 =~= (spec_i64_array_field(Some(v2)) + t2).skip(1));
            assert(a1 == a2);
            assert(("]"@ + t1)[0] == ']');
            assert(("]"@ + t2)[0] == ']');
            lemma_body_segment(spec_join_i64(v1), "]"@ + t1, spec_join_i64(v2), "]"@ + t2);
            lemma_join_i64_injective(v1, v2);
            let y = "]"@ + t1;
            assert(y == "]"@ + t2);
            assert(t1 =~= t2) by {
                assert(forall|i: int|
                    0 <= i < t1.len() ==> y[1 + i] == #[trigger] t1[i] && y[1 + i] == t2[i]);
            };
        },
        (Some(v1), None) => {
            assert((spec_i64_array_field(Some(v1)) + t1)[0] == '[');
            assert(("null"@ + t2)[0] == 'n');
            assert(false);
        },
        (None, Some(v2)) => {
            assert((spec_i64_array_field(Some(v2)) + t2)[0] == '[');
            assert(("null"@ + t1)[0] == 'n');
            assert(false);
        },
        (None, None) => {
            let x = "null"@ + t1;
            assert(x.len() == 4 + t1.len());
            assert(x.len() == 4 + t2.len());
            assert(t1 =~= t2) by {
                assert(forall|i: int|
                    0 <= i < t1.len() ==> x[4 + i] == #[trigger] t1[i] && x[4 + i] == t2[i]);
            };
        },
    }
}

/// Equal concatenations under the same prefix have equal remainders.
proof fn lemma_strip_prefix(a: Seq<char>, b1: Seq<char>, b2: Seq<char>)
    requires
        a + b1 == a + b2,
    ensures
        b1 == b2,
{
    assert((a + b1).len() == a.len() + b1.len());
    assert((a + b2).len() == a.len() + b2.len());
    assert forall|i: int| 0 <= i < b1.len() implies b1[i] == b2[i] by {
        assert((a + b1)[a.len() + i] == b1[i]);
        assert((a + b2)[a.len() + i] == b2[i]);
    };
    assert(b1 =~= b2);
}

/// Sidecar text determines its fields: two field sets that render to the
/// same text are the same fields.
#[verifier::spinoff_prover]
#[verifier::rlimit(100)]
pub proof fn lemma_sidecar_text_injective(
    du1: Option<u64>,
    sz1: Option<Seq<u64>>,
    ps1: Option<Seq<i64>>,
    ss1: Option<Seq<i64>>,
    vm1: Option<Seq<i64>>,
    x1: Option<Seq<i64>>,
    du2: Option<u64>,
    sz2: Option<Seq<u64>>,
    ps2: Option<Seq<i64>>,
    ss2: Option<Seq<i64>>,
    vm2: Option<Seq<i64>>,
    x2: Option<Seq<i64>>,
)
    requires
        spec_sidecar_text(du1, sz1, ps1, ss1, vm1, x1) == spec_sidecar_text(
            du2,
            sz2,
            ps2,
            ss2,
            vm2,
            x2,
        ),
    ensures
        du1 == du2,
        sz1 =~~= sz2,
        ps1 =~~= ps2,
        ss1 =~~= ss2,
        vm1 =~~= vm2,
        x1 =~~= x2,
{
    reveal_strlit(",\"sizes\":");
    reveal_strlit(",\"psnr\":");
    reveal_strlit(",\"ssim\":");
    reveal_strlit(",\"vmaf\":");
    reveal_strlit(",\"ssimulacra2\":");
    reveal_strlit("}");
    let l1 = ",\"sizes\":"@;
    let l2 = ",\"psnr\":"@;
    let l3 = ",\"ssim\":"@;
    let l4 = ",\"vmaf\":"@;
    let l5 = ",\"ssimulacra2\":"@;
    let l6 = "}"@;
    let d1 = match du1 {
        Some(d) => spec_dec(d as nat),
        None => "null"@,
    };
    let d2 = match du2 {
        Some(d) => spec_dec(d as nat),
        None => "null"@,
    };
    let tail5_1 = spec_i64_array_field(x1) + l6;
    let tail5_2 = spec_i64_array_field(x2) + l6;
    let tail4_1 = spec_i64_array_field(vm1) + (l5 + tail5_1);
    let tail4_2 = spec_i64_array_field(vm2) + (l5 + tail5_2);
    let tail3_1 = spec_i64_array_field(ss1) + (l4 + tail4_1);
    let tail3_2 = spec_i64_array_field(ss2) + (l4 + tail4_2);
    let tail2_1 = spec_i64_array_field(ps1) + (l3 + tail3_1);
    let tail2_2 = spec_i64_array_field(ps2) + (l3 + tail3_2);
    let tail1_1 = spec_u64_array_field(sz1) + (l2 + tail2_1);
    let tail1_2 = spec_u64_array_field(sz2) + (l2 + tail2_2);
    let rest1 = l1 + tail1_1;
    let rest2 = l1 + tail1_2;

    lemma_strip_prefix("{\"duration\":"@, d1 + rest1, d2 + rest2);
    assert(rest1[0] == l1[0]);
    assert(rest2[0] == l1[0]);
    assert(l1[0] == ',');
    lemma_u64_field_step(du1, rest1, du2, rest2);
    lemma_strip_prefix(l1, tail1_1, tail1_2);
    lemma_u64_array_step(sz1, l2 + tail2_1, sz2, l2 + tail2_2);
    lemma_strip_prefix(l2, tail2_1, tail2_2);
    lemma_i64_array_step(ps1, l3 + tail3_1, ps2, l3 + tail3_2);
    lemma_strip_prefix(l3, tail3_1, tail3_2);
    lemma_i64_array_step(ss1, l4 + tail4_1, ss2, l4 + tail4_2);
    lemma_strip_prefix(l4, tail4_1, tail4_2);
    lemma_i64_array_step(vm1, l5 + tail5_1, vm2, l5 + tail5_2);
    lemma_strip_prefix(l5, tail5_1, tail5_2);
    lemma_i64_array_step(x1, l6, x2, l6);
}

/// The metric-cache round trip: a loaded sidecar that renders to the text a
/// record wrote holds exactly that record's fields. Together with the
/// loader's contract this pins the cache down: whatever
/// `parse_sidecar(sidecar_json(m))` accepts is `m`'s own data.
pub proof fn lemma_sidecar_round_trip(m: ClipMetrics, d: SidecarData)
    requires
        spec_sidecar_json(m) == spec_sidecar_data_text(d),
    ensures
        d.duration == m.spec_duration_micros(),
        opt_u64_view(d.sizes) =~~= m.spec_sizes(),
        opt_i64_view(d.psnr) =~~= m.spec_psnr(),
        opt_i64_view(d.ssim) =~~= m.spec_ssim(),
        opt_i64_view(d.vmaf) =~~= m.spec_vmaf(),
        opt_i64_view(d.ssimulacra2) =~~= m.spec_ssimulacra2(),
{
    lemma_sidecar_text_injective(
        m.spec_duration_micros(),
        m.spec_sizes(),
        m.spec_psnr(),
        m.spec_ssim(),
        m.spec_vmaf(),
        m.spec_ssimulacra2(),
        d.duration,
        opt_u64_view(d.sizes),
        opt_i64_view(d.psnr),
        opt_i64_view(d.ssim),
        opt_i64_view(d.vmaf),
        opt_i64_view(d.ssimulacra2),
    );
}

} // verus!
