//! Concatenation order. Workers finish scenes in no particular order; before
//! the muxer runs, clips are sorted by path, and because clip paths embed
//! their zero-padded scene index, path order is scene order. The muxer's
//! argument list keeps that order: the first input plain, every later input
//! prefixed with `+` to request appending.

use vstd::prelude::*;

use crate::metrics::ClipMetrics;
use crate::text::{spec_dec, spec_digit, spec_zero_pad};

verus! {

broadcast use vstd::seq_lib::group_to_multiset_ensures;

/// Lexicographic order on character sequences (by unicode scalar value),
/// the order paths are sorted in.
pub open spec fn lex_le(a: Seq<char>, b: Seq<char>) -> bool
    decreases a.len(),
{
    if a.len() == 0 {
        true
    } else if b.len() == 0 {
        false
    } else if a[0] != b[0] {
        (a[0] as int) < (b[0] as int)
    } else {
        lex_le(a.drop_first(), b.drop_first())
    }
}

/// Sequences that agree on a prefix compare as their remainders do.
proof fn lemma_lex_skip(a: Seq<char>, b: Seq<char>, i: int)
    requires
        0 <= i <= a.len(),
        i <= b.len(),
        forall|k: int| 0 <= k < i ==> a[k] == b[k],
    ensures
        lex_le(a, b) == lex_le(a.skip(i), b.skip(i)),
    decreases i,
{
    if i == 0 {
        assert(a.skip(0) =~= a);
        assert(b.skip(0) =~= b);
    } else {
        assert(a[0] == b[0]);
        assert(a.len() > 0 && b.len() > 0);
        assert(a.drop_first().skip(i - 1) =~= a.skip(i));
        assert(b.drop_first().skip(i - 1) =~= b.skip(i));
        lemma_lex_skip(a.drop_first(), b.drop_first(), i - 1);
    }
}

/// The order is total: one direction always holds.
pub proof fn lemma_lex_total(a: Seq<char>, b: Seq<char>)
    ensures
        lex_le(a, b) || lex_le(b, a),
    decreases a.len(),
{
    if a.len() > 0 && b.len() > 0 && a[0] == b[0] {
        lemma_lex_total(a.drop_first(), b.drop_first());
    }
}

/// The order is transitive.
pub proof fn lemma_lex_trans(a: Seq<char>, b: Seq<char>, c: Seq<char>)
    requires
        lex_le(a, b),
        lex_le(b, c),
    ensures
        lex_le(a, c),
    decreases a.len(),
{
    if a.len() > 0 && b.len() > 0 && c.len() > 0 && a[0] == b[0] && b[0] == c[0] {
        lemma_lex_trans(a.drop_first(), b.drop_first(), c.drop_first());
    }
}

/// Compares two strings in lexicographic order.
pub fn str_lex_le(a: &str, b: &str) -> (r: bool)
    ensures
        r == lex_le(a@, b@),
{
    let a_len = a.unicode_len();
    let b_len = b.unicode_len();
    let mut i: usize = 0;
    while i < a_len && i < b_len && a.get_char(i) == b.get_char(i)
        invariant
            a_len == a@.len(),
            b_len == b@.len(),
            i <= a_len,
            i <= b_len,
            forall|k: int| 0 <= k < i ==> a@[k] == b@[k],
        decreases a_len - i,
    {
        i += 1;
    }
    proof {
        lemma_lex_skip(a@, b@, i as int);
    }
    if i == a_len {
        true
    } else if i == b_len {
        proof {
            assert(a@.skip(i as int).len() > 0);
        }
        false
    } else {
        let ca = a.get_char(i);
        let cb = b.get_char(i);
        proof {
            assert(a@.skip(i as int)[0] == a@[i as int]);
            assert(b@.skip(i as int)[0] == b@[i as int]);
        }
        (ca as u32) < (cb as u32)
    }
}

/// Whether the clips stand in ascending path order.
pub open spec fn clips_sorted_by_path(s: Seq<ClipMetrics>) -> bool {
    forall|i: int, j: int|
        0 <= i < j < s.len() ==> lex_le(
            (#[trigger] s[i]).spec_path(),
            (#[trigger] s[j]).spec_path(),
        )
}

/// Sorts the finished clips by path, restoring scene order before the muxer
/// runs: exactly the same clips, in ascending path order.
pub fn sort_clips_by_path(clips: Vec<ClipMetrics>) -> (r: Vec<ClipMetrics>)
    ensures
        r@.to_multiset() == clips@.to_multiset(),
        r@.len() == clips@.len(),
        clips_sorted_by_path(r@),
{
    let ghost input = clips@;
    let mut work = clips;
    let mut r: Vec<ClipMetrics> = Vec::new();
    while work.len() > 0
        invariant
            r@.to_multiset().add(work@.to_multiset()) =~= input.to_multiset(),
            r@.len() + work@.len() == input.len(),
            clips_sorted_by_path(r@),
        decreases work@.len(),
    {
        let ghost before = work@;
        let x = match work.pop() {
            Some(x) => x,
            None => {
                proof {
                    assert(false);
                }
                unreached()
            },
        };
        proof {
            assert(before =~= work@.push(x));
        }
        let mut pos: usize = 0;
        while pos < r.len() && str_lex_le(r[pos].path().as_str(), x.path().as_str())
            invariant
                pos <= r@.len(),
                clips_sorted_by_path(r@),
                forall|k: int|
                    0 <= k < pos ==> lex_le((#[trigger] r@[k]).spec_path(), x.spec_path()),
            decreases r@.len() - pos,
        {
            pos += 1;
        }
        let ghost old_r = r@;
        let ghost xp = x.spec_path();
        r.insert(pos, x);
        proof {
            assert forall|a: int, b: int| 0 <= a < b < r@.len() implies lex_le(
                (#[trigger] r@[a]).spec_path(),
                (#[trigger] r@[b]).spec_path(),
            ) by {
                if b == pos {
                    // everything before the insertion point was seen to be
                    // at most the new clip
                } else if a == pos {
                    // the scan stopped because the clip at `pos` was not at
                    // most the new one, so the new one is at most it, and by
                    // transitivity at most everything after it
                    lemma_lex_total(old_r[pos as int].spec_path(), xp);
                    if b - 1 > pos {
                        lemma_lex_trans(xp, old_r[pos as int].spec_path(), old_r[b - 1].spec_path());
                    }
                }
            };
            assert(r@.to_multiset().add(work@.to_multiset()) =~= input.to_multiset());
        }
    }
    proof {
        assert(r@.to_multiset() =~= input.to_multiset());
    }
    r
}

/// The muxer's input list: the clips' paths in their given order, the first
/// plain and every later one prefixed with `+`, which asks the muxer to
/// append it.
pub fn merge_arguments(paths: &Vec<String>) -> (r: Vec<String>)
    ensures
        r@.len() == paths@.len(),
        paths@.len() > 0 ==> r@[0]@ == paths@[0]@,
        forall|i: int| 1 <= i < r@.len() ==> (#[trigger] r@[i])@ == "+"@ + paths@[i]@,
{
    let mut r: Vec<String> = Vec::new();
    let mut i: usize = 0;
    while i < paths.len()
        invariant
            i <= paths@.len(),
            r@.len() == i,
            i > 0 && paths@.len() > 0 ==> r@[0]@ == paths@[0]@,
            forall|k: int| 1 <= k < i ==> (#[trigger] r@[k])@ == "+"@ + paths@[k]@,
        decreases paths@.len() - i,
    {
        if i == 0 {
            r.push(paths[i].clone());
        } else {
            let mut s = String::new();
            s.append("+");
            s.append(paths[i].as_str());
            r.push(s);
        }
        i += 1;
    }
    r
}

/// Powers of ten.
pub open spec fn pow10(k: nat) -> nat
    decreases k,
{
    if k == 0 {
        1
    } else {
        10 * pow10((k - 1) as nat)
    }
}

/// A decimal rendering has at least one character.
proof fn lemma_dec_len_pos(n: nat)
    ensures
        spec_dec(n).len() >= 1,
    decreases n,
{
    if n >= 10 {
        lemma_dec_len_pos(n / 10);
    }
}

/// A value below `10^k` renders in at most `k` digits.
proof fn lemma_dec_len_bound(n: nat, k: nat)
    requires
        k >= 1,
        n < pow10(k),
    ensures
        spec_dec(n).len() <= k,
    decreases n,
{
    if n >= 10 {
        assert(pow10(k) == 10 * pow10((k - 1) as nat));
        assert(n / 10 < pow10((k - 1) as nat)) by (nonlinear_arith)
            requires
                n < 10 * pow10((k - 1) as nat),
                n >= 10,
        ;
        assert(k >= 2) by {
            if k == 1 {
                assert(pow10(1nat) == 10);
            }
        };
        lemma_dec_len_bound(n / 10, (k - 1) as nat);
    }
}

/// Whether every character is a decimal digit.
pub open spec fn all_digits(s: Seq<char>) -> bool {
    forall|i: int| 0 <= i < s.len() ==> 48 <= (#[trigger] s[i]) as int <= 57
}

/// A digit character's code is forty-eight plus its value.
proof fn lemma_digit_code(d: int)
    requires
        0 <= d <= 9,
    ensures
        spec_digit(d) as int == 48 + d,
{
}

/// The numeric value of a digit string, most significant first.
pub open spec fn digits_val(s: Seq<char>) -> int
    decreases s.len(),
{
    if s.len() == 0 {
        0
    } else {
        (s[0] as int - 48) * pow10((s.len() - 1) as nat) + digits_val(s.drop_first())
    }
}

/// Appending a digit multiplies the value by ten and adds the digit.
pub proof fn lemma_digits_val_push(s: Seq<char>, c: char)
    ensures
        digits_val(s.push(c)) == digits_val(s) * 10 + (c as int - 48),
    decreases s.len(),
{
    reveal_with_fuel(digits_val, 3);
    if s.len() == 0 {
        let t = s.push(c);
        assert(t.len() == 1);
        assert(t[0] == c);
        assert(t.drop_first() =~= Seq::<char>::empty());
        assert(digits_val(Seq::<char>::empty()) == 0);
        assert(pow10(0nat) == 1);
        assert(digits_val(t) == (t[0] as int - 48) * pow10((t.len() - 1) as nat) + digits_val(
            t.drop_first(),
        ));
        assert((t[0] as int - 48) * pow10(0nat) == t[0] as int - 48) by (nonlinear_arith)
            requires
                pow10(0nat) == 1,
        ;
        assert(digits_val(s) == 0);
    } else {
        let t = s.push(c);
        assert(t[0] == s[0]);
        assert(t.drop_first() =~= s.drop_first().push(c));
        lemma_digits_val_push(s.drop_first(), c);
        let l = (s.len() - 1) as nat;
        assert((t.len() - 1) as nat == s.len());
        assert(pow10(s.len() as nat) == 10 * pow10(l));
        assert(digits_val(t) == (s[0] as int - 48) * (10 * pow10(l)) + (digits_val(s.drop_first())
            * 10 + (c as int - 48)));
        assert(digits_val(t) == digits_val(s) * 10 + (c as int - 48)) by (nonlinear_arith)
            requires
                digits_val(t) == (s[0] as int - 48) * (10 * pow10(l)) + (digits_val(s.drop_first())
                    * 10 + (c as int - 48)),
                digits_val(s) == (s[0] as int - 48) * pow10(l) + digits_val(s.drop_first()),
        ;
    }
}

/// The decimal rendering of `n` is all digits and evaluates back to `n`.
pub proof fn lemma_dec_val_public(n: nat)
    ensures
        all_digits(spec_dec(n)),
        digits_val(spec_dec(n)) == n,
{
    lemma_dec_val(n);
}

/// The decimal rendering of `n` is all digits and evaluates back to `n`.
proof fn lemma_dec_val(n: nat)
    ensures
        all_digits(spec_dec(n)),
        digits_val(spec_dec(n)) == n,
    decreases n,
{
    if n < 10 {
        lemma_digit_code(n as int);
        assert(spec_dec(n) =~= Seq::<char>::empty().push(spec_digit(n as int)));
        lemma_digits_val_push(Seq::<char>::empty(), spec_digit(n as int));
    } else {
        lemma_dec_val(n / 10);
        lemma_digit_code((n % 10) as int);
        assert(spec_dec(n) =~= spec_dec(n / 10).push(spec_digit((n % 10) as int)));
        lemma_digits_val_push(spec_dec(n / 10), spec_digit((n % 10) as int));
        assert(n / 10 * 10 + n % 10 == n) by {
            vstd::arithmetic::div_mod::lemma_fundamental_div_mod(n as int, 10);
        };
        assert forall|i: int| 0 <= i < spec_dec(n).len() implies 48 <= (#[trigger] spec_dec(n)[i])
            as int <= 57 by {
            if i < spec_dec(n / 10).len() {
                assert(spec_dec(n)[i] == spec_dec(n / 10)[i]);
            }
        };
    }
}

/// Leading zeros do not change a digit string's value.
proof fn lemma_leading_zeros(z: nat, s: Seq<char>)
    ensures
        digits_val(Seq::new(z, |i: int| '0') + s) == digits_val(s),
    decreases z,
{
    if z == 0 {
        assert(Seq::new(0nat, |i: int| '0') + s =~= s);
    } else {
        let t = Seq::new(z, |i: int| '0') + s;
        assert(t[0] == '0');
        assert(t.drop_first() =~= Seq::new((z - 1) as nat, |i: int| '0') + s);
        lemma_leading_zeros((z - 1) as nat, s);
        assert((t[0] as int - 48) * pow10((t.len() - 1) as nat) == 0) by (nonlinear_arith)
            requires
                t[0] as int == 48,
        ;
    }
}

/// The zero-padded rendering of `n < 10^w` is exactly `w` digits and still
/// evaluates to `n`.
proof fn lemma_zero_pad_val(n: nat, w: nat)
    requires
        w >= 1,
        n < pow10(w),
    ensures
        spec_zero_pad(n, w).len() == w,
        all_digits(spec_zero_pad(n, w)),
        digits_val(spec_zero_pad(n, w)) == n,
{
    lemma_dec_len_pos(n);
    lemma_dec_len_bound(n, w);
    lemma_dec_val(n);
    if spec_dec(n).len() >= w {
        assert(spec_zero_pad(n, w) == spec_dec(n));
    } else {
        let z = (w - spec_dec(n).len()) as nat;
        lemma_leading_zeros(z, spec_dec(n));
        assert forall|i: int| 0 <= i < spec_zero_pad(n, w).len() implies 48 <= (
        #[trigger] spec_zero_pad(n, w)[i]) as int <= 57 by {
            if i >= z {
                assert(spec_zero_pad(n, w)[i] == spec_dec(n)[i - z]);
            } else {
                assert(spec_zero_pad(n, w)[i] == '0');
            }
        };
    }
}

/// A digit string's value is below `10^len`.
pub proof fn lemma_digits_val_bound(s: Seq<char>)
    requires
        all_digits(s),
    ensures
        0 <= digits_val(s) < pow10(s.len()),
    decreases s.len(),
{
    if s.len() > 0 {
        lemma_digits_val_bound(s.drop_first());
        let l = (s.len() - 1) as nat;
        assert(0 <= (s[0] as int - 48) * pow10(l) <= 9 * pow10(l)) by (nonlinear_arith)
            requires
                0 <= s[0] as int - 48 <= 9,
                pow10(l) >= 0,
        ;
        assert(pow10(s.len()) == 10 * pow10(l));
        assert(pow10(l) > 0) by {
            lemma_pow10_pos(l);
        };
    }
}

/// Powers of ten are positive.
proof fn lemma_pow10_pos(k: nat)
    ensures
        pow10(k) >= 1,
    decreases k,
{
    if k > 0 {
        lemma_pow10_pos((k - 1) as nat);
    }
}

/// Equal-length digit strings compare lexicographically as their values do.
proof fn lemma_lex_by_val(a: Seq<char>, b: Seq<char>)
    requires
        all_digits(a),
        all_digits(b),
        a.len() == b.len(),
        digits_val(a) < digits_val(b),
    ensures
        lex_le(a, b),
        a != b,
    decreases a.len(),
{
    assert(a.len() > 0);
    let l = (a.len() - 1) as nat;
    lemma_digits_val_bound(a.drop_first());
    lemma_digits_val_bound(b.drop_first());
    lemma_pow10_pos(l);
    if a[0] == b[0] {
        assert(all_digits(a.drop_first())) by {
            assert forall|i: int| 0 <= i < a.drop_first().len() implies 48 <= (
            #[trigger] a.drop_first()[i]) as int <= 57 by {
                assert(a.drop_first()[i] == a[i + 1]);
            };
        };
        assert(all_digits(b.drop_first())) by {
            assert forall|i: int| 0 <= i < b.drop_first().len() implies 48 <= (
            #[trigger] b.drop_first()[i]) as int <= 57 by {
                assert(b.drop_first()[i] == b[i + 1]);
            };
        };
        lemma_lex_by_val(a.drop_first(), b.drop_first());
        assert(a != b) by {
            let j = choose|j: int|
                0 <= j < a.drop_first().len() && a.drop_first()[j] != b.drop_first()[j];
            assert(a.drop_first() != b.drop_first());
            if a == b {
                assert(a.drop_first() =~= b.drop_first());
            }
        };
    } else if (a[0] as int) < (b[0] as int) {
    } else {
        assert((a[0] as int - 48) >= (b[0] as int - 48) + 1);
        assert((a[0] as int - 48) * pow10(l) >= ((b[0] as int - 48) + 1) * pow10(l))
            by (nonlinear_arith)
            requires
                (a[0] as int - 48) >= (b[0] as int - 48) + 1,
                pow10(l) >= 1,
        ;
        assert(((b[0] as int - 48) + 1) * pow10(l) == (b[0] as int - 48) * pow10(l) + pow10(l))
            by (nonlinear_arith);
        assert(false);
    }
}

/// Scene order through path order: a smaller index, zero-padded to the same
/// width, renders strictly earlier in lexicographic order. Clip paths embed
/// their scene index this way, so sorting clips by path lines the muxer's
/// inputs up in ascending scene order.
pub proof fn lemma_zero_pad_order(n1: nat, n2: nat, w: nat)
    requires
        w >= 1,
        n1 < n2,
        n2 < pow10(w),
    ensures
        lex_le(spec_zero_pad(n1, w), spec_zero_pad(n2, w)),
        spec_zero_pad(n1, w) != spec_zero_pad(n2, w),
{
    lemma_zero_pad_val(n1, w);
    lemma_zero_pad_val(n2, w);
    lemma_lex_by_val(spec_zero_pad(n1, w), spec_zero_pad(n2, w));
}

} // verus!

