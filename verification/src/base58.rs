//! base58btc (Bitcoin alphabet) and Multikey (multicodec 0xed01 for
//! Ed25519 public keys), with their round-trip laws.
use vstd::arithmetic::power::pow;
use vstd::prelude::*;

use crate::text::{chars_of, string_of};

verus! {

// ---------------------------------------------------------------------------
// positional values
// ---------------------------------------------------------------------------

/// Value of a digit sequence in base `b`, most significant digit first.
pub open spec fn val(s: Seq<u8>, b: nat) -> nat
    decreases s.len(),
{
    if s.len() == 0 {
        0
    } else {
        val(s.drop_last(), b) * b + s.last() as nat
    }
}

/// The base-`b` digits of `n`, most significant first, without leading
/// zeros (empty for zero).
pub open spec fn digits(n: nat, b: nat) -> Seq<u8>
    decreases n,
{
    if n == 0 || b < 2 {
        Seq::empty()
    } else {
        proof {
            assert(n / b < n) by (nonlinear_arith)
                requires
                    b >= 2,
                    n > 0,
            ;
        }
        digits(n / b, b).push((n % b) as u8)
    }
}

pub open spec fn all_below(s: Seq<u8>, b: nat) -> bool {
    forall|i: int| 0 <= i < s.len() ==> (#[trigger] s[i] as nat) < b
}

pub open spec fn no_leading_zero(s: Seq<u8>) -> bool {
    s.len() == 0 || s[0] != 0
}

pub proof fn lemma_pow_step(b: nat, n: nat)
    ensures
        pow(b as int, n + 1) == b * pow(b as int, n),
        pow(b as int, 0) == 1,
{
    reveal(pow);
}

pub proof fn lemma_pow_pos(b: nat, n: nat)
    requires
        b >= 1,
    ensures
        pow(b as int, n) >= 1,
    decreases n,
{
    reveal(pow);
    if n > 0 {
        lemma_pow_pos(b, (n - 1) as nat);
        assert(b * pow(b as int, (n - 1) as nat) >= 1) by (nonlinear_arith)
            requires
                b >= 1,
                pow(b as int, (n - 1) as nat) >= 1,
        ;
    }
}

pub proof fn lemma_val_prepend(d: u8, s: Seq<u8>, b: nat)
    ensures
        val(seq![d] + s, b) == d as nat * pow(b as int, s.len()) + val(s, b),
    decreases s.len(),
{
    let t = seq![d] + s;
    if s.len() == 0 {
        assert(t.drop_last() =~= Seq::<u8>::empty());
        assert(t.last() == d);
        lemma_pow_step(b, 0);
        assert(val(t, b) == val(t.drop_last(), b) * b + d as nat);
        assert(val(t.drop_last(), b) == 0);
        assert(0 * b == 0);
        assert(d as nat * 1 == d as nat);
    } else {
        assert(t.drop_last() =~= seq![d] + s.drop_last());
        assert(t.last() == s.last());
        lemma_val_prepend(d, s.drop_last(), b);
        lemma_pow_step(b, (s.len() - 1) as nat);
        let p = pow(b as int, (s.len() - 1) as nat);
        let v = val(s.drop_last(), b);
        assert(val(t, b) == val(t.drop_last(), b) * b + t.last() as nat);
        assert(val(t.drop_last(), b) == d as nat * p + v);
        assert(val(s, b) == v * b + s.last() as nat);
        assert(pow(b as int, s.len()) == b * p);
        assert((d as nat * p + v) * b + s.last() as nat == d as nat * (b * p) + (v * b
            + s.last() as nat)) by (nonlinear_arith);
    }
}

pub proof fn lemma_val_zeros(z: nat, s: Seq<u8>, b: nat)
    ensures
        val(Seq::new(z, |i: int| 0u8) + s, b) == val(s, b),
    decreases z,
{
    if z > 0 {
        let rest = Seq::new((z - 1) as nat, |i: int| 0u8) + s;
        assert(Seq::new(z, |i: int| 0u8) + s =~= seq![0u8] + rest);
        lemma_val_prepend(0u8, rest, b);
        lemma_val_zeros((z - 1) as nat, s, b);
    }
}

pub proof fn lemma_val_bound(s: Seq<u8>, b: nat)
    requires
        b >= 1,
        all_below(s, b),
    ensures
        val(s, b) < pow(b as int, s.len()),
    decreases s.len(),
{
    lemma_pow_step(b, 0);
    if s.len() > 0 {
        let d = s.drop_last();
        assert(all_below(d, b)) by {
            assert forall|i: int| 0 <= i < d.len() implies (#[trigger] d[i] as nat) < b by {
                assert(d[i] == s[i]);
            }
        }
        lemma_val_bound(d, b);
        lemma_pow_step(b, d.len());
        let p = pow(b as int, d.len());
        let v = val(d, b);
        let l = s.last() as nat;
        assert(l < b);
        assert(v * b + l < b * p) by (nonlinear_arith)
            requires
                v < p,
                l < b,
        ;
    }
}

pub proof fn lemma_val_lead(s: Seq<u8>, b: nat)
    requires
        s.len() > 0,
        s[0] != 0,
        b >= 1,
    ensures
        val(s, b) >= pow(b as int, (s.len() - 1) as nat),
{
    let rest = s.drop_first();
    assert(s =~= seq![s[0]] + rest);
    lemma_val_prepend(s[0], rest, b);
    lemma_pow_pos(b, rest.len());
    let p = pow(b as int, rest.len());
    assert(s[0] as nat * p >= p) by (nonlinear_arith)
        requires
            s[0] as nat >= 1,
            p >= 1,
    ;
}

pub proof fn lemma_divmod(v: nat, b: nat, l: nat)
    requires
        b >= 1,
        l < b,
    ensures
        (v * b + l) / b == v,
        (v * b + l) % b == l,
{
    assert((v * b + l) / b == v && (v * b + l) % b == l) by (nonlinear_arith)
        requires
            b >= 1,
            l < b,
    ;
}

pub proof fn lemma_digits(n: nat, b: nat)
    requires
        2 <= b <= 256,
    ensures
        val(digits(n, b), b) == n,
        all_below(digits(n, b), b),
        no_leading_zero(digits(n, b)),
        digits(n, b).len() == 0 <==> n == 0,
    decreases n,
{
    if n > 0 {
        assert(n / b < n) by (nonlinear_arith)
            requires
                b >= 2,
                n > 0,
        ;
        lemma_digits(n / b, b);
        let d = digits(n / b, b);
        let t = d.push((n % b) as u8);
        assert(t.drop_last() =~= d);
        assert(n == (n / b) * b + n % b) by (nonlinear_arith)
            requires
                b >= 2,
        ;
        assert(n % b < b) by (nonlinear_arith)
            requires
                b >= 2,
        ;
        assert forall|i: int| 0 <= i < t.len() implies (#[trigger] t[i] as nat) < b by {
            if i < d.len() {
                assert(t[i] == d[i]);
            }
        }
        if d.len() == 0 {
            assert(n / b == 0);
            assert(n % b == n) by (nonlinear_arith)
                requires
                    b >= 2,
                    n / b == 0,
            ;
        } else {
            assert(t[0] == d[0]);
        }
    }
}

pub proof fn lemma_digits_unique(s: Seq<u8>, b: nat)
    requires
        2 <= b <= 256,
        all_below(s, b),
        no_leading_zero(s),
    ensures
        digits(val(s, b), b) == s,
    decreases s.len(),
{
    if s.len() > 0 {
        let d = s.drop_last();
        assert(all_below(d, b)) by {
            assert forall|i: int| 0 <= i < d.len() implies (#[trigger] d[i] as nat) < b by {
                assert(d[i] == s[i]);
            }
        }
        if d.len() > 0 {
            assert(d[0] == s[0]);
        }
        lemma_digits_unique(d, b);
        lemma_val_lead(s, b);
        lemma_pow_pos(b, (s.len() - 1) as nat);
        let n = val(s, b);
        assert(n > 0);
        lemma_divmod(val(d, b), b, s.last() as nat);
        assert(digits(n, b) == digits(n / b, b).push((n % b) as u8));
        assert(s =~= d.push(s.last()));
    }
}

// ---------------------------------------------------------------------------
// leading zeros / ones
// ---------------------------------------------------------------------------

pub open spec fn lead_zeros(s: Seq<u8>) -> nat
    decreases s.len(),
{
    if s.len() > 0 && s[0] == 0 {
        1 + lead_zeros(s.drop_first())
    } else {
        0
    }
}

pub proof fn lemma_lead_zeros(s: Seq<u8>)
    ensures
        lead_zeros(s) <= s.len(),
        s =~= Seq::new(lead_zeros(s), |i: int| 0u8) + s.skip(lead_zeros(s) as int),
        no_leading_zero(s.skip(lead_zeros(s) as int)),
    decreases s.len(),
{
    if s.len() > 0 && s[0] == 0 {
        lemma_lead_zeros(s.drop_first());
        let z = lead_zeros(s.drop_first());
        assert(s.drop_first().skip(z as int) =~= s.skip(z as int + 1));
        assert forall|i: int| 0 <= i < s.len() implies s[i] == (Seq::new(z + 1, |i: int| 0u8)
            + s.skip(z as int + 1))[i] by {
            if i > 0 {
                assert(s[i] == s.drop_first()[i - 1]);
            }
        }
    } else {
        assert(s.skip(0) =~= s);
    }
}

pub proof fn lemma_lead_zeros_of(z: nat, t: Seq<u8>)
    requires
        no_leading_zero(t),
    ensures
        lead_zeros(Seq::new(z, |i: int| 0u8) + t) == z,
    decreases z,
{
    let s = Seq::new(z, |i: int| 0u8) + t;
    if z > 0 {
        assert(s.drop_first() =~= Seq::new((z - 1) as nat, |i: int| 0u8) + t);
        lemma_lead_zeros_of((z - 1) as nat, t);
    } else {
        assert(s =~= t);
    }
}

pub open spec fn lead_ones(s: Seq<char>) -> nat
    decreases s.len(),
{
    if s.len() > 0 && s[0] == '1' {
        1 + lead_ones(s.drop_first())
    } else {
        0
    }
}

// ---------------------------------------------------------------------------
// base58btc
// ---------------------------------------------------------------------------

/// The base58btc alphabet
/// "123456789ABCDEFGHJKLMNPQRSTUVWXYZabcdefghijkmnopqrstuvwxyz".
pub open spec fn alpha(d: nat) -> char {
    if d < 9 {
        (d + 49) as char
    } else if d < 17 {
        (d - 9 + 65) as char
    } else if d < 22 {
        (d - 17 + 74) as char
    } else if d < 33 {
        (d - 22 + 80) as char
    } else if d < 44 {
        (d - 33 + 97) as char
    } else {
        (d - 44 + 109) as char
    }
}

/// Position of a character in the alphabet.
pub open spec fn alpha_index(c: char) -> Option<nat> {
    let u = c as u32 as nat;
    if 49 <= u <= 57 {
        Some((u - 49) as nat)
    } else if 65 <= u <= 72 {
        Some((u - 65 + 9) as nat)
    } else if 74 <= u <= 78 {
        Some((u - 74 + 17) as nat)
    } else if 80 <= u <= 90 {
        Some((u - 80 + 22) as nat)
    } else if 97 <= u <= 107 {
        Some((u - 97 + 33) as nat)
    } else if 109 <= u <= 122 {
        Some((u - 109 + 44) as nat)
    } else {
        None
    }
}

pub proof fn lemma_alpha(d: nat)
    requires
        d < 58,
    ensures
        alpha_index(alpha(d)) == Some(d),
        (alpha(d) == '1') == (d == 0),
{
}

pub open spec fn b58_body(bytes: Seq<u8>) -> Seq<char> {
    Seq::new(lead_zeros(bytes), |i: int| '1') + digits(val(bytes, 256), 58).map_values(
        |d: u8| alpha(d as nat),
    )
}

/// base58btc encoding: one '1' per leading zero byte, then the base-58
/// digits of the big-endian value; "1" for the empty input.
pub open spec fn b58_spec(bytes: Seq<u8>) -> Seq<char> {
    if b58_body(bytes).len() == 0 {
        seq!['1']
    } else {
        b58_body(bytes)
    }
}

/// base58btc decoding: every character must be in the alphabet; one zero
/// byte per leading '1', then the base-256 digits of the value.
pub open spec fn b58_decode_spec(s: Seq<char>) -> Option<Seq<u8>> {
    if forall|i: int| 0 <= i < s.len() ==> (#[trigger] alpha_index(s[i])) is Some {
        Some(
            Seq::new(lead_ones(s), |i: int| 0u8) + digits(
                val(s.map_values(|c: char| alpha_index(c)->0 as u8), 58),
                256,
            ),
        )
    } else {
        None
    }
}

fn alpha_char(d: u8) -> (c: char)
    requires
        d < 58,
    ensures
        c == alpha(d as nat),
{
    if d < 9 {
        (d + 49) as char
    } else if d < 17 {
        (d - 9 + 65) as char
    } else if d < 22 {
        (d - 17 + 74) as char
    } else if d < 33 {
        (d - 22 + 80) as char
    } else if d < 44 {
        (d - 33 + 97) as char
    } else {
        (d - 44 + 109) as char
    }
}

fn alpha_position(c: char) -> (r: Option<u8>)
    ensures
        match r {
            Some(x) => alpha_index(c) == Some(x as nat) && x < 58,
            None => alpha_index(c) is None,
        },
{
    let u = c as u32;
    if 49 <= u && u <= 57 {
        Some((u - 49) as u8)
    } else if 65 <= u && u <= 72 {
        Some((u - 65 + 9) as u8)
    } else if 74 <= u && u <= 78 {
        Some((u - 74 + 17) as u8)
    } else if 80 <= u && u <= 90 {
        Some((u - 80 + 22) as u8)
    } else if 97 <= u && u <= 107 {
        Some((u - 97 + 33) as u8)
    } else if 109 <= u && u <= 122 {
        Some((u - 109 + 44) as u8)
    } else {
        None
    }
}

/// One step of positional base conversion: `digits` (base `to`, value
/// `val(digits)`) becomes the digits of `val(digits) * from + x`.
fn mul_add_digits(digits: &mut Vec<u8>, from: u32, to: u32, x: u32)
    requires
        (from == 256 && to == 58) || (from == 58 && to == 256),
        x < from,
        all_below(old(digits)@, to as nat),
        no_leading_zero(old(digits)@),
    ensures
        val(final(digits)@, to as nat) == val(old(digits)@, to as nat) * from as nat + x as nat,
        all_below(final(digits)@, to as nat),
        no_leading_zero(final(digits)@),
{
    let ghost old_d = digits@;
    let ghost n = old_d.len();
    let ghost b = to as nat;
    let mut carry: u32 = x;
    let mut j: usize = digits.len();
    proof {
        assert(old_d.skip(n as int) =~= Seq::<u8>::empty());
        assert(digits@.skip(n as int) =~= Seq::<u8>::empty());
        lemma_pow_step(b, 0);
    }
    while j > 0
        invariant
            (from == 256 && to == 58) || (from == 58 && to == 256),
            b == to as nat,
            j <= n,
            n == old_d.len(),
            digits@.len() == n,
            carry < from,
            all_below(old_d, b),
            forall|k: int| 0 <= k < j ==> digits@[k] == old_d[k],
            forall|k: int| j <= k < n ==> (#[trigger] digits@[k] as nat) < b,
            val(digits@.skip(j as int), b) + carry * pow(b as int, (n - j) as nat) == from
                * val(old_d.skip(j as int), b) + x,
        decreases j,
    {
        j = j - 1;
        let ghost dj = old_d[j as int];
        let ghost c0 = carry;
        assert(digits@[j as int] == dj);
        assert((dj as nat) < b);
        let t: u32 = carry + (digits[j] as u32) * from;
        assert(t < 15000) by (nonlinear_arith)
            requires
                carry < from,
                dj < to,
                t == carry + dj * from,
                (from == 256 && to == 58) || (from == 58 && to == 256),
        ;
        let ghost prev_suffix = digits@.skip(j + 1);
        digits.set(j, (t % to) as u8);
        carry = t / to;
        proof {
            let m = (n - j - 1) as nat;
            assert(digits@.skip(j as int) =~= seq![(t % to) as u8] + prev_suffix);
            assert(old_d.skip(j as int) =~= seq![dj] + old_d.skip(j + 1));
            lemma_val_prepend((t % to) as u8, prev_suffix, b);
            lemma_val_prepend(dj, old_d.skip(j + 1), b);
            lemma_pow_step(b, m);
            let p = pow(b as int, m);
            let vs = val(prev_suffix, b);
            let vo = val(old_d.skip(j + 1), b);
            assert(t == (t / to) * to + t % to) by (nonlinear_arith)
                requires
                    to > 0,
            ;
            assert(((t % to) as nat) * p + vs + (t / to) as nat * (b * p) == from * (dj as nat
                * p + vo) + x) by (nonlinear_arith)
                requires
                    vs + (c0 as nat) * p == from * vo + x,
                    t == c0 + (dj as nat) * from,
                    t == (t / to) * to + t % to,
                    b == to,
            ;
            assert(((t / to) as nat) < from) by (nonlinear_arith)
                requires
                    t < 15000,
                    t == c0 + (dj as nat) * from,
                    c0 < from,
                    dj < to,
                    (from == 256 && to == 58) || (from == 58 && to == 256),
            ;
            assert((t % to) < to) by (nonlinear_arith)
                requires
                    to > 0,
            ;
        }
    }
    assert(digits@.skip(0) =~= digits@);
    assert(old_d.skip(0) =~= old_d);
    let ghost target = from as nat * val(old_d, b) + x as nat;
    proof {
        // the new leading digit is nonzero, or a carry remains
        if n > 0 && carry == 0 {
            lemma_val_lead(old_d, b);
            lemma_val_bound(digits@.drop_first(), b);
            assert(digits@ =~= seq![digits@[0]] + digits@.drop_first());
            lemma_val_prepend(digits@[0], digits@.drop_first(), b);
            let p = pow(b as int, (n - 1) as nat);
            if digits@[0] == 0 {
                assert(val(digits@, b) == val(digits@.drop_first(), b));
                assert(from * val(old_d, b) >= p) by (nonlinear_arith)
                    requires
                        val(old_d, b) >= p,
                        from >= 1,
                ;
                assert(false);
            }
        }
        if n > 0 {
            assert(all_below(digits@, b));
        }
    }
    while carry > 0
        invariant
            (from == 256 && to == 58) || (from == 58 && to == 256),
            b == to as nat,
            carry < from,
            all_below(digits@, b),
            carry == 0 ==> no_leading_zero(digits@),
            val(digits@, b) + carry * pow(b as int, digits@.len()) == target,
        decreases carry,
    {
        let d = (carry % to) as u8;
        let ghost prev = digits@;
        digits.insert(0, d);
        proof {
            assert(digits@ =~= seq![d] + prev);
            lemma_val_prepend(d, prev, b);
            lemma_pow_step(b, prev.len());
            assert(carry == (carry / to) * to + carry % to) by (nonlinear_arith)
                requires
                    to > 0,
            ;
            assert(carry % to < to) by (nonlinear_arith)
                requires
                    to > 0,
            ;
            assert forall|i: int| 0 <= i < digits@.len() implies (#[trigger] digits@[i] as nat)
                < b by {
                if i > 0 {
                    assert(digits@[i] == prev[i - 1]);
                }
            }
            let p = pow(b as int, prev.len());
            assert((carry % to) as nat * p + val(prev, b) + (carry / to) as nat * (b * p)
                == val(prev, b) + carry * p) by (nonlinear_arith)
                requires
                    carry == (carry / to) * to + carry % to,
                    b == to,
            ;
            if carry / to == 0 {
                assert(carry % to == carry) by (nonlinear_arith)
                    requires
                        carry / to == 0,
                        to > 0,
                ;
            }
        }
        carry = carry / to;
    }
    proof {
        lemma_pow_pos(b, digits@.len());
    }
}

/// Number of leading zero bytes.
fn count_lead_zeros(bytes: &[u8]) -> (z: usize)
    ensures
        z == lead_zeros(bytes@),
        z <= bytes@.len(),
{
    let mut zeros: usize = 0;
    assert(bytes@.skip(0) =~= bytes@);
    while zeros < bytes.len() && bytes[zeros] == 0
        invariant
            zeros <= bytes@.len(),
            lead_zeros(bytes@) == zeros + lead_zeros(bytes@.skip(zeros as int)),
        decreases bytes@.len() - zeros,
    {
        assert(bytes@.skip(zeros as int).drop_first() =~= bytes@.skip(zeros + 1));
        zeros = zeros + 1;
    }
    assert(lead_zeros(bytes@.skip(zeros as int)) == 0);
    zeros
}

/// `zeros` copies of '1' followed by the alphabet characters of `digits`.
fn render_b58(zeros: usize, digits: &Vec<u8>) -> (out: Vec<char>)
    requires
        all_below(digits@, 58),
    ensures
        out@ == Seq::new(zeros as nat, |i: int| '1') + digits@.map_values(|d: u8| alpha(d as nat)),
{
    let mut out: Vec<char> = Vec::new();
    let mut k: usize = 0;
    while k < zeros
        invariant
            k <= zeros,
            out@ =~= Seq::new(k as nat, |i: int| '1'),
        decreases zeros - k,
    {
        out.push('1');
        k = k + 1;
    }
    let ghost mapped = digits@.map_values(|d: u8| alpha(d as nat));
    let mut t: usize = 0;
    while t < digits.len()
        invariant
            t <= digits@.len(),
            all_below(digits@, 58),
            mapped == digits@.map_values(|d: u8| alpha(d as nat)),
            out@ =~= Seq::new(zeros as nat, |i: int| '1') + mapped.take(t as int),
        decreases digits@.len() - t,
    {
        out.push(alpha_char(digits[t]));
        assert(mapped.take(t + 1) =~= mapped.take(t as int).push(mapped[t as int]));
        t = t + 1;
    }
    assert(mapped.take(t as int) =~= mapped);
    out
}

/// base58btc-encodes bytes.
pub fn b58_encode(bytes: &[u8]) -> (s: String)
    ensures
        s@ == b58_spec(bytes@),
{
    let mut digits: Vec<u8> = Vec::new();
    let mut i: usize = 0;
    assert(bytes@.take(0) =~= Seq::<u8>::empty());
    while i < bytes.len()
        invariant
            i <= bytes@.len(),
            all_below(digits@, 58),
            no_leading_zero(digits@),
            val(digits@, 58) == val(bytes@.take(i as int), 256),
        decreases bytes@.len() - i,
    {
        mul_add_digits(&mut digits, 256, 58, bytes[i] as u32);
        assert(bytes@.take(i + 1).drop_last() =~= bytes@.take(i as int));
        i = i + 1;
    }
    assert(bytes@.take(i as int) =~= bytes@);
    proof {
        lemma_digits_unique(digits@, 58);
    }
    let zeros = count_lead_zeros(bytes);
    let mut out = render_b58(zeros, &digits);
    if out.len() == 0 {
        out.push('1');
        assert(out@ =~= seq!['1']);
    }
    string_of(&out)
}

/// base58btc-decodes a string; `None` when a character is outside the
/// alphabet.
pub fn b58_decode(s: &str) -> (r: Option<Vec<u8>>)
    ensures
        match r {
            Some(v) => b58_decode_spec(s@) == Some(v@),
            None => b58_decode_spec(s@) is None,
        },
{
    let cs = chars_of(s);
    let ghost vals = s@.map_values(|c: char| alpha_index(c)->0 as u8);
    let mut out: Vec<u8> = Vec::new();
    let mut i: usize = 0;
    assert(vals.take(0) =~= Seq::<u8>::empty());
    while i < cs.len()
        invariant
            i <= cs@.len(),
            cs@ == s@,
            vals == s@.map_values(|c: char| alpha_index(c)->0 as u8),
            forall|k: int| 0 <= k < i ==> (#[trigger] alpha_index(cs@[k])) is Some,
            all_below(out@, 256),
            no_leading_zero(out@),
            val(out@, 256) == val(vals.take(i as int), 58),
        decreases cs@.len() - i,
    {
        let pos = alpha_position(cs[i]);
        match pos {
            Some(x) => {
                mul_add_digits(&mut out, 58, 256, x as u32);
                assert(vals.take(i + 1).drop_last() =~= vals.take(i as int));
            },
            None => {
                return None;
            },
        }
        i = i + 1;
    }
    assert(vals.take(i as int) =~= vals);
    proof {
        lemma_digits_unique(out@, 256);
    }
    let mut zeros: usize = 0;
    assert(s@.skip(0) =~= s@);
    while zeros < cs.len() && cs[zeros] == '1'
        invariant
            zeros <= cs@.len(),
            cs@ == s@,
            lead_ones(s@) == zeros + lead_ones(s@.skip(zeros as int)),
        decreases cs@.len() - zeros,
    {
        assert(s@.skip(zeros as int).drop_first() =~= s@.skip(zeros + 1));
        zeros = zeros + 1;
    }
    assert(lead_ones(s@.skip(zeros as int)) == 0);
    let mut result: Vec<u8> = Vec::new();
    let mut k: usize = 0;
    while k < zeros
        invariant
            k <= zeros,
            result@ =~= Seq::new(k as nat, |i: int| 0u8),
        decreases zeros - k,
    {
        result.push(0u8);
        k = k + 1;
    }
    let mut t: usize = 0;
    while t < out.len()
        invariant
            t <= out@.len(),
            result@ =~= Seq::new(zeros as nat, |i: int| 0u8) + out@.take(t as int),
        decreases out@.len() - t,
    {
        result.push(out[t]);
        t = t + 1;
    }
    assert(out@.take(t as int) =~= out@);
    Some(result)
}

pub proof fn lemma_lead_ones_of(z: nat, t: Seq<char>)
    requires
        t.len() == 0 || t[0] != '1',
    ensures
        lead_ones(Seq::new(z, |i: int| '1') + t) == z,
    decreases z,
{
    let s = Seq::new(z, |i: int| '1') + t;
    if z > 0 {
        assert(s.drop_first() =~= Seq::new((z - 1) as nat, |i: int| '1') + t);
        lemma_lead_ones_of((z - 1) as nat, t);
    } else {
        assert(s =~= t);
    }
}

/// Decoding gives back every non-empty byte string that was encoded.
/// (The empty input encodes to "1", which decodes to one zero byte.)
pub proof fn lemma_b58_roundtrip(bytes: Seq<u8>)
    requires
        bytes.len() > 0,
    ensures
        b58_decode_spec(b58_spec(bytes)) == Some(bytes),
{
    let z = lead_zeros(bytes);
    lemma_lead_zeros(bytes);
    let rest = bytes.skip(z as int);
    lemma_val_zeros(z, rest, 256);
    let n = val(rest, 256);
    assert(val(bytes, 256) == n);
    lemma_digits(n, 58);
    let d = digits(n, 58);
    if z == 0 {
        assert(rest =~= bytes);
        lemma_val_lead(rest, 256);
        lemma_pow_pos(256, (rest.len() - 1) as nat);
        assert(d.len() > 0);
    }
    let md = d.map_values(|x: u8| alpha(x as nat));
    let body = Seq::new(z, |i: int| '1') + md;
    assert(body == b58_body(bytes));
    assert(body.len() > 0);
    let enc = b58_spec(bytes);
    assert(enc == body);
    assert forall|i: int| 0 <= i < enc.len() implies (#[trigger] alpha_index(enc[i])) is Some by {
        if i < z {
            assert(enc[i] == '1');
        } else {
            lemma_alpha(d[i - z] as nat);
        }
    }
    let vals = enc.map_values(|c: char| alpha_index(c)->0 as u8);
    assert(vals =~= Seq::new(z, |i: int| 0u8) + d) by {
        assert forall|i: int| 0 <= i < vals.len() implies vals[i] == (Seq::new(z, |i: int| 0u8)
            + d)[i] by {
            if i >= z {
                lemma_alpha(d[i - z] as nat);
            }
        }
    }
    lemma_val_zeros(z, d, 58);
    if d.len() > 0 {
        lemma_alpha(d[0] as nat);
        assert(md[0] != '1');
    }
    lemma_lead_ones_of(z, md);
    lemma_digits_unique(rest, 256);
}

// ---------------------------------------------------------------------------
// Multikey
// ---------------------------------------------------------------------------

/// Multikey: 'z' (base58btc) over the multicodec prefix 0xed 0x01
/// followed by the key bytes ("z6Mk..." for Ed25519 public keys).
pub open spec fn multikey_spec(public_key: Seq<u8>) -> Seq<char> {
    seq!['z'] + b58_spec(seq![0xedu8, 0x01u8] + public_key)
}

/// The key inside a Multikey string: 'z', then base58btc of 34 bytes
/// starting 0xed 0x01.
pub open spec fn multikey_decode_spec(s: Seq<char>) -> Option<Seq<u8>> {
    if s.len() > 0 && s[0] == 'z' {
        match b58_decode_spec(s.drop_first()) {
            Some(raw) => if raw.len() == 34 && raw[0] == 0xed && raw[1] == 0x01 {
                Some(raw.skip(2))
            } else {
                None
            },
            None => None,
        }
    } else {
        None
    }
}

/// Multikey-encodes an Ed25519 public key.
pub fn multikey_encode(public_key: &[u8; 32]) -> (s: String)
    ensures
        s@ == multikey_spec(public_key@),
{
    let mut prefixed: Vec<u8> = Vec::new();
    prefixed.push(0xedu8);
    prefixed.push(0x01u8);
    let mut i: usize = 0;
    while i < 32
        invariant
            i <= 32,
            public_key@.len() == 32,
            prefixed@ =~= seq![0xedu8, 0x01u8] + public_key@.take(i as int),
        decreases 32 - i,
    {
        prefixed.push(public_key[i]);
        i = i + 1;
    }
    assert(public_key@.take(32) =~= public_key@);
    let body = b58_encode(prefixed.as_slice());
    let mut s = String::new();
    s.push('z');
    s.append(body.as_str());
    s
}

/// Decodes a Multikey string to an Ed25519 public key.
pub fn multikey_decode(multibase: &str) -> (r: Option<[u8; 32]>)
    ensures
        match r {
            Some(k) => multikey_decode_spec(multibase@) == Some(k@),
            None => multikey_decode_spec(multibase@) is None,
        },
{
    let cs = chars_of(multibase);
    if cs.len() == 0 || cs[0] != 'z' {
        return None;
    }
    let rest = crate::text::string_of_range(&cs, 1, cs.len());
    assert(rest@ =~= multibase@.drop_first());
    let raw = match b58_decode(rest.as_str()) {
        Some(raw) => raw,
        None => {
            return None;
        },
    };
    if raw.len() == 34 && raw[0] == 0xed && raw[1] == 0x01 {
        let mut key = [0u8; 32];
        let mut i: usize = 0;
        while i < 32
            invariant
                i <= 32,
                raw@.len() == 34,
                key@.len() == 32,
                forall|k: int| 0 <= k < i ==> key@[k] == raw@[k + 2],
            decreases 32 - i,
        {
            key[i] = raw[i + 2];
            i = i + 1;
        }
        assert(key@ =~= raw@.skip(2));
        Some(key)
    } else {
        None
    }
}

/// Decoding a Multikey gives back the encoded key.
pub proof fn lemma_multikey_roundtrip(public_key: Seq<u8>)
    requires
        public_key.len() == 32,
    ensures
        multikey_decode_spec(multikey_spec(public_key)) == Some(public_key),
{
    let prefixed = seq![0xedu8, 0x01u8] + public_key;
    lemma_b58_roundtrip(prefixed);
    let s = multikey_spec(public_key);
    assert(s.drop_first() =~= b58_spec(prefixed));
    assert(prefixed.skip(2) =~= public_key);
}

/// The base-`b` digits of `n` are those of `n / b^k` followed by `k`
/// more, when `n / b^k` is not zero.
proof fn lemma_digits_high(n: nat, b: nat, k: nat)
    requires
        2 <= b,
        n as int / pow(b as int, k) >= 1,
    ensures
        digits(n, b).len() == digits((n as int / pow(b as int, k)) as nat, b).len() + k,
        forall|i: int|
            0 <= i < digits((n as int / pow(b as int, k)) as nat, b).len() ==> #[trigger] digits(n, b)[i]
                == digits((n as int / pow(b as int, k)) as nat, b)[i],
    decreases k,
{
    lemma_pow_step(b, k);
    lemma_pow_pos(b, k);
    if k > 0 {
        let km = (k - 1) as nat;
        let p = pow(b as int, km);
        lemma_pow_step(b, km);
        lemma_pow_pos(b, km);
        let m = n / b;
        vstd::arithmetic::div_mod::lemma_div_denominator(n as int, b as int, p);
        assert(n as int / (b * p) == n as int / pow(b as int, k));
        assert(m as int == n as int / b as int);
        assert((m as int) / p >= 1);
        assert(n > 0) by {
            if n == 0 {
                assert(0int / pow(b as int, k) == 0) by (nonlinear_arith)
                    requires
                        pow(b as int, k) >= 1,
                ;
            }
        }
        lemma_digits_high(m, b, km);
        assert(digits(n, b) == digits(m, b).push((n % b) as u8));
    }
}

/// Every Ed25519 Multikey is 48 characters long and starts "z6Mk".
pub proof fn lemma_multikey_shape(public_key: Seq<u8>)
    requires
        public_key.len() == 32,
    ensures
        multikey_spec(public_key).len() == 48,
        multikey_spec(public_key).take(4) == seq!['z', '6', 'M', 'k'],
{
    let bytes = seq![0xedu8, 0x01u8] + public_key;
    let tail = seq![0x01u8] + public_key;
    assert(bytes =~= seq![0xedu8] + tail);
    lemma_val_prepend(0xedu8, tail, 256);
    lemma_val_prepend(0x01u8, public_key, 256);
    assert(all_below(public_key, 256));
    lemma_val_bound(public_key, 256);
    assert(pow(256, 32) == 115792089237316195423570985008687907853269984665640564039457584007913129639936int) by {
        reveal_with_fuel(pow, 33);
    }
    assert(pow(256, 33) == 256 * 115792089237316195423570985008687907853269984665640564039457584007913129639936int) by {
        lemma_pow_step(256, 32);
    }
    assert(pow(58, 44) == 389790918707373377135528568990913592653094657612049369038476873218241589149696int) by {
        reveal_with_fuel(pow, 45);
    }
    let v = val(bytes, 256);
    assert(60673 * 115792089237316195423570985008687907853269984665640564039457584007913129639936int <= v < 60674 * 115792089237316195423570985008687907853269984665640564039457584007913129639936int);
    assert(v as int / pow(58, 44) == 18023) by (nonlinear_arith)
        requires
            60673 * 115792089237316195423570985008687907853269984665640564039457584007913129639936int <= v < 60674 * 115792089237316195423570985008687907853269984665640564039457584007913129639936int,
            pow(58, 44) == 389790918707373377135528568990913592653094657612049369038476873218241589149696int,
    ;
    lemma_digits_high(v, 58, 44);
    assert(digits(0, 58) =~= Seq::<u8>::empty());
    assert(digits(5, 58) =~= seq![5u8]);
    assert(digits(310, 58) =~= seq![5u8, 20u8]);
    assert(digits(18023, 58) =~= seq![5u8, 20u8, 43u8]);
    let d = digits(v, 58);
    assert(d.len() == 47);
    assert(d[0] == 5u8 && d[1] == 20u8 && d[2] == 43u8);
    assert(lead_zeros(bytes) == 0);
    let body = b58_body(bytes);
    assert(body =~= d.map_values(|x: u8| alpha(x as nat)));
    assert(b58_spec(bytes) == body);
    let m = multikey_spec(public_key);
    assert(m =~= seq!['z'] + body);
    assert(m[1] == alpha(5));
    assert(m[2] == alpha(20));
    assert(m[3] == alpha(43));
    assert(m.take(4) =~= seq!['z', '6', 'M', 'k']);
}

} // verus!
