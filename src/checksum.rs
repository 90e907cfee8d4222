//! The 16-bit one's-complement sum used by every header and segment checksum.
use vstd::prelude::*;

use crate::wire::be16;

verus! {

/// The big-endian 16-bit word at word index `k`; an odd trailing byte is
/// padded on the right with a zero byte.
pub open spec fn word_at(s: Seq<u8>, k: int) -> nat {
    let hi = s[2 * k] as nat;
    let lo = if 2 * k + 1 < s.len() { s[2 * k + 1] as nat } else { 0 };
    hi * 256 + lo
}

/// Number of 16-bit words in `s`, counting a trailing odd byte as a word.
pub open spec fn word_count(s: Seq<u8>) -> nat {
    ((s.len() + 1) / 2) as nat
}

/// Plain (unfolded) sum of the first `n` words of `s`.
pub open spec fn sum_words(s: Seq<u8>, n: nat) -> nat
    decreases n,
{
    if n == 0 {
        0
    } else {
        sum_words(s, (n - 1) as nat) + word_at(s, n - 1)
    }
}

/// End-around carry: while the value needs more than 16 bits, add the bits
/// above 16 back into the low 16 bits.
pub open spec fn fold(x: nat) -> nat
    decreases x,
{
    if x < 0x10000 {
        x
    } else {
        fold((x % 0x10000 + x / 0x10000) as nat)
    }
}

/// The folded one's-complement sum of all words of `s`.
#[verifier::opaque]
pub open spec fn ones_complement_sum(s: Seq<u8>) -> u16 {
    fold(sum_words(s, word_count(s))) as u16
}

/// Closed form of the carry folding: zero stays zero, everything else lands
/// in `1..=0xFFFF`, congruent modulo `0xFFFF`.
pub proof fn lemma_fold_closed_form(x: nat)
    ensures
        fold(x) == if x == 0 { 0 } else { ((x - 1) as nat % 0xFFFF) + 1 },
    decreases x,
{
    if x >= 0x10000 {
        let q = x / 0x10000;
        let r = x % 0x10000;
        let y = (r + q) as nat;
        assert(x == q * 0x10000 + r);
        assert(x - y == q * 0xFFFF);
        assert(y < x);
        lemma_fold_closed_form(y);
        assert((x - 1) as nat % 0xFFFF == (y - 1) as nat % 0xFFFF) by {
            vstd::arithmetic::div_mod::lemma_mod_add_multiples_vanish((y - 1) as int, 0xFFFF);
            vstd::arithmetic::div_mod::lemma_mod_multiples_vanish(q as int, (y - 1) as int, 0xFFFF);
        }
    }
}

/// The complement of the folded sum: the value a checksum field is set to.
pub open spec fn checksum_of(s: Seq<u8>) -> u16 {
    (0xFFFF - ones_complement_sum(s)) as u16
}

pub proof fn lemma_fold_bound(x: nat)
    ensures
        fold(x) <= 0xFFFF,
        x <= 0xFFFF ==> fold(x) == x,
{
    lemma_fold_closed_form(x);
}

/// Folding may be done eagerly: folding a partial sum before adding the next
/// word does not change the final result.
pub proof fn lemma_fold_add(a: nat, w: nat)
    ensures
        fold(a + w) == fold(fold(a) + w),
{
    lemma_fold_closed_form(a);
    lemma_fold_closed_form(a + w);
    lemma_fold_closed_form(fold(a) + w);
    if a > 0 {
        let m = ((a - 1) as nat) % 0xFFFF;
        let q = ((a - 1) as nat) / 0xFFFF;
        assert((a - 1) as nat == q * 0xFFFF + m);
        assert(((a + w - 1) as nat) % 0xFFFF == ((m + w) as nat) % 0xFFFF) by {
            vstd::arithmetic::div_mod::lemma_mod_multiples_vanish(q as int, (m + w) as int, 0xFFFF);
        }
    }
}

proof fn lemma_sum_words_replace(s: Seq<u8>, t: Seq<u8>, k: int, n: nat)
    requires
        s.len() == t.len(),
        0 <= k,
        2 * k + 1 < s.len(),
        n <= word_count(s),
        forall|j: int| 0 <= j < s.len() && j != 2 * k && j != 2 * k + 1 ==> s[j] == t[j],
    ensures
        n <= k ==> sum_words(t, n) == sum_words(s, n),
        n > k ==> sum_words(t, n) + word_at(s, k) == sum_words(s, n) + word_at(t, k),
    decreases n,
{
    if n > 0 {
        lemma_sum_words_replace(s, t, k, (n - 1) as nat);
        let j = n - 1;
        if j != k {
            assert(s[2 * j] == t[2 * j]);
            if 2 * j + 1 < s.len() {
                assert(s[2 * j + 1] == t[2 * j + 1]);
            }
            assert(word_at(s, j) == word_at(t, j));
        }
    }
}

/// A checksum field at an even offset, filled with the complement of the sum
/// taken while the field held zero, makes the whole buffer sum to `0xFFFF`.
pub proof fn lemma_checksum_field(a: Seq<u8>, b: Seq<u8>)
    requires
        a.len() % 2 == 0,
    ensures
        ones_complement_sum(a + be16(checksum_of(a + be16(0) + b)) + b) == 0xFFFF,
{
    reveal(ones_complement_sum);
    let s = a + be16(0) + b;
    let c = checksum_of(s);
    let t = a + be16(c) + b;
    let k: int = a.len() as int / 2;
    assert(s.len() == t.len());
    assert forall|j: int| 0 <= j < s.len() && j != 2 * k && j != 2 * k + 1 implies s[j] == t[j] by {
        if j < a.len() {
            assert(s[j] == a[j] && t[j] == a[j]);
        } else {
            assert(s[j] == b[j - a.len() - 2] && t[j] == b[j - a.len() - 2]);
        }
    }
    assert(s[2 * k] == 0 && s[2 * k + 1] == 0);
    assert(word_at(s, k) == 0);
    assert(t[2 * k] == be16(c)[0] && t[2 * k + 1] == be16(c)[1]);
    assert(word_at(t, k) == c);
    lemma_sum_words_replace(s, t, k, word_count(s));
    let ws = sum_words(s, word_count(s));
    let wt = sum_words(t, word_count(t));
    assert(wt == ws + c);
    lemma_fold_closed_form(ws);
    lemma_fold_closed_form(wt);
    if ws > 0 {
        let m = ((ws - 1) as nat) % 0xFFFF;
        let q = ((ws - 1) as nat) / 0xFFFF;
        assert((ws - 1) as nat == q * 0xFFFF + m);
        assert(c == 0xFFFE - m);
        assert((wt - 1) as nat == (q + 1) * 0xFFFF + 0xFFFE - 0xFFFF + 0);
        assert(((wt - 1) as nat) % 0xFFFF == 0xFFFE) by {
            vstd::arithmetic::div_mod::lemma_mod_multiples_vanish(q as int, 0xFFFE, 0xFFFF);
        }
    }
}

/// The one's-complement sum of the entire buffer, taken over big-endian
/// 16-bit words with an odd trailing byte padded by a zero byte, carries folded.
pub fn ones_complement_sum_byte_buffer(buf: &[u8]) -> (r: u16)
    requires
        buf@.len() > 0,
    ensures
        r == ones_complement_sum(buf@),
{
    proof {
        reveal(ones_complement_sum);
    }
    let n = buf.len();
    let mut sum: u32 = 0;
    let mut i: usize = 0;
    let ghost mut k: nat = 0;
    while i < n
        invariant
            n == buf@.len(),
            i as int == 2 * k || (i == n && 2 * k == n + 1),
            k <= word_count(buf@),
            sum <= 0xFFFF,
            sum as nat == fold(sum_words(buf@, k)),
        decreases n - i,
    {
        let word: u32 = if i + 1 < n {
            (buf[i] as u32) * 256 + buf[i + 1] as u32
        } else {
            (buf[i] as u32) * 256
        };
        assert(word == word_at(buf@, k as int));
        let mut next: u32 = sum + word;
        proof {
            lemma_fold_add(sum_words(buf@, k), word as nat);
        }
        if next > 0xFFFF {
            assert(next & 0xFFFF == next % 0x10000 && next >> 16 == next / 0x10000) by (bit_vector);
            next = (next & 0xFFFF) + (next >> 16);
        }
        proof {
            lemma_fold_bound(next as nat);
            k = k + 1;
        }
        sum = next;
        i = if i + 1 < n { i + 2 } else { n };
    }
    sum as u16
}

/// Whether the buffer, checksum field included as transmitted, sums to `0xFFFF`.
pub fn verify_checksum(buf: &[u8]) -> (r: bool)
    requires
        buf@.len() > 0,
    ensures
        r == (ones_complement_sum(buf@) == 0xFFFF),
{
    ones_complement_sum_byte_buffer(buf) == 0xFFFF
}

/// The value to store in a checksum field: the complement of the folded sum.
pub fn checksum_value(buf: &[u8]) -> (r: u16)
    requires
        buf@.len() > 0,
    ensures
        r == checksum_of(buf@),
{
    let sum = ones_complement_sum_byte_buffer(buf);
    assert(!sum == 0xFFFF - sum) by (bit_vector);
    !sum
}

/// Changing a checksum field at an even offset breaks a verifying buffer,
/// unless the change swaps `0x0000` and `0xFFFF`, the two one's-complement
/// forms of zero.
pub proof fn lemma_checksum_field_changed(a: Seq<u8>, b: Seq<u8>, old_value: u16, new_value: u16)
    requires
        a.len() % 2 == 0,
        ones_complement_sum(a + be16(old_value) + b) == 0xFFFF,
        new_value != old_value,
        !(old_value == 0 && new_value == 0xFFFF),
        !(old_value == 0xFFFF && new_value == 0),
    ensures
        ones_complement_sum(a + be16(new_value) + b) != 0xFFFF,
{
    reveal(ones_complement_sum);
    let s = a + be16(old_value) + b;
    let t = a + be16(new_value) + b;
    let k: int = a.len() as int / 2;
    assert forall|j: int| 0 <= j < s.len() && j != 2 * k && j != 2 * k + 1 implies s[j] == t[j] by {
        if j < a.len() {
            assert(s[j] == a[j] && t[j] == a[j]);
        } else {
            assert(s[j] == b[j - a.len() - 2] && t[j] == b[j - a.len() - 2]);
        }
    }
    assert(s[2 * k] == be16(old_value)[0] && s[2 * k + 1] == be16(old_value)[1]);
    assert(t[2 * k] == be16(new_value)[0] && t[2 * k + 1] == be16(new_value)[1]);
    assert(word_at(s, k) == old_value);
    assert(word_at(t, k) == new_value);
    lemma_sum_words_replace(s, t, k, word_count(s));
    let ws = sum_words(s, word_count(s));
    let wt = sum_words(t, word_count(t));
    assert(wt + old_value == ws + new_value);
    lemma_fold_closed_form(ws);
    lemma_fold_closed_form(wt);
    assert(ws > 0);
    let q = ((ws - 1) as nat) / 0xFFFF;
    assert((ws - 1) as nat == q * 0xFFFF + 0xFFFE);
    assert(ws == (q + 1) * 0xFFFF);
    if wt > 0 && fold(wt) == 0xFFFF {
        let r = ((wt - 1) as nat) / 0xFFFF;
        assert((wt - 1) as nat == r * 0xFFFF + 0xFFFE);
        assert(wt == (r + 1) * 0xFFFF);
        assert(new_value - old_value == (r - q) * 0xFFFF);
        assert(-0xFFFF <= new_value - old_value <= 0xFFFF);
        assert(r - q == 0 || r - q == 1 || r - q == -1) by (nonlinear_arith)
            requires
                -0xFFFF <= (r - q) * 0xFFFF <= 0xFFFF,
        ;
    }
}

} // verus!
