//! Big-endian and little-endian numbers in byte strings.

use vstd::prelude::*;

verus! {

/// The number that a big-endian byte string stands for.
pub open spec fn be_nat(s: Seq<u8>) -> nat
    decreases s.len(),
{
    if s.len() == 0 {
        0
    } else {
        be_nat(s.drop_last()) * 256 + s.last() as nat
    }
}

/// The number that a little-endian byte string stands for.
pub open spec fn le_nat(s: Seq<u8>) -> nat {
    be_nat(s.reverse())
}

/// `256^n`, the number of byte strings of length `n`.
pub open spec fn pow256(n: nat) -> nat
    decreases n,
{
    if n == 0 {
        1
    } else {
        256 * pow256((n - 1) as nat)
    }
}

/// The big-endian byte string of length `len` that stands for `n` (for the
/// remainder of `n` by `256^len`, where `n` does not fit).
pub open spec fn be_bytes(n: nat, len: nat) -> Seq<u8>
    decreases len,
{
    if len == 0 {
        Seq::empty()
    } else {
        be_bytes(n / 256, (len - 1) as nat).push((n % 256) as u8)
    }
}

/// A byte string of length `n` stands for a number below `256^n`.
pub proof fn lemma_be_nat_bound(s: Seq<u8>)
    ensures
        be_nat(s) < pow256(s.len()),
    decreases s.len(),
{
    if s.len() > 0 {
        lemma_be_nat_bound(s.drop_last());
    }
}

/// `be_bytes` is as long as asked for.
pub proof fn lemma_be_bytes_len(n: nat, len: nat)
    ensures
        be_bytes(n, len).len() == len,
    decreases len,
{
    if len > 0 {
        lemma_be_bytes_len(n / 256, (len - 1) as nat);
    }
}

/// Writing a number that fits and reading it back gives the number.
pub proof fn lemma_be_read_of_write(n: nat, len: nat)
    requires
        n < pow256(len),
    ensures
        be_bytes(n, len).len() == len,
        be_nat(be_bytes(n, len)) == n,
    decreases len,
{
    lemma_be_bytes_len(n, len);
    if len > 0 {
        lemma_be_read_of_write(n / 256, (len - 1) as nat);
        let s = be_bytes(n, len);
        assert(s.drop_last() =~= be_bytes(n / 256, (len - 1) as nat));
    }
}

/// Reading a byte string and writing the number back gives the string: a byte
/// string is fixed by its length and its number.
pub proof fn lemma_be_write_of_read(s: Seq<u8>)
    ensures
        be_bytes(be_nat(s), s.len()) == s,
    decreases s.len(),
{
    if s.len() > 0 {
        lemma_be_write_of_read(s.drop_last());
        let n = be_nat(s);
        assert(n / 256 == be_nat(s.drop_last()));
        assert(n % 256 == s.last());
        assert(be_bytes(n, s.len()) =~= s);
    } else {
        assert(be_bytes(0, 0) =~= s);
    }
}

/// Two byte strings of one length that stand for one number are equal.
pub proof fn lemma_be_nat_injective(s: Seq<u8>, t: Seq<u8>)
    requires
        s.len() == t.len(),
        be_nat(s) == be_nat(t),
    ensures
        s == t,
{
    lemma_be_write_of_read(s);
    lemma_be_write_of_read(t);
}

/// The number of a concatenation.
pub proof fn lemma_be_nat_concat(s: Seq<u8>, t: Seq<u8>)
    ensures
        be_nat(s + t) == be_nat(s) * pow256(t.len()) + be_nat(t),
    decreases t.len(),
{
    if t.len() == 0 {
        assert(s + t =~= s);
        assert(be_nat(s) * 1 == be_nat(s));
    } else {
        let u = t.drop_last();
        lemma_be_nat_concat(s, u);
        assert((s + t).drop_last() =~= s + u);
        let p = pow256(u.len());
        assert((be_nat(s) * p + be_nat(u)) * 256 == be_nat(s) * (256 * p) + be_nat(u) * 256)
            by (nonlinear_arith);
        assert(pow256(t.len()) == 256 * p);
        assert((s + t).last() == t.last());
    }
}

/// The first byte that differs orders two byte strings of one length.
proof fn lemma_first_difference(s: Seq<u8>, t: Seq<u8>, i: int)
    requires
        s.len() == t.len(),
        0 <= i < s.len(),
        s.take(i) == t.take(i),
        s[i] < t[i],
    ensures
        be_nat(s) < be_nat(t),
{
    let n = (s.len() - i - 1) as nat;
    let (s1, t1) = (s.take(i + 1), t.take(i + 1));
    let (s2, t2) = (s.skip(i + 1), t.skip(i + 1));
    assert(s1 + s2 =~= s);
    assert(t1 + t2 =~= t);
    lemma_be_nat_concat(s1, s2);
    lemma_be_nat_concat(t1, t2);
    assert(s1.drop_last() =~= s.take(i));
    assert(t1.drop_last() =~= t.take(i));
    assert(be_nat(s1) + 1 <= be_nat(t1));
    lemma_be_nat_bound(s2);
    let p = pow256(n);
    let (a, b) = (be_nat(s1), be_nat(t1));
    assert(a * p + p <= b * p) by (nonlinear_arith)
        requires
            a + 1 <= b,
    ;
}

/// Whether the number `a` is below the number `b`, both 32 bytes, big-endian.
pub fn less_than(a: &[u8; 32], b: &[u8; 32]) -> (less: bool)
    ensures
        less == (be_nat(a@) < be_nat(b@)),
{
    let mut i: usize = 0;
    while i < 32
        invariant
            i <= 32,
            a@.take(i as int) == b@.take(i as int),
        decreases 32 - i,
    {
        if a[i] < b[i] {
            proof {
                lemma_first_difference(a@, b@, i as int);
            }
            return true;
        }
        if b[i] < a[i] {
            proof {
                lemma_first_difference(b@, a@, i as int);
            }
            return false;
        }
        assert(a@.take(i + 1) =~= a@.take(i as int).push(a@[i as int]));
        assert(b@.take(i + 1) =~= b@.take(i as int).push(b@[i as int]));
        i = i + 1;
    }
    assert(a@.take(32) =~= a@);
    assert(b@.take(32) =~= b@);
    false
}

/// Whether two 32-byte strings are equal.
pub fn same_bytes(a: &[u8; 32], b: &[u8; 32]) -> (same: bool)
    ensures
        same == (a@ == b@),
{
    let mut i: usize = 0;
    while i < 32
        invariant
            i <= 32,
            forall|j: int| 0 <= j < i ==> a@[j] == b@[j],
        decreases 32 - i,
    {
        if a[i] != b[i] {
            return false;
        }
        i = i + 1;
    }
    assert(a@ =~= b@);
    true
}

/// The 32-byte big-endian word of a 64-bit number.
pub fn word_of_u64(n: u64) -> (word: [u8; 32])
    ensures
        be_nat(word@) == n,
        word@ == be_bytes(n as nat, 32),
{
    let mut word: [u8; 32] = [0; 32];
    let mut rest: u64 = n;
    let mut i: usize = 32;
    while i > 0
        invariant
            i <= 32,
            forall|j: int| 0 <= j < i ==> word@[j] == 0,
            be_bytes(n as nat, 32) == be_bytes(rest as nat, i as nat) + word@.skip(i as int),
        decreases i,
    {
        let ghost before = word@;
        let ghost high = be_bytes((rest / 256) as nat, (i - 1) as nat);
        i = i - 1;
        word[i] = (rest % 256) as u8;
        rest = rest / 256;
        proof {
            lemma_be_bytes_len(n as nat, 32);
            assert(high.push(word@[i as int]) + before.skip(i + 1) =~= high + word@.skip(i as int));
        }
    }
    proof {
        assert(word@.skip(0) =~= word@);
        assert(be_bytes(n as nat, 32) =~= word@);
        lemma_pow256_8();
        lemma_be_read_of_write(n as nat, 32);
    }
    word
}

/// `256^8` is `2^64`, and `256^32` is no smaller.
pub proof fn lemma_pow256_8()
    ensures
        pow256(4) == 0x1_0000_0000,
        pow256(8) == 0x1_0000_0000_0000_0000,
        pow256(16) == 0x1_0000_0000_0000_0000_0000_0000_0000_0000,
        pow256(8) <= pow256(16) <= pow256(32),
{
    reveal_with_fuel(pow256, 33);
}

/// Big-endian: a byte at the end counts once, and all before it 256 times as
/// much.
pub proof fn law_big_endian(s: Seq<u8>, b: u8)
    ensures
        be_nat(Seq::<u8>::empty()) == 0,
        be_nat(s.push(b)) == 256 * be_nat(s) + b,
{
    assert(s.push(b).drop_last() =~= s);
}

/// Little-endian: a byte at the front counts once, and all behind it 256 times
/// as much.
pub proof fn law_little_endian(b: u8, s: Seq<u8>)
    ensures
        le_nat(Seq::<u8>::empty()) == 0,
        le_nat(seq![b] + s) == b + 256 * le_nat(s),
{
    assert(Seq::<u8>::empty().reverse() =~= Seq::<u8>::empty());
    assert((seq![b] + s).reverse() =~= s.reverse().push(b));
    law_big_endian(s.reverse(), b);
}

/// The first byte in which two byte strings of one length differ decides which
/// of their numbers is the lower.
pub proof fn law_first_difference_decides(s: Seq<u8>, t: Seq<u8>, i: int)
    requires
        s.len() == t.len(),
        0 <= i < s.len(),
        s.take(i) == t.take(i),
        s[i] != t[i],
    ensures
        be_nat(s) < be_nat(t) <==> s[i] < t[i],
{
    if s[i] < t[i] {
        lemma_first_difference(s, t, i);
    } else {
        lemma_first_difference(t, s, i);
    }
}

} // verus!
