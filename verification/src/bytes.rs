//! Numbers as byte strings: what a run of bytes is worth, most significant
//! byte first or last, and how a 64-bit word is read from and written to one.
use vstd::arithmetic::power::*;
use vstd::prelude::*;

verus! {

/// 256 to the power `n`: the number of byte strings of length `n`.
pub open spec fn pow256(n: nat) -> nat
    decreases n,
{
    if n == 0 {
        1
    } else {
        256 * pow256((n - 1) as nat)
    }
}

/// The number that `b` stands for, most significant byte first.
pub open spec fn be_value(b: Seq<u8>) -> nat
    decreases b.len(),
{
    if b.len() == 0 {
        0
    } else {
        be_value(b.drop_last()) * 256 + b.last() as nat
    }
}

/// The number that `b` stands for, least significant byte first.
pub open spec fn le_value(b: Seq<u8>) -> nat
    decreases b.len(),
{
    if b.len() == 0 {
        0
    } else {
        b[0] as nat + 256 * le_value(b.drop_first())
    }
}

/// The last `n` base-256 digits of `v`, most significant first.
pub open spec fn be_bytes(v: nat, n: nat) -> Seq<u8>
    decreases n,
{
    if n == 0 {
        Seq::empty()
    } else {
        be_bytes(v / 256, (n - 1) as nat).push((v % 256) as u8)
    }
}

pub(crate) proof fn lemma_pow256_8()
    ensures
        pow256(8) == 0x1_0000_0000_0000_0000,
{
    reveal_with_fuel(pow256, 9);
}

pub(crate) proof fn lemma_be_value_bound(b: Seq<u8>)
    ensures
        be_value(b) < pow256(b.len()),
    decreases b.len(),
{
    if b.len() > 0 {
        lemma_be_value_bound(b.drop_last());
    }
}

pub(crate) proof fn lemma_le_value_bound(b: Seq<u8>)
    ensures
        le_value(b) < pow256(b.len()),
    decreases b.len(),
{
    if b.len() > 0 {
        lemma_le_value_bound(b.drop_first());
    }
}

pub(crate) proof fn lemma_be_value_concat(a: Seq<u8>, b: Seq<u8>)
    ensures
        be_value(a + b) == be_value(a) * pow256(b.len()) + be_value(b),
    decreases b.len(),
{
    if b.len() == 0 {
        assert(a + b =~= a);
        assert(be_value(a) * pow256(b.len()) == be_value(a)) by (nonlinear_arith)
            requires
                pow256(b.len()) == 1,
        ;
    } else {
        let front = b.drop_last();
        lemma_be_value_concat(a, front);
        assert((a + b).drop_last() =~= a + front);
        assert((a + b).last() == b.last());
        assert(pow256(b.len()) == 256 * pow256(front.len()));
        let (va, p, vf) = (be_value(a), pow256(front.len()), be_value(front));
        assert((va * p + vf) * 256 == va * (256 * p) + vf * 256) by (nonlinear_arith);
    }
}

/// Two byte strings of one length that are worth the same, least significant
/// byte first, are the same byte string.
pub proof fn law_le_value_injective(a: Seq<u8>, b: Seq<u8>)
    requires
        a.len() == b.len(),
        le_value(a) == le_value(b),
    ensures
        a == b,
    decreases a.len(),
{
    if a.len() > 0 {
        law_le_value_injective(a.drop_first(), b.drop_first());
        assert(a =~= seq![a[0]] + a.drop_first());
        assert(b =~= seq![b[0]] + b.drop_first());
    } else {
        assert(a =~= b);
    }
}

pub(crate) proof fn lemma_be_bytes_len(v: nat, n: nat)
    ensures
        be_bytes(v, n).len() == n,
    decreases n,
{
    if n > 0 {
        lemma_be_bytes_len(v / 256, (n - 1) as nat);
    }
}

/// Writing a number in `n` bytes and reading it back gives the number, if it
/// is small enough for `n` bytes.
pub proof fn law_be_value_of_be_bytes(v: nat, n: nat)
    requires
        v < pow256(n),
    ensures
        be_bytes(v, n).len() == n,
        be_value(be_bytes(v, n)) == v,
    decreases n,
{
    if n > 0 {
        law_be_value_of_be_bytes(v / 256, (n - 1) as nat);
        let front = be_bytes(v / 256, (n - 1) as nat);
        assert(be_bytes(v, n).drop_last() =~= front);
    }
}

/// Reading a byte string as a number and writing the number in as many bytes
/// gives the byte string.
pub proof fn law_be_bytes_of_be_value(b: Seq<u8>)
    ensures
        be_bytes(be_value(b), b.len()) == b,
    decreases b.len(),
{
    if b.len() > 0 {
        law_be_bytes_of_be_value(b.drop_last());
        assert(b =~= b.drop_last().push(b.last()));
    }
}

pub(crate) proof fn lemma_be_bytes_split(v: nat, w: nat, n: nat, k: nat)
    requires
        w < pow256(k),
    ensures
        be_bytes(v * pow256(k) + w, n + k) == be_bytes(v, n) + be_bytes(w, k),
    decreases k,
{
    if k == 0 {
        assert(be_bytes(v, n) + be_bytes(w, k) =~= be_bytes(v, n));
    } else {
        let j = (k - 1) as nat;
        let p = pow256(j);
        assert(v * (256 * p) == 256 * (v * p)) by (nonlinear_arith);
        let all = v * pow256(k) + w;
        assert(all / 256 == v * p + w / 256);
        assert(all % 256 == w % 256);
        lemma_be_bytes_split(v, w / 256, n, j);
        assert(be_bytes(v, n) + be_bytes(w, k) =~= (be_bytes(v, n) + be_bytes(w / 256, j)).push(
            (w % 256) as u8,
        ));
        assert((n + k - 1) as nat == n + j);
    }
}

/// The word at `at`, most significant byte first.
pub fn read_be_u64(b: &[u8; 32], at: usize) -> (v: u64)
    requires
        at <= 24,
    ensures
        v as nat == be_value(b@.subrange(at as int, at + 8)),
{
    let mut v: u64 = 0;
    let mut i: usize = 0;
    assert(b@.subrange(at as int, at as int) =~= Seq::<u8>::empty());
    while i < 8
        invariant
            at <= 24,
            i <= 8,
            v as nat == be_value(b@.subrange(at as int, at + i)),
        decreases 8 - i,
    {
        proof {
            lemma_be_value_bound(b@.subrange(at as int, at + i));
            reveal_with_fuel(pow256, 9);
            assert(b@.subrange(at as int, at + i + 1).drop_last() =~= b@.subrange(
                at as int,
                at + i,
            ));
        }
        assert(v < 0x100_0000_0000_0000);
        v = v * 256 + b[at + i] as u64;
        i += 1;
    }
    v
}

/// The word at `at`, least significant byte first.
pub fn read_le_u64(b: &[u8; 32], at: usize) -> (v: u64)
    requires
        at <= 24,
    ensures
        v as nat == le_value(b@.subrange(at as int, at + 8)),
{
    let mut v: u64 = 0;
    let mut i: usize = 8;
    assert(b@.subrange(at + 8, at + 8) =~= Seq::<u8>::empty());
    while i > 0
        invariant
            at <= 24,
            i <= 8,
            v as nat == le_value(b@.subrange(at + i, at + 8)),
        decreases i,
    {
        proof {
            lemma_le_value_bound(b@.subrange(at + i, at + 8));
            reveal_with_fuel(pow256, 9);
            assert(b@.subrange(at + i - 1, at + 8).drop_first() =~= b@.subrange(at + i, at + 8));
        }
        assert(v < 0x100_0000_0000_0000);
        i -= 1;
        v = v * 256 + b[at + i] as u64;
    }
    v
}

/// Puts the eight bytes of `w` at `at`, most significant first, and leaves the
/// other bytes alone.
pub fn write_be_u64<const N: usize>(buf: &mut [u8; N], at: usize, w: u64)
    requires
        at + 8 <= N,
    ensures
        final(buf)@ == old(buf)@.subrange(0, at as int) + be_bytes(w as nat, 8) + old(
            buf,
        )@.subrange(at + 8, N as int),
{
    let ghost start = buf@;
    let mut rest: u64 = w;
    let mut i: usize = 8;
    proof {
        lemma_be_bytes_len(w as nat, 8);
    }
    assert(be_bytes(w as nat, 8) =~= be_bytes(rest as nat, 8) + buf@.subrange(at + 8, at + 8));
    while i > 0
        invariant
            at + 8 <= N,
            i <= 8,
            buf@.len() == N,
            start.len() == N,
            be_bytes(w as nat, 8).len() == 8,
            be_bytes(w as nat, 8) == be_bytes(rest as nat, i as nat) + buf@.subrange(
                at + i,
                at + 8,
            ),
            forall|j: int| 0 <= j < at || at + 8 <= j < N ==> buf@[j] == start[j],
        decreases i,
    {
        let ghost before = buf@;
        i -= 1;
        buf[at + i] = (rest % 256) as u8;
        proof {
            lemma_be_bytes_len(rest as nat / 256, i as nat);
            assert(buf@.subrange(at + i, at + 8) =~= seq![(rest % 256) as u8] + before.subrange(
                at + i + 1,
                at + 8,
            ));
            assert(be_bytes(w as nat, 8) =~= be_bytes(rest as nat / 256, i as nat) + buf@.subrange(
                at + i,
                at + 8,
            ));
        }
        rest = rest / 256;
    }
    assert(be_bytes(w as nat, 8) =~= buf@.subrange(at as int, at + 8));
    assert(buf@ =~= start.subrange(0, at as int) + be_bytes(w as nat, 8) + start.subrange(
        at + 8,
        N as int,
    ));
}

/// Whether two blocks of 32 bytes are the same.
pub fn same_bytes(a: &[u8; 32], b: &[u8; 32]) -> (r: bool)
    ensures
        r == (a@ == b@),
{
    let mut i: usize = 0;
    while i < 32
        invariant
            i <= 32,
            forall|j: int| 0 <= j < i ==> a@[j] == b@[j],
        decreases 32 - i,
    {
        if a[i] != b[i] {
            return false;
        }
        i += 1;
    }
    assert(a@ =~= b@);
    true
}

/// There are 256 to the `n` byte strings of length `n`.
pub proof fn law_pow256(n: nat)
    ensures
        pow256(n) == pow(256, n),
    decreases n,
{
    if n == 0 {
        lemma_pow0(256);
    } else {
        law_pow256((n - 1) as nat);
        lemma_pow_adds(256, 1, (n - 1) as nat);
        lemma_pow1(256);
    }
}

/// Most significant byte first, a byte on its own is worth itself, and a byte
/// string moves up by one place for each byte that follows it.
pub proof fn law_be_value_of_parts(a: Seq<u8>, b: Seq<u8>, byte: u8)
    ensures
        be_value(seq![byte]) == byte,
        be_value(a + b) == be_value(a) * pow(256, b.len()) + be_value(b),
{
    assert(seq![byte].drop_last() =~= Seq::<u8>::empty());
    assert(be_value(Seq::<u8>::empty()) == 0);
    lemma_be_value_concat(a, b);
    law_pow256(b.len());
}

/// Reading a byte string least significant byte first is reading it backwards
/// most significant byte first.
pub proof fn law_le_value_is_reversed(b: Seq<u8>)
    ensures
        le_value(b) == be_value(b.reverse()),
    decreases b.len(),
{
    if b.len() > 0 {
        law_le_value_is_reversed(b.drop_first());
        assert(b.reverse().drop_last() =~= b.drop_first().reverse());
    }
}

/// Whatever the number, what is written in `n` bytes is `n` bytes long and
/// worth its remainder modulo 256 to the `n`.
pub proof fn law_be_bytes_keep_low_bytes(v: nat, n: nat)
    ensures
        be_bytes(v, n).len() == n,
        be_value(be_bytes(v, n)) == v as int % pow(256, n),
    decreases n,
{
    lemma_pow_positive(256, n);
    if n == 0 {
        lemma_pow0(256);
    } else {
        let m = (n - 1) as nat;
        law_be_bytes_keep_low_bytes(v / 256, m);
        lemma_pow_positive(256, m);
        lemma_pow_adds(256, 1, m);
        lemma_pow1(256);
        vstd::arithmetic::div_mod::lemma_mod_breakdown(v as int, 256, pow(256, m));
        assert(be_bytes(v, n).drop_last() =~= be_bytes(v / 256, m));
    }
}

/// Byte number `j` of a byte string is digit number `j`, in base 256 and
/// counted from the lowest, of what it is worth least significant byte first.
pub proof fn law_le_value_digit(b: Seq<u8>, j: nat)
    requires
        j < b.len(),
    ensures
        b[j as int] == (le_value(b) as int / pow(256, j)) % 256,
    decreases j,
{
    let rest = b.drop_first();
    let x = le_value(b) as int;
    assert(x == b[0] + 256 * le_value(rest));
    if j == 0 {
        lemma_pow0(256);
    } else {
        let i = (j - 1) as nat;
        law_le_value_digit(rest, i);
        lemma_pow_adds(256, 1, i);
        lemma_pow1(256);
        lemma_pow_positive(256, i);
        vstd::arithmetic::div_mod::lemma_div_denominator(x, 256, pow(256, i));
        assert(x / 256 == le_value(rest));
    }
}

} // verus!
