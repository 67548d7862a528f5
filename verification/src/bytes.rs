//! Fixed-size hashes and little-endian integers.

use vstd::prelude::*;

verus! {

/// A 32-byte hash or field element.
pub type Hash32 = [u8; 32];

/// The number whose little-endian digits, in base 256, are `s`.
pub open spec fn le_nat(s: Seq<u8>) -> nat
    decreases s.len(),
{
    if s.len() == 0 {
        0
    } else {
        s[0] as nat + 256 * le_nat(s.drop_first())
    }
}

/// The `n` lowest base-256 digits of `x`, the lowest first.
pub open spec fn le_bytes(x: nat, n: nat) -> Seq<u8>
    decreases n,
{
    if n == 0 {
        Seq::empty()
    } else {
        seq![(x % 256) as u8] + le_bytes(x / 256, (n - 1) as nat)
    }
}

/// 256 to the power `n`.
pub open spec fn pow256(n: nat) -> nat
    decreases n,
{
    if n == 0 {
        1
    } else {
        256 * pow256((n - 1) as nat)
    }
}

pub proof fn lemma_le_nat_bound(s: Seq<u8>)
    ensures
        le_nat(s) < pow256(s.len()),
    decreases s.len(),
{
    if s.len() > 0 {
        lemma_le_nat_bound(s.drop_first());
    }
}

pub proof fn lemma_le_bytes_len(x: nat, n: nat)
    ensures
        le_bytes(x, n).len() == n,
    decreases n,
{
    if n > 0 {
        lemma_le_bytes_len(x / 256, (n - 1) as nat);
    }
}

/// Writing a number and reading it back gives the number, when it fits.
pub proof fn lemma_le_nat_of_bytes(x: nat, n: nat)
    requires
        x < pow256(n),
    ensures
        le_bytes(x, n).len() == n,
        le_nat(le_bytes(x, n)) == x,
    decreases n,
{
    lemma_le_bytes_len(x, n);
    if n > 0 {
        lemma_le_nat_of_bytes(x / 256, (n - 1) as nat);
        assert(le_bytes(x, n).drop_first() =~= le_bytes(x / 256, (n - 1) as nat));
    }
}

pub proof fn lemma_pow256_small()
    ensures
        pow256(1) == 0x100,
        pow256(4) == 0x1_0000_0000,
        pow256(8) == 0x1_0000_0000_0000_0000,
{
    reveal_with_fuel(pow256, 9);
}

/// Two arrays with the same contents are the same array.
pub proof fn lemma_hash_ext(a: Hash32, b: Hash32)
    ensures
        a@ == b@ <==> a == b,
{
    if a@ == b@ {
        assert forall|i: int| 0 <= i < 32 implies a[i] == b[i] by {
            assert(a@[i] == b@[i]);
        }
        assert(a =~= b);
    }
}

/// The array with the given contents.
pub open spec fn array_of(s: Seq<u8>) -> Hash32 {
    choose|h: Hash32| h@ == s
}

pub proof fn lemma_array_of(h: Hash32, s: Seq<u8>)
    requires
        h@ == s,
    ensures
        array_of(s) == h,
{
    let other = array_of(s);
    assert(other@ == s);
    lemma_hash_ext(other, h);
}

/// An array whose first `k` bytes are those of `s`.
spec fn array_prefix(s: Seq<u8>, k: nat) -> Hash32
    decreases k,
{
    if k == 0 {
        vstd::array::spec_array_fill_for_copy_type::<u8, 32>(0u8)
    } else {
        vstd::array::spec_array_update(array_prefix(s, (k - 1) as nat), k - 1, s[k - 1])
    }
}

proof fn lemma_array_prefix(s: Seq<u8>, k: nat)
    requires
        s.len() == 32,
        k <= 32,
    ensures
        forall|i: int| 0 <= i < k ==> array_prefix(s, k)@[i] == s[i],
    decreases k,
{
    if k > 0 {
        lemma_array_prefix(s, (k - 1) as nat);
        let before = array_prefix(s, (k - 1) as nat);
        assert(array_prefix(s, k)@ == before@.update(k - 1, s[k - 1]));
    }
}

/// Any 32 bytes are the contents of an array.
pub proof fn lemma_array_exists(s: Seq<u8>)
    requires
        s.len() == 32,
    ensures
        array_of(s)@ == s,
{
    lemma_array_prefix(s, 32);
    assert(array_prefix(s, 32)@ =~= s);
}

/// Whether two hashes are equal.
pub fn hash_eq(a: &Hash32, b: &Hash32) -> (r: bool)
    ensures
        r == (*a == *b),
{
    proof {
        lemma_hash_ext(*a, *b);
    }
    let mut i: usize = 0;
    while i < 32
        invariant
            0 <= i <= 32,
            forall|k: int| 0 <= k < i ==> a@[k] == b@[k],
            a@ == b@ <==> *a == *b,
        decreases 32 - i,
    {
        if a[i] != b[i] {
            assert(a@[i as int] != b@[i as int]);
            return false;
        }
        i += 1;
    }
    assert(a@ =~= b@);
    true
}

/// Copies the 32 bytes that start at `at`.
pub fn hash_at(bytes: &[u8], at: usize) -> (r: Hash32)
    requires
        at + 32 <= bytes@.len(),
    ensures
        r@ == bytes@.subrange(at as int, at + 32),
{
    let mut out: Hash32 = [0u8;32];
    let total: usize = bytes.len();
    let mut i: usize = 0;
    while i < 32
        invariant
            0 <= i <= 32,
            at + 32 <= total == bytes@.len(),
            forall|k: int| 0 <= k < i ==> out@[k] == bytes@[at + k],
        decreases 32 - i,
    {
        out[i] = bytes[at + i];
        i += 1;
    }
    assert(out@ =~= bytes@.subrange(at as int, at + 32));
    out
}

/// The array holding `bytes`, when there are exactly 32 of them.
pub fn exact_32(bytes: &[u8]) -> (r: Option<Hash32>)
    ensures
        r is Some <==> bytes@.len() == 32,
        r is Some ==> r->0@ == bytes@,
{
    if bytes.len() == 32 {
        let out = hash_at(bytes, 0);
        assert(bytes@.subrange(0, 32) =~= bytes@);
        Some(out)
    } else {
        None
    }
}

/// Appends the 32 bytes of `hash` to `out`.
pub fn push_hash(out: &mut Vec<u8>, hash: &Hash32)
    ensures
        final(out)@ == old(out)@ + hash@,
{
    let mut i: usize = 0;
    let ghost before = out@;
    while i < 32
        invariant
            0 <= i <= 32,
            out@ == before + hash@.subrange(0, i as int),
        decreases 32 - i,
    {
        out.push(hash[i]);
        i += 1;
        assert(hash@.subrange(0, i as int) =~= hash@.subrange(0, i - 1).push(hash@[i - 1]));
    }
    assert(hash@.subrange(0, 32) =~= hash@);
}

/// The bytes of hashes, one after the other.
pub open spec fn concat_hashes(hashes: Seq<Hash32>) -> Seq<u8> {
    Seq::new(32 * hashes.len(), |i: int| hashes[i / 32]@[i % 32])
}

/// Appends the bytes of every hash of `hashes` to `out`.
pub fn push_hashes(out: &mut Vec<u8>, hashes: &Vec<Hash32>)
    ensures
        final(out)@ == old(out)@ + concat_hashes(hashes@),
{
    let ghost before = out@;
    let mut i: usize = 0;
    while i < hashes.len()
        invariant
            i <= hashes@.len(),
            out@.len() == before.len() + 32 * i,
            forall|k: int| 0 <= k < before.len() ==> #[trigger] out@[k] == before[k],
            forall|k: int|
                0 <= k < 32 * i ==> #[trigger] out@[before.len() + k] == hashes@[k / 32]@[k % 32],
        decreases hashes@.len() - i,
    {
        let ghost prior = out@;
        push_hash(out, &hashes[i]);
        i += 1;
        assert forall|k: int| 0 <= k < 32 * i implies #[trigger] out@[before.len() + k]
            == hashes@[k / 32]@[k % 32] by {
            if k < 32 * (i - 1) {
                assert(out@[before.len() + k] == prior[before.len() + k]);
            } else {
                assert(k / 32 == i - 1);
                assert(out@[before.len() + k] == hashes@[i - 1]@[k - 32 * (i - 1)]);
            }
        }
    }
    let ghost whole = before + concat_hashes(hashes@);
    assert forall|k: int| 0 <= k < whole.len() implies out@[k] == whole[k] by {
        if k >= before.len() {
            let j = k - before.len();
            assert(out@[before.len() + j] == hashes@[j / 32]@[j % 32]);
        }
    }
    assert(out@ =~= whole);
}

/// The number held in the eight bytes from `at` on.
pub open spec fn u64_at(b: Seq<u8>, at: int) -> nat {
    le_nat(b.subrange(at, at + 8))
}

/// The array held in the 32 bytes from `at` on.
pub open spec fn array_at(b: Seq<u8>, at: int) -> Hash32 {
    array_of(b.subrange(at, at + 32))
}

/// A number written among other bytes is read back.
pub proof fn lemma_u64_in(pre: Seq<u8>, x: nat, post: Seq<u8>)
    requires
        x <= u64::MAX,
    ensures
        le_bytes(x, 8).len() == 8,
        u64_at(pre + le_bytes(x, 8) + post, pre.len() as int) == x,
{
    lemma_pow256_small();
    lemma_le_nat_of_bytes(x, 8);
    let b = pre + le_bytes(x, 8) + post;
    assert(b.subrange(pre.len() as int, pre.len() as int + 8) =~= le_bytes(x, 8));
}

/// A hash written among others is read back.
pub proof fn lemma_hash_read(pre: Seq<u8>, hashes: Seq<Hash32>, post: Seq<u8>, i: int)
    requires
        0 <= i < hashes.len(),
    ensures
        array_at(pre + concat_hashes(hashes) + post, pre.len() + 32 * i) == hashes[i],
{
    let b = pre + concat_hashes(hashes) + post;
    let at = pre.len() + 32 * i;
    assert(b.subrange(at, at + 32) =~= hashes[i]@);
    lemma_array_of(hashes[i], hashes[i]@);
}

/// Reads the `n` hashes that start at `at`.
pub fn read_hashes(bytes: &[u8], at: usize, n: usize) -> (hashes: Vec<Hash32>)
    requires
        at + 32 * n <= bytes@.len(),
    ensures
        hashes@ == Seq::new(n as nat, |i: int| array_at(bytes@, at + 32 * i)),
{
    let size: usize = bytes.len();
    let mut hashes: Vec<Hash32> = Vec::with_capacity(n);
    let mut i: usize = 0;
    while i < n
        invariant
            i <= n,
            at + 32 * n <= size == bytes@.len(),
            hashes@.len() == i,
            forall|k: int| 0 <= k < i ==> #[trigger] hashes@[k] == array_at(bytes@, at + 32 * k),
        decreases n - i,
    {
        let hash = hash_at(bytes, at + 32 * i);
        proof {
            lemma_array_of(hash, bytes@.subrange(at + 32 * i, at + 32 * i + 32));
        }
        hashes.push(hash);
        i += 1;
    }
    assert(hashes@ =~= Seq::new(n as nat, |k: int| array_at(bytes@, at + 32 * k)));
    hashes
}

/// Appends the eight little-endian bytes of `x` to `out`.
pub fn push_u64(out: &mut Vec<u8>, x: u64)
    ensures
        final(out)@ == old(out)@ + le_bytes(x as nat, 8),
{
    let mut i: usize = 0;
    let mut rest: u64 = x;
    let ghost before = out@;
    let ghost whole = le_bytes(x as nat, 8);
    while i < 8
        invariant
            0 <= i <= 8,
            before + whole == out@ + le_bytes(rest as nat, (8 - i) as nat),
        decreases 8 - i,
    {
        let ghost tail = le_bytes((rest / 256) as nat, (7 - i) as nat);
        let digit: u8 = (rest % 256) as u8;
        out.push(digit);
        rest = rest / 256;
        i += 1;
        proof {
            assert(before + whole =~= out@ + tail);
        }
    }
    assert(out@ + le_bytes(rest as nat, 0) =~= out@);
}

/// Reads the eight little-endian bytes that start at `at`.
pub fn read_u64(bytes: &[u8], at: usize) -> (x: u64)
    requires
        at + 8 <= bytes@.len(),
    ensures
        x as nat == le_nat(bytes@.subrange(at as int, at + 8)),
{
    let total: usize = bytes.len();
    let mut i: usize = 8;
    let mut acc: u64 = 0;
    let ghost field = bytes@.subrange(at as int, at + 8);
    assert(le_nat(field.subrange(8, 8)) == 0);
    while i > 0
        invariant
            0 <= i <= 8,
            at + 8 <= total == bytes@.len(),
            field == bytes@.subrange(at as int, at + 8),
            acc as nat == le_nat(field.subrange(i as int, 8)),
        decreases i,
    {
        proof {
            let shorter = field.subrange(i as int, 8);
            let longer = field.subrange(i - 1, 8);
            assert(longer.drop_first() =~= shorter);
            lemma_le_nat_bound(longer);
            lemma_pow256_small();
            lemma_pow256_monotone((8 - i + 1) as nat, 8);
        }
        i -= 1;
        acc = bytes[at + i] as u64 + 256 * acc;
    }
    assert(field.subrange(0, 8) =~= field);
    acc
}

pub proof fn lemma_pow256_monotone(a: nat, b: nat)
    requires
        a <= b,
    ensures
        pow256(a) <= pow256(b),
    decreases b - a,
{
    if a < b {
        lemma_pow256_monotone(a, (b - 1) as nat);
    }
}

/// Bytes read as a number are the bytes of that number.
pub proof fn lemma_le_bytes_of_nat(s: Seq<u8>)
    ensures
        le_bytes(le_nat(s), s.len()) == s,
    decreases s.len(),
{
    if s.len() > 0 {
        let rest = s.drop_first();
        lemma_le_bytes_of_nat(rest);
        let x = le_nat(s);
        assert(x % 256 == s[0] as nat && x / 256 == le_nat(rest));
        assert(le_bytes(x, s.len()) =~= s);
    } else {
        assert(le_bytes(le_nat(s), 0) =~= s);
    }
}

/// A number read from eight bytes is written as those.
pub proof fn lemma_u64_rewritten(b: Seq<u8>, at: int)
    requires
        0 <= at,
        at + 8 <= b.len(),
    ensures
        le_bytes(u64_at(b, at), 8) == b.subrange(at, at + 8),
{
    lemma_le_bytes_of_nat(b.subrange(at, at + 8));
}

/// Hashes read from bytes are written as those.
pub proof fn lemma_hashes_rewritten(b: Seq<u8>, at: int, n: nat)
    requires
        0 <= at,
        at + 32 * n <= b.len(),
    ensures
        concat_hashes(Seq::new(n, |i: int| array_at(b, at + 32 * i))) == b.subrange(
            at,
            at + 32 * n,
        ),
{
    let hashes = Seq::new(n, |i: int| array_at(b, at + 32 * i));
    let part = b.subrange(at, at + 32 * n);
    assert forall|k: int| 0 <= k < 32 * n implies concat_hashes(hashes)[k] == part[k] by {
        let i = k / 32;
        let cell = b.subrange(at + 32 * i, at + 32 * i + 32);
        lemma_array_exists(cell);
        assert(hashes[i]@ == cell);
        assert(cell[k % 32] == b[at + k]);
    }
    assert(concat_hashes(hashes) =~= part);
}

} // verus!
