//! Sinsemilla Merkle hashing over the Orchard tree, and the mathematics of
//! its nodes.

use crate::bytes::{hash_eq, Hash32};
use incrementalmerkletree::{Hashable, Level};
use orchard::tree::MerkleHashOrchard;
use vstd::prelude::*;
#[allow(unused_imports)]
use crate::bytes::{le_bytes, le_nat};

verus! {

/// The modulus of the Pallas base field.
pub open spec fn field_modulus() -> nat {
    0x40000000000000000000000000000000224698fc094cf91b992d30ed00000001nat
}

/// Whether bytes are the canonical encoding of a field element: 32 bytes whose
/// little-endian value is below the modulus.
pub open spec fn canonical(s: Seq<u8>) -> bool {
    s.len() == 32 && le_nat(s) < field_modulus()
}

/// The parent of two nodes at `level`, as `MerkleHashOrchard::combine` computes it.
pub uninterp spec fn merkle_crh(level: nat, left: Seq<u8>, right: Seq<u8>) -> Seq<u8>;

/// The root of an empty subtree of height `level`: the element 2 at the
/// leaves, and above them the parent of two empty subtrees.
pub open spec fn empty_node(level: nat) -> Seq<u8>
    decreases level,
{
    if level == 0 {
        le_bytes(2, 32)
    } else {
        let child = empty_node((level - 1) as nat);
        merkle_crh((level - 1) as nat, child, child)
    }
}

/// `orchard::tree::MerkleHashOrchard::from_bytes`: it yields a hash exactly
/// when the bytes are the canonical encoding of a Pallas base field element.
#[verifier::external_body]
fn decodes(hash: &Hash32) -> (r: bool)
    ensures
        r == canonical(hash@),
{
    MerkleHashOrchard::from_bytes(hash).is_some().into()
}

/// `<orchard::tree::MerkleHashOrchard as incrementalmerkletree::Hashable>::combine`
/// between canonical encodings: the result is named, not defined, and its
/// encoding is canonical as `to_bytes` always gives it.
#[verifier::external_body]
fn merkle_combine(level: u8, left: &Hash32, right: &Hash32) -> (parent: Hash32)
    requires
        canonical(left@),
        canonical(right@),
    ensures
        parent@ == merkle_crh(level as nat, left@, right@),
        canonical(parent@),
{
    let l = Option::from(MerkleHashOrchard::from_bytes(left)).expect("canonical bytes");
    let r = Option::from(MerkleHashOrchard::from_bytes(right)).expect("canonical bytes");
    <MerkleHashOrchard as Hashable>::combine(Level::from(level), &l, &r).to_bytes()
}

/// `<orchard::tree::MerkleHashOrchard as incrementalmerkletree::Hashable>::empty_root`,
/// a table of 33 entries: the empty leaf, the element 2, and from each level
/// to the next the combination of the entry with itself.
#[verifier::external_body]
fn orchard_empty_root(level: u8) -> (root: Hash32)
    requires
        level <= 32,
    ensures
        root@ == empty_node(level as nat),
        canonical(root@),
{
    <MerkleHashOrchard as Hashable>::empty_root(Level::from(level)).to_bytes()
}

/// Whether `hash` is a canonical node encoding.
pub fn is_canonical(hash: &Hash32) -> (r: bool)
    ensures
        r == canonical(hash@),
{
    decodes(hash)
}

/// Whether every hash of `hashes` is a canonical node encoding.
pub fn all_canonical(hashes: &[Hash32]) -> (r: bool)
    ensures
        r == canonical_all(hashes@),
{
    let mut i: usize = 0;
    while i < hashes.len()
        invariant
            i <= hashes@.len(),
            forall|k: int| 0 <= k < i ==> canonical((#[trigger] hashes@[k])@),
        decreases hashes@.len() - i,
    {
        if !decodes(&hashes[i]) {
            assert(!canonical(hashes@[i as int]@));
            return false;
        }
        i += 1;
    }
    true
}

/// Whether every hash is a canonical node encoding.
pub open spec fn canonical_all(hashes: Seq<Hash32>) -> bool {
    forall|k: int| 0 <= k < hashes.len() ==> canonical((#[trigger] hashes[k])@)
}

/// The parent of two nodes at `level`.
pub fn hash_combine(level: u8, left: &Hash32, right: &Hash32) -> (parent: Hash32)
    requires
        canonical(left@),
        canonical(right@),
    ensures
        parent@ == merkle_crh(level as nat, left@, right@),
        canonical(parent@),
{
    merkle_combine(level, left, right)
}

/// The root of an empty subtree of height `level`.
pub fn empty_root(level: u8) -> (root: Hash32)
    requires
        level <= 32,
    ensures
        root@ == empty_node(level as nat),
        canonical(root@),
{
    orchard_empty_root(level)
}

/// The zero hash is canonical.
pub proof fn lemma_zero_canonical(s: Seq<u8>)
    requires
        s.len() == 32,
        forall|i: int| 0 <= i < 32 ==> s[i] == 0,
    ensures
        canonical(s),
{
    lemma_zeros(s);
}

proof fn lemma_zeros(s: Seq<u8>)
    requires
        forall|i: int| 0 <= i < s.len() ==> s[i] == 0,
    ensures
        le_nat(s) == 0,
    decreases s.len(),
{
    if s.len() > 0 {
        let rest = s.drop_first();
        assert forall|i: int| 0 <= i < rest.len() implies rest[i] == 0 by {
            assert(rest[i] == s[i + 1]);
        }
        lemma_zeros(rest);
    }
}

/// A level of a tree: the node at each index.
pub type Nodes = spec_fn(int) -> Seq<u8>;

/// 2 to the power `k`.
pub open spec fn width(k: nat) -> nat
    decreases k,
{
    if k == 0 {
        1
    } else {
        2 * width((k - 1) as nat)
    }
}

/// The node `k` levels above `f`, a level of height `base`.
pub open spec fn node_at(f: Nodes, base: nat, k: nat, i: int) -> Seq<u8>
    decreases k,
{
    if k == 0 {
        f(i)
    } else {
        merkle_crh(
            (base + k - 1) as nat,
            node_at(f, base, (k - 1) as nat, 2 * i),
            node_at(f, base, (k - 1) as nat, 2 * i + 1),
        )
    }
}

/// A level of height `base` that begins with `nodes` and is empty from there on.
pub open spec fn padded(nodes: Seq<Hash32>, base: nat) -> Nodes {
    |i: int|
        if 0 <= i < nodes.len() {
            nodes[i]@
        } else {
            empty_node(base)
        }
}

/// The index of the other child of the same parent.
pub open spec fn sibling(i: int) -> int {
    if i % 2 == 0 {
        i + 1
    } else {
        i - 1
    }
}

/// The index `k` levels up.
pub open spec fn up(i: int, k: nat) -> int
    decreases k,
{
    if k == 0 {
        i
    } else {
        up(i, (k - 1) as nat) / 2
    }
}

/// The bytes of each hash.
pub open spec fn bytes_of(hashes: Seq<Hash32>) -> Seq<Seq<u8>> {
    hashes.map_values(|h: Hash32| h@)
}

/// The root that a leaf and its siblings give, `k` levels up.
pub open spec fn climbed(position: int, leaf: Seq<u8>, siblings: Seq<Seq<u8>>, k: nat) -> Seq<u8>
    decreases k,
{
    if k == 0 {
        leaf
    } else {
        let below = climbed(position, leaf, siblings, (k - 1) as nat);
        let other = siblings[k - 1];
        if up(position, (k - 1) as nat) % 2 == 0 {
            merkle_crh((k - 1) as nat, below, other)
        } else {
            merkle_crh((k - 1) as nat, other, below)
        }
    }
}

pub proof fn lemma_width_values()
    ensures
        width(8) == 256,
        width(16) == 65_536,
        width(32) == 0x1_0000_0000,
{
    reveal_with_fuel(width, 33);
}

pub proof fn lemma_width_pos(k: nat)
    ensures
        width(k) > 0,
    decreases k,
{
    if k > 0 {
        lemma_width_pos((k - 1) as nat);
    }
}

/// Levels add up: going `k` up and then `m` more is going `k + m` up.
pub proof fn lemma_stacked(f: Nodes, base: nat, k: nat, m: nat, i: int)
    ensures
        node_at(|j: int| node_at(f, base, k, j), base + k, m, i) == node_at(f, base, k + m, i),
    decreases m,
{
    if m > 0 {
        lemma_stacked(f, base, k, (m - 1) as nat, 2 * i);
        lemma_stacked(f, base, k, (m - 1) as nat, 2 * i + 1);
    }
}

/// A node depends only on the nodes below it, wherever they lie.
pub proof fn lemma_shifted(f: Nodes, g: Nodes, base: nat, k: nat, i: int, d: int)
    requires
        forall|j: int| i * width(k) <= j < (i + 1) * width(k) ==> #[trigger] f(j) == g(j + d * width(k)),
    ensures
        node_at(f, base, k, i) == node_at(g, base, k, i + d),
    decreases k,
{
    if k == 0 {
        assert(width(0) == 1);
        assert(f(i) == g(i + d));
    } else {
        let w = width((k - 1) as nat);
        assert(width(k) == 2 * w);
        lemma_width_pos((k - 1) as nat);
        assert((2 * i) * w == i * (2 * w) && (2 * i + 1) * w == i * (2 * w) + w && (2 * i + 2) * w
            == (i + 1) * (2 * w) && (i + 1) * (2 * w) == i * (2 * w) + 2 * w && (2 * d) * w == d * (
        2 * w)) by (nonlinear_arith);
        assert((2 * i + 1 + 1) * w == (2 * i + 2) * w);
        lemma_shifted(f, g, base, (k - 1) as nat, 2 * i, 2 * d);
        lemma_shifted(f, g, base, (k - 1) as nat, 2 * i + 1, 2 * d);
        assert(2 * i + 2 * d == 2 * (i + d));
    }
}

/// Two levels that agree below a node give the same node.
pub proof fn lemma_same_below(f: Nodes, g: Nodes, base: nat, k: nat, i: int)
    requires
        forall|j: int| i * width(k) <= j < (i + 1) * width(k) ==> #[trigger] f(j) == g(j),
    ensures
        node_at(f, base, k, i) == node_at(g, base, k, i),
{
    assert(0 * width(k) == 0) by (nonlinear_arith);
    lemma_shifted(f, g, base, k, i, 0);
}

/// A node with nothing but empty nodes below it is empty.
pub proof fn lemma_empty_above(f: Nodes, base: nat, k: nat, i: int)
    requires
        forall|j: int| i * width(k) <= j < (i + 1) * width(k) ==> #[trigger] f(j) == empty_node(base),
    ensures
        node_at(f, base, k, i) == empty_node(base + k),
    decreases k,
{
    if k == 0 {
        assert(width(0) == 1);
        assert(f(i) == empty_node(base));
    } else {
        let w = width((k - 1) as nat);
        assert(width(k) == 2 * w);
        lemma_width_pos((k - 1) as nat);
        assert((2 * i) * w == i * (2 * w) && (2 * i + 1) * w == i * (2 * w) + w && (2 * i + 2) * w
            == (i + 1) * (2 * w) && (i + 1) * (2 * w) == i * (2 * w) + 2 * w) by (nonlinear_arith);
        assert((2 * i + 1 + 1) * w == (2 * i + 2) * w);
        lemma_empty_above(f, base, (k - 1) as nat, 2 * i);
        lemma_empty_above(f, base, (k - 1) as nat, 2 * i + 1);
        assert((base + k - 1) as nat == base + (k - 1) as nat);
    }
}

/// Beyond its nodes, a padded level stays empty upwards.
pub proof fn lemma_padded_beyond(nodes: Seq<Hash32>, base: nat, k: nat, i: int)
    requires
        0 <= i,
        i * width(k) >= nodes.len(),
    ensures
        node_at(padded(nodes, base), base, k, i) == empty_node(base + k),
{
    let f = padded(nodes, base);
    assert forall|j: int| i * width(k) <= j < (i + 1) * width(k) implies #[trigger] f(j)
        == empty_node(base) by {}
    lemma_empty_above(f, base, k, i);
}

/// Above a node of height `base`, the siblings along the path give the nodes
/// of the path.
pub proof fn lemma_climb(
    g: Nodes,
    base: nat,
    position: int,
    leaf: Seq<u8>,
    siblings: Seq<Seq<u8>>,
    k: nat,
)
    requires
        0 <= position,
        base <= k,
        climbed(position, leaf, siblings, base) == g(up(position, base)),
        forall|l: int|
            base <= l < k ==> #[trigger] siblings[l] == node_at(
                g,
                base,
                (l - base) as nat,
                sibling(up(position, l as nat)),
            ),
    ensures
        climbed(position, leaf, siblings, k) == node_at(g, base, (k - base) as nat, up(position, k)),
    decreases k,
{
    if k > base {
        lemma_climb(g, base, position, leaf, siblings, (k - 1) as nat);
        let below = up(position, (k - 1) as nat);
        assert(siblings[k - 1] == node_at(g, base, (k - 1 - base) as nat, sibling(below)));
        assert((base + (k - base) - 1) as nat == k - 1);
        if below % 2 == 0 {
            assert(below == 2 * up(position, k));
        } else {
            assert(below == 2 * up(position, k) + 1);
        }
    }
}

/// Going up from an index inside an aligned block of `2^k`.
pub proof fn lemma_up_aligned(a: int, q: int, k: nat, l: nat)
    requires
        0 <= a < width(k),
        l <= k,
    ensures
        up(a + q * width(k), l) == up(a, l) + q * width((k - l) as nat),
        0 <= up(a, l) < width((k - l) as nat),
    decreases l,
{
    if l > 0 {
        lemma_up_aligned(a, q, k, (l - 1) as nat);
        let w = width((k - l) as nat);
        assert(width((k - l + 1) as nat) == 2 * w);
        assert(q * (2 * w) == 2 * (q * w)) by (nonlinear_arith);
        let x = up(a, (l - 1) as nat);
        assert((x + 2 * (q * w)) / 2 == x / 2 + q * w);
    }
}

/// An aligned block has its siblings to itself.
pub proof fn lemma_aligned(f: Nodes, g: Nodes, base: nat, k: nat, l: nat, a: int, q: int)
    requires
        0 <= a < width(k),
        l < k,
        forall|j: int| 0 <= j < width(k) ==> #[trigger] f(j) == g(j + q * width(k)),
    ensures
        node_at(f, base, l, sibling(up(a, l))) == node_at(
            g,
            base,
            l,
            sibling(up(a + q * width(k), l)),
        ),
{
    lemma_up_aligned(a, q, k, l);
    let w = width((k - l) as nat);
    let half = width((k - l - 1) as nat);
    assert(w == 2 * half);
    let d = q * w;
    assert(q * (2 * half) == 2 * (q * half)) by (nonlinear_arith);
    let i = sibling(up(a, l));
    assert(0 <= i < w);
    assert(sibling(up(a + q * width(k), l)) == i + d);
    lemma_width_product(l, (k - l) as nat);
    let wl = width(l);
    lemma_width_pos(l);
    assert(d * wl == q * width(k)) by (nonlinear_arith)
        requires
            d == q * w,
            width(k) == wl * w,
    ;
    assert(0 <= i * wl && (i + 1) * wl <= width(k)) by (nonlinear_arith)
        requires
            0 <= i < w,
            wl > 0,
            width(k) == wl * w,
    ;
    lemma_shifted(f, g, base, l, i, d);
}

pub proof fn lemma_width_product(a: nat, b: nat)
    ensures
        width(a + b) == width(a) * width(b),
    decreases a,
{
    if a == 0 {
        assert(width(0) == 1);
        assert(1 * width(b) == width(b)) by (nonlinear_arith);
    } else {
        lemma_width_product((a - 1) as nat, b);
        let w = width((a - 1) as nat);
        assert(width(a + b) == 2 * width((a + b - 1) as nat));
        assert((2 * w) * width(b) == 2 * (w * width(b))) by (nonlinear_arith);
    }
}

pub proof fn lemma_up_add(i: int, a: nat, b: nat)
    ensures
        up(up(i, a), b) == up(i, a + b),
    decreases b,
{
    if b > 0 {
        lemma_up_add(i, a, (b - 1) as nat);
    }
}

/// An index below `2^k` comes to 0 after `k` levels.
pub proof fn lemma_up_zero(i: int, k: nat)
    requires
        0 <= i < width(k),
    ensures
        up(i, k) == 0,
    decreases k,
{
    if k > 0 {
        lemma_up_first(i, k);
        lemma_up_zero(i / 2, (k - 1) as nat);
    }
}

/// Going up once and then `k - 1` times is going up `k` times.
pub proof fn lemma_up_first(i: int, k: nat)
    requires
        k > 0,
    ensures
        up(i, k) == up(i / 2, (k - 1) as nat),
    decreases k,
{
    if k > 1 {
        lemma_up_first(i, (k - 1) as nat);
    } else {
        reveal_with_fuel(up, 2);
    }
}

/// The number of times that 2 divides `n`.
pub open spec fn twos(n: nat) -> nat
    decreases n,
{
    if n == 0 || n % 2 == 1 {
        0
    } else {
        1 + twos(n / 2)
    }
}

pub proof fn lemma_twos_width(k: nat)
    ensures
        twos(width(k)) == k,
    decreases k,
{
    lemma_width_pos(k);
    if k > 0 {
        lemma_twos_width((k - 1) as nat);
    }
}

/// The parents of the nodes of a level, pair by pair.
///
/// A pair of empty nodes is not hashed: its parent is the empty node above.
pub fn parents(nodes: &Vec<Hash32>, level: u8) -> (next: Vec<Hash32>)
    requires
        nodes@.len() % 2 == 0,
        level < 32,
        canonical_all(nodes@),
    ensures
        next@.len() == nodes@.len() / 2,
        canonical_all(next@),
        forall|i: int|
            0 <= i < next@.len() ==> (#[trigger] next@[i])@ == merkle_crh(
                level as nat,
                nodes@[2 * i]@,
                nodes@[2 * i + 1]@,
            ),
{
    let empty = empty_root(level);
    let above = empty_root(level + 1);
    let total: usize = nodes.len();
    let half: usize = total / 2;
    let mut next: Vec<Hash32> = Vec::with_capacity(half);
    let mut i: usize = 0;
    while i < half
        invariant
            i <= half,
            half == total / 2,
            total == nodes@.len(),
            total % 2 == 0,
            next@.len() == i,
            canonical_all(nodes@),
            canonical_all(next@),
            empty@ == empty_node(level as nat),
            above@ == empty_node(level as nat + 1),
            canonical(above@),
            forall|k: int|
                0 <= k < i ==> (#[trigger] next@[k])@ == merkle_crh(
                    level as nat,
                    nodes@[2 * k]@,
                    nodes@[2 * k + 1]@,
                ),
        decreases half - i,
    {
        let left = &nodes[2 * i];
        let right = &nodes[2 * i + 1];
        assert(canonical(nodes@[2 * i]@));
        assert(canonical(nodes@[2 * i + 1]@));
        let parent = if hash_eq(left, &empty) && hash_eq(right, &empty) {
            above
        } else {
            hash_combine(level, left, right)
        };
        next.push(parent);
        i += 1;
    }
    next
}

/// The node `k` levels above a full level of `2^k` nodes of height `base_level`.
pub fn subtree_root(nodes: Vec<Hash32>, base_level: u8, k: u8) -> (root: Hash32)
    requires
        nodes@.len() == width(k as nat),
        base_level + k <= 32,
        canonical_all(nodes@),
    ensures
        canonical(root@),
        root@ == node_at(padded(nodes@, base_level as nat), base_level as nat, k as nat, 0),
{
    let mut current: Vec<Hash32> = nodes;
    let mut level: u8 = base_level;
    let ghost f = padded(nodes@, base_level as nat);
    let ghost mut up_by: nat = 0;
    proof {
        lemma_width_pos(k as nat);
    }
    while current.len() > 1
        invariant
            level == base_level + up_by,
            up_by <= k,
            base_level + k <= 32,
            current@.len() == width((k - up_by) as nat),
            current@.len() >= 1,
            canonical_all(current@),
            forall|j: int|
                0 <= j < current@.len() ==> (#[trigger] current@[j])@ == node_at(
                    f,
                    base_level as nat,
                    up_by,
                    j,
                ),
        decreases current@.len(),
    {
        assert(up_by < k) by {
            if up_by == k {
                assert(width(0) == 1);
            }
        }
        assert(width((k - up_by) as nat) == 2 * width((k - up_by - 1) as nat));
        let ghost shorter = current@;
        current = parents(&current, level);
        proof {
            assert forall|j: int| 0 <= j < current@.len() implies (#[trigger] current@[j])@
                == node_at(f, base_level as nat, up_by + 1, j) by {
                assert(shorter[2 * j]@ == node_at(f, base_level as nat, up_by, 2 * j));
                assert(shorter[2 * j + 1]@ == node_at(f, base_level as nat, up_by, 2 * j + 1));
            }
            up_by = up_by + 1;
            lemma_width_pos((k - up_by) as nat);
        }
        level = level + 1;
    }
    assert(up_by == k) by {
        if up_by < k {
            assert(width((k - up_by) as nat) == 2 * width((k - up_by - 1) as nat));
            lemma_width_pos((k - up_by - 1) as nat);
        }
    }
    assert(canonical(current@[0]@));
    current[0]
}

/// Places the siblings along the path to `index` into
/// `siblings[base_level..]`, one for each time that 2 divides the number of
/// nodes at `base_level`.
pub fn extract_siblings(
    nodes: &[Hash32],
    index: usize,
    base_level: u8,
    siblings: &mut [Hash32; 32],
)
    requires
        nodes@.len() > 0,
        base_level as nat + twos(nodes@.len()) <= 32,
        canonical_all(nodes@),
    ensures
        forall|l: int|
            base_level <= l < base_level + twos(nodes@.len()) ==> canonical(
                (#[trigger] final(siblings)@[l])@,
            ),
        forall|l: int|
            0 <= l < 32 && !(base_level <= l < base_level + twos(nodes@.len()))
                ==> #[trigger] final(siblings)@[l] == old(siblings)@[l],
        forall|l: int|
            base_level <= l < base_level + twos(nodes@.len()) ==> (#[trigger] final(siblings)@[l])@
                == node_at(
                padded(nodes@, base_level as nat),
                base_level as nat,
                (l - base_level) as nat,
                sibling(up(index as int, (l - base_level) as nat)),
            ),
{
    let mut current: Vec<Hash32> = vstd::slice::slice_to_vec(nodes);
    let mut idx: usize = index;
    let mut level: u8 = base_level;
    let ghost f = padded(nodes@, base_level as nat);
    let ghost before = siblings@;
    let ghost total = twos(nodes@.len());
    let ghost mut k: nat = 0;
    assert(nodes@.len() * width(0) == nodes@.len()) by (nonlinear_arith)
        requires
            width(0) == 1,
    ;
    while current.len() % 2 == 0
        invariant
            current@.len() > 0,
            level == base_level + k,
            k + twos(current@.len()) == total,
            total == twos(nodes@.len()),
            base_level as nat + total <= 32,
            f == padded(nodes@, base_level as nat),
            nodes@.len() == current@.len() * width(k),
            idx == up(index as int, k),
            canonical_all(current@),
            siblings@.len() == before.len() == 32,
            forall|l: int| base_level <= l < level ==> canonical((#[trigger] siblings@[l])@),
            forall|j: int|
                0 <= j < current@.len() ==> (#[trigger] current@[j])@ == node_at(
                    f,
                    base_level as nat,
                    k,
                    j,
                ),
            forall|l: int|
                0 <= l < 32 && !(base_level <= l < level) ==> #[trigger] siblings@[l] == before[l],
            forall|l: int|
                base_level <= l < level ==> (#[trigger] siblings@[l])@ == node_at(
                    f,
                    base_level as nat,
                    (l - base_level) as nat,
                    sibling(up(index as int, (l - base_level) as nat)),
                ),
        decreases current@.len(),
    {
        let other: usize = if idx % 2 == 0 {
            idx + 1
        } else {
            idx - 1
        };
        assert(other == sibling(up(index as int, k)));
        let node = if other < current.len() {
            current[other]
        } else {
            proof {
                lemma_width_pos(k);
                assert(other * width(k) >= current@.len() * width(k)) by (nonlinear_arith)
                    requires
                        other >= current@.len(),
                ;
                lemma_padded_beyond(nodes@, base_level as nat, k, other as int);
            }
            empty_root(level)
        };
        let ghost prior = siblings@;
        siblings[level as usize] = node;
        assert(siblings@ =~= prior.update(level as int, node));
        let ghost shorter = current@;
        current = parents(&current, level);
        proof {
            assert(nodes@.len() == current@.len() * width(k + 1)) by (nonlinear_arith)
                requires
                    nodes@.len() == shorter.len() * width(k),
                    shorter.len() == 2 * current@.len(),
                    width(k + 1) == 2 * width(k),
            ;
            assert forall|j: int| 0 <= j < current@.len() implies (#[trigger] current@[j])@
                == node_at(f, base_level as nat, k + 1, j) by {
                assert(shorter[2 * j]@ == node_at(f, base_level as nat, k, 2 * j));
                assert(shorter[2 * j + 1]@ == node_at(f, base_level as nat, k, 2 * j + 1));
            }
            k = k + 1;
        }
        idx = idx / 2;
        level = level + 1;
    }
}

/// The root that a leaf and its 32 siblings give.
pub fn compute_root_from_path(position: u64, leaf: &Hash32, siblings: &[Hash32; 32]) -> (root: Hash32)
    requires
        canonical(leaf@),
        canonical_all(siblings@),
    ensures
        root@ == climbed(position as int, leaf@, bytes_of(siblings@), 32),
        canonical(root@),
{
    let mut current: Hash32 = *leaf;
    let mut pos: u64 = position;
    let mut level: u8 = 0;
    while level < 32
        invariant
            level <= 32,
            canonical(current@),
            canonical_all(siblings@),
            pos == up(position as int, level as nat),
            current@ == climbed(position as int, leaf@, bytes_of(siblings@), level as nat),
        decreases 32 - level,
    {
        let other = &siblings[level as usize];
        assert(canonical(siblings@[level as int]@));
        current = if pos % 2 == 0 {
            hash_combine(level, &current, other)
        } else {
            hash_combine(level, other, &current)
        };
        pos = pos / 2;
        level = level + 1;
    }
    current
}

/// A node is the hash of its two children, at the level of the children; at the
/// bottom it is the given one. An empty leaf is the element 2, and an empty node
/// the hash of two empty ones.
pub proof fn law_nodes_are_hashes_of_children(f: Nodes, base: nat, k: nat, i: int)
    ensures
        node_at(f, base, 0, i) == f(i),
        node_at(f, base, k + 1, i) == merkle_crh(
            base + k,
            node_at(f, base, k, 2 * i),
            node_at(f, base, k, 2 * i + 1),
        ),
        empty_node(0) == le_bytes(2, 32),
        empty_node(k + 1) == merkle_crh(k, empty_node(k), empty_node(k)),
{
}

/// Going up `k` levels divides an index by `2^k`, and a sibling is the one other
/// index with the same parent.
pub proof fn law_indices_halve(i: int, k: nat)
    requires
        0 <= i,
    ensures
        width(k) == vstd::arithmetic::power2::pow2(k),
        up(i, k) == i / vstd::arithmetic::power2::pow2(k) as int,
        sibling(i) != i,
        0 <= sibling(i),
        sibling(i) / 2 == i / 2,
    decreases k,
{
    vstd::arithmetic::power2::lemma_pow2_pos(k);
    if k == 0 {
        vstd::arithmetic::power2::lemma2_to64();
    } else {
        let n = (k - 1) as nat;
        law_indices_halve(i, n);
        vstd::arithmetic::power2::lemma_pow2_pos(n);
        vstd::arithmetic::power2::lemma_pow2_unfold(k);
        vstd::arithmetic::div_mod::lemma_div_denominator(
            i,
            vstd::arithmetic::power2::pow2(n) as int,
            2,
        );
        assert(vstd::arithmetic::power2::pow2(n) * 2 == vstd::arithmetic::power2::pow2(k));
    }
}

} // verus!
