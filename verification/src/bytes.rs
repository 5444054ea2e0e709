//! Integers and fixed-size hashes as byte sequences.

use vstd::prelude::*;

verus! {

/// A 32-byte digest.
pub type Hash32 = [u8; 32];

/// The `n` lowest bytes of `v`, least significant first.
pub open spec fn le_bytes(v: nat, n: nat) -> Seq<u8>
    decreases n,
{
    if n == 0 {
        seq![]
    } else {
        seq![(v % 256) as u8] + le_bytes(v / 256, (n - 1) as nat)
    }
}

/// The number that `s` stands for, least significant byte first.
pub open spec fn le_value(s: Seq<u8>) -> nat
    decreases s.len(),
{
    if s.len() == 0 {
        0
    } else {
        s[0] as nat + 256 * le_value(s.drop_first())
    }
}

/// The `n` lowest bytes of `v`, most significant first.
pub open spec fn be_bytes(v: nat, n: nat) -> Seq<u8>
    decreases n,
{
    if n == 0 {
        seq![]
    } else {
        be_bytes(v / 256, (n - 1) as nat).push((v % 256) as u8)
    }
}

/// The number that `s` stands for, most significant byte first.
pub open spec fn be_value(s: Seq<u8>) -> nat
    decreases s.len(),
{
    if s.len() == 0 {
        0
    } else {
        be_value(s.drop_last()) * 256 + s.last() as nat
    }
}

/// How many values `n` bytes can take.
pub open spec fn span(n: nat) -> nat
    decreases n,
{
    if n == 0 {
        1
    } else {
        256 * span((n - 1) as nat)
    }
}

pub proof fn lemma_span_values()
    ensures
        span(2) == 0x1_0000,
        span(4) == 0x1_0000_0000,
        span(8) == 0x1_0000_0000_0000_0000,
        span(16) == 0x1_0000_0000_0000_0000_0000_0000_0000_0000,
{
    reveal_with_fuel(span, 17);
}

pub proof fn lemma_span_monotonic(m: nat, n: nat)
    requires
        m <= n,
    ensures
        span(m) <= span(n),
    decreases n,
{
    if m < n {
        lemma_span_monotonic(m, (n - 1) as nat);
    }
}

pub proof fn lemma_le_bytes_len(v: nat, n: nat)
    ensures
        le_bytes(v, n).len() == n,
    decreases n,
{
    if n > 0 {
        lemma_le_bytes_len(v / 256, (n - 1) as nat);
    }
}

pub proof fn lemma_be_bytes_len(v: nat, n: nat)
    ensures
        be_bytes(v, n).len() == n,
    decreases n,
{
    if n > 0 {
        lemma_be_bytes_len(v / 256, (n - 1) as nat);
    }
}

pub proof fn lemma_le_value_bound(s: Seq<u8>)
    ensures
        le_value(s) < span(s.len()),
    decreases s.len(),
{
    if s.len() > 0 {
        lemma_le_value_bound(s.drop_first());
    }
}

pub proof fn lemma_be_value_bound(s: Seq<u8>)
    ensures
        be_value(s) < span(s.len()),
    decreases s.len(),
{
    if s.len() > 0 {
        lemma_be_value_bound(s.drop_last());
    }
}

/// Reading back what was written least significant byte first gives the number.
pub proof fn lemma_le_round_trip(v: nat, n: nat)
    requires
        v < span(n),
    ensures
        le_value(le_bytes(v, n)) == v,
    decreases n,
{
    if n > 0 {
        lemma_le_round_trip(v / 256, (n - 1) as nat);
        let s = le_bytes(v, n);
        assert(s.drop_first() =~= le_bytes(v / 256, (n - 1) as nat));
    }
}

/// Reading back what was written most significant byte first gives the number.
pub proof fn lemma_be_round_trip(v: nat, n: nat)
    requires
        v < span(n),
    ensures
        be_value(be_bytes(v, n)) == v,
    decreases n,
{
    if n > 0 {
        lemma_be_round_trip(v / 256, (n - 1) as nat);
        let s = be_bytes(v, n);
        assert(s.drop_last() =~= be_bytes(v / 256, (n - 1) as nat));
    }
}

/// The number of two runs of bytes, one behind the other.
pub proof fn lemma_be_value_concat(a: Seq<u8>, b: Seq<u8>)
    ensures
        be_value(a + b) == be_value(a) * span(b.len()) + be_value(b),
    decreases b.len(),
{
    if b.len() == 0 {
        assert(a + b =~= a);
        let (x, y) = (be_value(a) as int, span(b.len()) as int);
        assert(x * y == x) by (nonlinear_arith)
            requires
                y == 1,
        ;
    } else {
        let front = b.drop_last();
        lemma_be_value_concat(a, front);
        assert((a + b).drop_last() =~= a + front);
        let (x, y, z) = (be_value(a) as int, span(front.len()) as int, be_value(front) as int);
        let wide = span(b.len()) as int;
        assert((x * y + z) * 256 == x * wide + z * 256) by (nonlinear_arith)
            requires
                wide == 256 * y,
        ;
    }
}

/// Zero bytes in front stand for nothing.
pub proof fn lemma_be_value_zeros(n: nat)
    ensures
        be_value(Seq::new(n, |i: int| 0u8)) == 0,
    decreases n,
{
    if n > 0 {
        lemma_be_value_zeros((n - 1) as nat);
        assert(Seq::new(n, |i: int| 0u8).drop_last() =~= Seq::new(
            (n - 1) as nat,
            |i: int| 0u8,
        ));
    }
}

/// Writing back what was read gives the same bytes.
pub proof fn lemma_le_bytes_of_value(s: Seq<u8>)
    ensures
        le_bytes(le_value(s), s.len()) == s,
    decreases s.len(),
{
    if s.len() > 0 {
        lemma_le_bytes_of_value(s.drop_first());
        assert(le_bytes(le_value(s), s.len()) =~= s);
    } else {
        assert(le_bytes(le_value(s), s.len()) =~= s);
    }
}

/// Two digests with the same bytes are the same digest.
pub proof fn lemma_hash_view_injective(a: Hash32, b: Hash32)
    ensures
        a@ == b@ <==> a == b,
{
    if a@ == b@ {
        assert forall|i: int| 0 <= i < 32 implies a[i] == b[i] by {
            assert(a@[i] == b@[i]);
        }
        assert(a =~= b);
    }
}

/// Appends the `n` lowest bytes of `v`, least significant first.
pub fn push_le(out: &mut Vec<u8>, v: u64, n: usize)
    ensures
        final(out)@ == old(out)@ + le_bytes(v as nat, n as nat),
{
    let mut rest: u64 = v;
    let mut left: usize = n;
    while left > 0
        invariant
            left <= n,
            out@ + le_bytes(rest as nat, left as nat) == old(out)@ + le_bytes(v as nat, n as nat),
        decreases left,
    {
        let ghost before = out@;
        out.push((rest % 256) as u8);
        assert(before + le_bytes(rest as nat, left as nat) =~= out@ + le_bytes(
            rest as nat / 256,
            (left - 1) as nat,
        ));
        rest = rest / 256;
        left = left - 1;
    }
    assert(out@ + le_bytes(rest as nat, 0) =~= out@);
}

/// Appends the `n` lowest bytes of `v`, most significant first.
pub fn push_be(out: &mut Vec<u8>, v: u128, n: usize)
    ensures
        final(out)@ == old(out)@ + be_bytes(v as nat, n as nat),
    decreases n,
{
    if n > 0 {
        push_be(out, v / 256, n - 1);
        out.push((v % 256) as u8);
        assert(out@ =~= old(out)@ + be_bytes(v as nat, n as nat));
    } else {
        assert(out@ =~= old(out)@ + be_bytes(v as nat, 0));
    }
}

/// Appends all of `data`.
pub fn push_all(out: &mut Vec<u8>, data: &[u8])
    ensures
        final(out)@ == old(out)@ + data@,
{
    out.extend_from_slice(data);
    assert(out@ =~= old(out)@ + data@);
}

/// Reads `n` bytes at `at`, least significant first.
pub fn read_le(data: &[u8], at: usize, n: usize) -> (v: u64)
    requires
        n <= 8,
        at + n <= data@.len(),
    ensures
        v == le_value(data@.subrange(at as int, at + n)),
{
    let mut v: u64 = 0;
    let mut i: usize = n;
    assert(data@.subrange(at + n, at + n) =~= seq![]);
    while i > 0
        invariant
            i <= n <= 8,
            at + n <= data.len(),
            v == le_value(data@.subrange(at + i, at + n)),
        decreases i,
    {
        i = i - 1;
        let ghost tail = data@.subrange(at + i + 1, at + n);
        proof {
            lemma_le_value_bound(tail);
            lemma_span_values();
            lemma_span_monotonic(tail.len(), 7);
            reveal_with_fuel(span, 9);
            assert(data@.subrange(at + i, at + n).drop_first() =~= tail);
        }
        v = data[at + i] as u64 + 256 * v;
    }
    v
}

/// Reads `n` bytes at `at`, most significant first.
pub fn read_be(data: &[u8], at: usize, n: usize) -> (v: u128)
    requires
        n <= 16,
        at + n <= data@.len(),
    ensures
        v == be_value(data@.subrange(at as int, at + n)),
{
    let mut v: u128 = 0;
    let mut i: usize = 0;
    assert(data@.subrange(at as int, at as int) =~= seq![]);
    while i < n
        invariant
            i <= n <= 16,
            at + n <= data.len(),
            v == be_value(data@.subrange(at as int, at + i)),
        decreases n - i,
    {
        let ghost head = data@.subrange(at as int, at + i);
        proof {
            lemma_be_value_bound(head);
            lemma_span_values();
            lemma_span_monotonic(head.len(), 15);
            reveal_with_fuel(span, 17);
            assert(data@.subrange(at as int, at + i + 1).drop_last() =~= head);
        }
        v = v * 256 + data[at + i] as u128;
        i = i + 1;
    }
    v
}

/// Reads the 32 bytes at `at`.
pub fn read_hash(data: &[u8], at: usize) -> (hash: Hash32)
    requires
        at + 32 <= data@.len(),
    ensures
        hash@ == data@.subrange(at as int, at + 32),
{
    let mut hash: Hash32 = [0u8; 32];
    let mut i: usize = 0;
    while i < 32
        invariant
            i <= 32,
            at + 32 <= data.len(),
            forall|j: int| 0 <= j < i ==> hash@[j] == data@[at + j],
        decreases 32 - i,
    {
        hash[i] = data[at + i];
        i = i + 1;
    }
    assert(hash@ =~= data@.subrange(at as int, at + 32));
    hash
}

/// Whether two digests are the same.
pub fn same_hash(a: &Hash32, b: &Hash32) -> (same: bool)
    ensures
        same == (*a == *b),
{
    let mut i: usize = 0;
    while i < 32
        invariant
            i <= 32,
            forall|j: int| 0 <= j < i ==> a@[j] == b@[j],
        decreases 32 - i,
    {
        if a[i] != b[i] {
            assert(a@[i as int] != b@[i as int]);
            return false;
        }
        i = i + 1;
    }
    assert(a@ =~= b@);
    proof {
        lemma_hash_view_injective(*a, *b);
    }
    true
}

/// The first occurrence is where no earlier one is.
pub proof fn lemma_first_index<A>(s: Seq<A>, x: A, k: int)
    requires
        0 <= k < s.len(),
        s[k] == x,
        forall|j: int| 0 <= j < k ==> s[j] != x,
    ensures
        s.index_of_first(x) == Some(k),
{
    s.index_of_first_ensures(x);
    assert(s.contains(x));
    let i = s.index_of_first(x)->0;
    assert(!(i < k));
    assert(!(k < i));
}

/// Where an element does not occur, it has no first occurrence.
pub proof fn lemma_no_index<A>(s: Seq<A>, x: A)
    requires
        forall|j: int| 0 <= j < s.len() ==> s[j] != x,
    ensures
        s.index_of_first(x) == None::<int>,
{
    s.index_of_first_ensures(x);
}

} // verus!
