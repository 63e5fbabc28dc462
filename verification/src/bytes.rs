//! Byte strings: appending, comparing and ordering them.

use vstd::prelude::*;

verus! {

/// Appends `tail` to `buf`.
pub fn append(buf: &mut Vec<u8>, tail: &[u8])
    ensures
        final(buf)@ == old(buf)@ + tail@,
{
    let ghost before = buf@;
    let mut i: usize = 0;
    while i < tail.len()
        invariant
            i <= tail@.len(),
            buf@ == before + tail@.subrange(0, i as int),
        decreases tail@.len() - i,
    {
        buf.push(tail[i]);
        i += 1;
    }
    assert(tail@.subrange(0, tail@.len() as int) == tail@);
}

/// Whether two byte strings are the same.
pub fn same_bytes(a: &[u8], b: &[u8]) -> (r: bool)
    ensures
        r == (a@ == b@),
{
    if a.len() != b.len() {
        return false;
    }
    let mut i: usize = 0;
    while i < a.len()
        invariant
            i <= a@.len(),
            a@.len() == b@.len(),
            a@.subrange(0, i as int) == b@.subrange(0, i as int),
        decreases a@.len() - i,
    {
        if a[i] != b[i] {
            return false;
        }
        assert(a@.subrange(0, i + 1) == a@.subrange(0, i as int).push(a@[i as int]));
        assert(b@.subrange(0, i + 1) == b@.subrange(0, i as int).push(b@[i as int]));
        i += 1;
    }
    assert(a@.subrange(0, a@.len() as int) == a@);
    assert(b@.subrange(0, b@.len() as int) == b@);
    true
}

/// The array whose first `n` bytes are those of `bytes` and whose other
/// bytes are zero.
pub open spec fn array_with<const N: usize>(bytes: Seq<u8>, n: nat) -> [u8; N]
    decreases n,
{
    if n == 0 {
        vstd::array::spec_array_fill_for_copy_type::<u8, N>(0u8)
    } else {
        vstd::array::spec_array_update(
            array_with::<N>(bytes, (n - 1) as nat),
            n - 1,
            bytes[n - 1],
        )
    }
}

/// The array that holds the first `N` bytes of `bytes`.
pub open spec fn array_of<const N: usize>(bytes: Seq<u8>) -> [u8; N] {
    array_with::<N>(bytes, N as nat)
}

/// The array with the first `n` bytes of some bytes holds them.
pub proof fn lemma_array_with<const N: usize>(bytes: Seq<u8>, n: nat)
    requires
        n <= N,
    ensures
        forall|i: int| 0 <= i < n ==> array_with::<N>(bytes, n)@[i] == bytes[i],
    decreases n,
{
    if n > 0 {
        lemma_array_with::<N>(bytes, (n - 1) as nat);
    }
}

/// The array of as many bytes as it has places holds exactly those bytes,
/// and it is the only array that does.
pub proof fn lemma_array_of<const N: usize>(bytes: Seq<u8>)
    requires
        bytes.len() == N,
    ensures
        array_of::<N>(bytes)@ == bytes,
        forall|a: [u8; N]| a@ == bytes ==> a == array_of::<N>(bytes),
{
    lemma_array_with::<N>(bytes, N as nat);
    assert(array_of::<N>(bytes)@ =~= bytes);
    assert forall|a: [u8; N]| a@ == bytes implies a == array_of::<N>(bytes) by {
        assert(a@ =~= array_of::<N>(bytes)@);
    }
}

/// Lexicographic order on byte strings: `a` comes strictly before `b`.
pub open spec fn lex_less(a: Seq<u8>, b: Seq<u8>) -> bool
    decreases a.len(),
{
    if b.len() == 0 {
        false
    } else if a.len() == 0 {
        true
    } else if a[0] != b[0] {
        a[0] < b[0]
    } else {
        lex_less(a.drop_first(), b.drop_first())
    }
}

/// No byte string comes before itself.
pub proof fn lemma_lex_irreflexive(a: Seq<u8>)
    ensures
        !lex_less(a, a),
    decreases a.len(),
{
    if a.len() > 0 {
        lemma_lex_irreflexive(a.drop_first());
    }
}

/// Of two different byte strings one comes before the other.
pub proof fn lemma_lex_total(a: Seq<u8>, b: Seq<u8>)
    ensures
        a == b || lex_less(a, b) || lex_less(b, a),
        !(lex_less(a, b) && lex_less(b, a)),
    decreases a.len(),
{
    if a.len() == 0 || b.len() == 0 {
        if a.len() == 0 && b.len() == 0 {
            assert(a =~= b);
        }
    } else if a[0] == b[0] {
        lemma_lex_total(a.drop_first(), b.drop_first());
        if a.drop_first() == b.drop_first() {
            assert(a =~= seq![a[0]] + a.drop_first());
            assert(b =~= seq![b[0]] + b.drop_first());
        }
    }
}

/// What comes before something that comes before a third comes before
/// the third.
pub proof fn lemma_lex_transitive(a: Seq<u8>, b: Seq<u8>, c: Seq<u8>)
    requires
        lex_less(a, b),
        lex_less(b, c),
    ensures
        lex_less(a, c),
    decreases a.len(),
{
    if a.len() > 0 && a[0] == b[0] && b[0] == c[0] {
        lemma_lex_transitive(a.drop_first(), b.drop_first(), c.drop_first());
    }
}

/// Whether `a` comes strictly before `b` in lexicographic order.
pub fn less_bytes(a: &[u8], b: &[u8]) -> (r: bool)
    ensures
        r == lex_less(a@, b@),
{
    let mut i: usize = 0;
    assert(a@.skip(0) == a@ && b@.skip(0) == b@);
    while i < a.len() && i < b.len()
        invariant
            i <= a@.len(),
            i <= b@.len(),
            lex_less(a@, b@) == lex_less(a@.skip(i as int), b@.skip(i as int)),
        decreases a@.len() - i,
    {
        let ghost ra = a@.skip(i as int);
        let ghost rb = b@.skip(i as int);
        assert(ra[0] == a@[i as int] && rb[0] == b@[i as int]);
        if a[i] != b[i] {
            return a[i] < b[i];
        }
        assert(ra.drop_first() == a@.skip(i + 1));
        assert(rb.drop_first() == b@.skip(i + 1));
        i += 1;
    }
    assert(a@.skip(i as int).len() == a@.len() - i);
    assert(b@.skip(i as int).len() == b@.len() - i);
    i < b.len()
}

} // verus!
