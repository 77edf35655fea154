//! The order of keys: byte strings compared byte by byte, a proper prefix
//! before the strings it begins.

use vstd::prelude::*;

verus! {

/// How one key stands to another.
#[derive(Clone, Copy, Debug, PartialEq, Eq, Structural)]
pub enum Comparison {
    /// The first key comes before the second.
    Less,
    /// The keys are the same.
    Equal,
    /// The first key comes after the second.
    Greater,
}

/// Compares two byte strings lexicographically.
pub open spec fn compare(a: Seq<u8>, b: Seq<u8>) -> Comparison
    decreases a.len(),
{
    if a.len() == 0 {
        if b.len() == 0 {
            Comparison::Equal
        } else {
            Comparison::Less
        }
    } else if b.len() == 0 {
        Comparison::Greater
    } else if a[0] < b[0] {
        Comparison::Less
    } else if a[0] > b[0] {
        Comparison::Greater
    } else {
        compare(a.skip(1), b.skip(1))
    }
}

/// Whether `a` comes strictly before `b`.
pub open spec fn less(a: Seq<u8>, b: Seq<u8>) -> bool {
    compare(a, b) is Less
}

/// Whether `a` comes before `b` or is `b`.
pub open spec fn at_most(a: Seq<u8>, b: Seq<u8>) -> bool {
    !(compare(a, b) is Greater)
}

/// Two keys compare as equal exactly when they are the same sequence.
pub proof fn lemma_compare_equal(a: Seq<u8>, b: Seq<u8>)
    ensures
        compare(a, b) is Equal <==> a == b,
    decreases a.len(),
{
    if a.len() == 0 || b.len() == 0 {
        if a.len() == 0 && b.len() == 0 {
            assert(a =~= b);
        }
    } else if a[0] == b[0] {
        lemma_compare_equal(a.skip(1), b.skip(1));
        if a.skip(1) == b.skip(1) {
            assert(a =~= seq![a[0]] + a.skip(1));
            assert(b =~= seq![b[0]] + b.skip(1));
        }
    }
}

/// Exchanging the two keys exchanges `Less` and `Greater`.
pub proof fn lemma_compare_flip(a: Seq<u8>, b: Seq<u8>)
    ensures
        compare(a, b) is Less <==> compare(b, a) is Greater,
        compare(a, b) is Greater <==> compare(b, a) is Less,
        compare(a, b) is Equal <==> compare(b, a) is Equal,
    decreases a.len(),
{
    if a.len() > 0 && b.len() > 0 && a[0] == b[0] {
        lemma_compare_flip(a.skip(1), b.skip(1));
    }
}

/// The order is transitive.
pub proof fn lemma_less_transitive(a: Seq<u8>, b: Seq<u8>, c: Seq<u8>)
    requires
        less(a, b),
        less(b, c),
    ensures
        less(a, c),
    decreases a.len(),
{
    if a.len() > 0 && b.len() > 0 && c.len() > 0 && a[0] == b[0] && b[0] == c[0] {
        lemma_less_transitive(a.skip(1), b.skip(1), c.skip(1));
    }
}

/// No key comes before itself.
pub proof fn lemma_less_irreflexive(a: Seq<u8>)
    ensures
        !less(a, a),
{
    lemma_compare_equal(a, a);
}

/// Compares two byte strings lexicographically.
pub fn compare_bytes(a: &[u8], b: &[u8]) -> (r: Comparison)
    ensures
        r == compare(a@, b@),
{
    let mut i: usize = 0;
    assert(a@.skip(0) =~= a@ && b@.skip(0) =~= b@);
    while i < a.len() && i < b.len()
        invariant
            i <= a@.len(),
            i <= b@.len(),
            compare(a@, b@) == compare(a@.skip(i as int), b@.skip(i as int)),
        decreases a@.len() - i,
    {
        if a[i] < b[i] {
            return Comparison::Less;
        } else if a[i] > b[i] {
            return Comparison::Greater;
        }
        assert(a@.skip(i as int).skip(1) =~= a@.skip(i + 1));
        assert(b@.skip(i as int).skip(1) =~= b@.skip(i + 1));
        i += 1;
    }
    if i == a.len() {
        if i == b.len() {
            Comparison::Equal
        } else {
            Comparison::Less
        }
    } else {
        Comparison::Greater
    }
}

/// Whether two byte strings are the same.
pub fn bytes_equal(a: &[u8], b: &[u8]) -> (r: bool)
    ensures
        r <==> a@ == b@,
{
    proof {
        lemma_compare_equal(a@, b@);
    }
    match compare_bytes(a, b) {
        Comparison::Equal => true,
        _ => false,
    }
}

} // verus!
