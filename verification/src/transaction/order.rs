//! Equality and order of transactions: both go by the hash.

use crate::bytes::{lemma_lex_irreflexive, lemma_lex_total, lex_less};
use crate::transaction::DbcTransaction;
use core::cmp::Ordering;
use vstd::prelude::*;
use vstd::std_specs::cmp::{PartialEqSpecImpl, PartialOrdSpecImpl};

verus! {

/// How the digest `a` stands to the digest `b` in lexicographic order.
pub open spec fn digest_order(a: Seq<u8>, b: Seq<u8>) -> Ordering {
    if a == b {
        Ordering::Equal
    } else if lex_less(a, b) {
        Ordering::Less
    } else {
        Ordering::Greater
    }
}

/// The order of digests is antisymmetric: turning the two digests round
/// turns the order round.
pub proof fn lemma_digest_order_reverses(a: Seq<u8>, b: Seq<u8>)
    ensures
        digest_order(a, b) == Ordering::Equal <==> a == b,
        digest_order(a, b) == Ordering::Less <==> digest_order(b, a) == Ordering::Greater,
{
    lemma_lex_total(a, b);
    lemma_lex_irreflexive(a);
}

impl PartialEq for DbcTransaction {
    /// Two transactions are equal where their hashes are.
    fn eq(&self, other: &DbcTransaction) -> (r: bool) {
        self.hash().same(&other.hash())
    }
}

impl PartialEqSpecImpl for DbcTransaction {
    open spec fn obeys_eq_spec() -> bool {
        true
    }

    open spec fn eq_spec(&self, other: &DbcTransaction) -> bool {
        self@.hash() == other@.hash()
    }
}

impl Eq for DbcTransaction {

}

impl PartialOrd for DbcTransaction {
    /// Transactions are ordered as their hashes are.
    fn partial_cmp(&self, other: &DbcTransaction) -> (r: Option<Ordering>) {
        Some(self.cmp(other))
    }
}

impl PartialOrdSpecImpl for DbcTransaction {
    open spec fn obeys_partial_cmp_spec() -> bool {
        true
    }

    open spec fn partial_cmp_spec(&self, other: &DbcTransaction) -> Option<Ordering> {
        Some(digest_order(self@.hash(), other@.hash()))
    }
}

impl DbcTransaction {
    /// How this transaction stands to `other`: as its hash stands to the
    /// hash of `other`, byte by byte.
    pub fn cmp(&self, other: &DbcTransaction) -> (r: Ordering)
        ensures
            r == digest_order(self@.hash(), other@.hash()),
    {
        let mine = self.hash();
        let theirs = other.hash();
        if mine.same(&theirs) {
            Ordering::Equal
        } else if mine.less(&theirs) {
            Ordering::Less
        } else {
            Ordering::Greater
        }
    }
}

} // verus!
