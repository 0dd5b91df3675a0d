//! The canonical order of displays: by make, then model, then serial, each
//! compared as Rust compares strings, byte by byte over the UTF-8 encoding.
//!
//! Every part of the crate that sorts displays uses this one order, so that a
//! fingerprint computed in one place names the snapshot written in another.

use crate::types::{Head, Identity};
use std::cmp::Ordering;
use vstd::prelude::*;
use vstd::relations::total_ordering;
use vstd::utf8::{encode_utf8, encode_utf8_decode_utf8};

verus! {

/// Strict lexicographic order on byte strings: a proper prefix comes first,
/// otherwise the first differing byte decides.
pub open spec fn bytes_lt(a: Seq<u8>, b: Seq<u8>) -> bool
    decreases a.len(),
{
    if b.len() == 0 {
        false
    } else if a.len() == 0 {
        true
    } else if a[0] != b[0] {
        a[0] < b[0]
    } else {
        bytes_lt(a.drop_first(), b.drop_first())
    }
}

/// Strict order on texts: the byte order of their UTF-8 encodings.
pub open spec fn text_lt(a: Seq<char>, b: Seq<char>) -> bool {
    bytes_lt(encode_utf8(a), encode_utf8(b))
}

/// Strict canonical order on identities: make first, then model, then serial.
pub open spec fn identity_lt(a: Identity, b: Identity) -> bool {
    ||| text_lt(a.make, b.make)
    ||| (a.make == b.make && text_lt(a.model, b.model))
    ||| (a.make == b.make && a.model == b.model && text_lt(a.serial, b.serial))
}

/// Canonical order on identities, equal identities included.
pub open spec fn identity_le(a: Identity, b: Identity) -> bool {
    a == b || identity_lt(a, b)
}

/// No byte string comes before itself.
pub proof fn lemma_bytes_lt_irreflexive(a: Seq<u8>)
    ensures
        !bytes_lt(a, a),
    decreases a.len(),
{
    if a.len() > 0 {
        lemma_bytes_lt_irreflexive(a.drop_first());
    }
}

/// Of two byte strings at most one comes before the other.
pub proof fn lemma_bytes_lt_asymmetric(a: Seq<u8>, b: Seq<u8>)
    requires
        bytes_lt(a, b),
    ensures
        !bytes_lt(b, a),
    decreases a.len(),
{
    if a.len() > 0 && b.len() > 0 && a[0] == b[0] {
        lemma_bytes_lt_asymmetric(a.drop_first(), b.drop_first());
    }
}

/// The byte order is transitive.
pub proof fn lemma_bytes_lt_transitive(a: Seq<u8>, b: Seq<u8>, c: Seq<u8>)
    requires
        bytes_lt(a, b),
        bytes_lt(b, c),
    ensures
        bytes_lt(a, c),
    decreases a.len(),
{
    if a.len() > 0 && b.len() > 0 && c.len() > 0 && a[0] == b[0] && b[0] == c[0] {
        lemma_bytes_lt_transitive(a.drop_first(), b.drop_first(), c.drop_first());
    }
}

/// Two different byte strings are ordered one way or the other.
pub proof fn lemma_bytes_lt_connected(a: Seq<u8>, b: Seq<u8>)
    ensures
        bytes_lt(a, b) || bytes_lt(b, a) || a == b,
    decreases a.len(),
{
    if a.len() == 0 || b.len() == 0 {
        if a.len() == 0 && b.len() == 0 {
            assert(a =~= b);
        }
    } else if a[0] == b[0] {
        lemma_bytes_lt_connected(a.drop_first(), b.drop_first());
        if a.drop_first() == b.drop_first() {
            assert(a =~= seq![a[0]] + a.drop_first());
            assert(b =~= seq![b[0]] + b.drop_first());
        }
    }
}

/// Two different texts are ordered one way or the other.
pub proof fn lemma_text_lt_connected(a: Seq<char>, b: Seq<char>)
    ensures
        text_lt(a, b) || text_lt(b, a) || a == b,
{
    lemma_bytes_lt_connected(encode_utf8(a), encode_utf8(b));
    encode_utf8_decode_utf8(a);
    encode_utf8_decode_utf8(b);
}

/// No identity comes strictly before itself, and of two identities at most
/// one comes strictly before the other.
pub proof fn lemma_identity_lt_asymmetric(a: Identity, b: Identity)
    requires
        identity_lt(a, b),
    ensures
        !identity_lt(b, a),
        a != b,
{
    lemma_bytes_lt_irreflexive(encode_utf8(a.make));
    lemma_bytes_lt_irreflexive(encode_utf8(a.model));
    lemma_bytes_lt_irreflexive(encode_utf8(a.serial));
    if text_lt(a.make, b.make) {
        lemma_bytes_lt_asymmetric(encode_utf8(a.make), encode_utf8(b.make));
    } else if text_lt(a.model, b.model) {
        lemma_bytes_lt_asymmetric(encode_utf8(a.model), encode_utf8(b.model));
    } else {
        lemma_bytes_lt_asymmetric(encode_utf8(a.serial), encode_utf8(b.serial));
    }
}

/// The strict canonical order is transitive.
pub proof fn lemma_identity_lt_transitive(a: Identity, b: Identity, c: Identity)
    requires
        identity_lt(a, b),
        identity_lt(b, c),
    ensures
        identity_lt(a, c),
{
    lemma_bytes_lt_irreflexive(encode_utf8(b.make));
    lemma_bytes_lt_irreflexive(encode_utf8(b.model));
    if text_lt(a.make, b.make) && text_lt(b.make, c.make) {
        lemma_bytes_lt_transitive(encode_utf8(a.make), encode_utf8(b.make), encode_utf8(c.make));
    }
    if a.make == b.make && b.make == c.make {
        if text_lt(a.model, b.model) && text_lt(b.model, c.model) {
            lemma_bytes_lt_transitive(
                encode_utf8(a.model),
                encode_utf8(b.model),
                encode_utf8(c.model),
            );
        }
        if a.model == b.model && b.model == c.model {
            lemma_bytes_lt_transitive(
                encode_utf8(a.serial),
                encode_utf8(b.serial),
                encode_utf8(c.serial),
            );
        }
    }
}

/// Two different identities are ordered one way or the other.
pub proof fn lemma_identity_lt_connected(a: Identity, b: Identity)
    ensures
        identity_lt(a, b) || identity_lt(b, a) || a == b,
{
    lemma_text_lt_connected(a.make, b.make);
    lemma_text_lt_connected(a.model, b.model);
    lemma_text_lt_connected(a.serial, b.serial);
}

/// The canonical order is a total order on identities.
pub proof fn lemma_identity_le_total()
    ensures
        total_ordering(|a: Identity, b: Identity| identity_le(a, b)),
{
    let le = |a: Identity, b: Identity| identity_le(a, b);
    assert forall|a: Identity, b: Identity| #[trigger] le(a, b) && #[trigger] le(b, a) implies a
        == b by {
        if identity_lt(a, b) {
            lemma_identity_lt_asymmetric(a, b);
        }
    }
    assert forall|a: Identity, b: Identity, c: Identity| #[trigger]
        le(a, b) && #[trigger] le(b, c) implies le(a, c) by {
        if identity_lt(a, b) && identity_lt(b, c) {
            lemma_identity_lt_transitive(a, b, c);
        }
    }
    assert forall|a: Identity, b: Identity| #[trigger] le(a, b) || #[trigger] le(b, a) by {
        lemma_identity_lt_connected(a, b);
    }
}

/// How one value stands to another in an order.
#[derive(Clone, Copy, Debug, PartialEq, Eq, Structural)]
pub enum Precedence {
    Before,
    Same,
    After,
}

/// Compares two byte strings lexicographically.
pub fn order_bytes(a: &[u8], b: &[u8]) -> (r: Precedence)
    ensures
        r == Precedence::Before <==> bytes_lt(a@, b@),
        r == Precedence::Same <==> a@ == b@,
        r == Precedence::After <==> bytes_lt(b@, a@),
{
    let mut i: usize = 0;
    proof {
        assert(a@.skip(0) =~= a@);
        assert(b@.skip(0) =~= b@);
    }
    while i < a.len() && i < b.len()
        invariant
            i <= a.len(),
            i <= b.len(),
            a@.take(i as int) == b@.take(i as int),
            bytes_lt(a@, b@) == bytes_lt(a@.skip(i as int), b@.skip(i as int)),
            bytes_lt(b@, a@) == bytes_lt(b@.skip(i as int), a@.skip(i as int)),
        decreases a.len() - i,
    {
        let ghost ra = a@.skip(i as int);
        let ghost rb = b@.skip(i as int);
        proof {
            assert(ra[0] == a@[i as int]);
            assert(rb[0] == b@[i as int]);
            assert(ra.drop_first() =~= a@.skip(i + 1));
            assert(rb.drop_first() =~= b@.skip(i + 1));
        }
        if a[i] < b[i] {
            proof {
                lemma_bytes_lt_asymmetric(ra, rb);
            }
            return Precedence::Before;
        }
        if a[i] > b[i] {
            proof {
                lemma_bytes_lt_asymmetric(rb, ra);
            }
            return Precedence::After;
        }
        proof {
            assert(a@.take(i + 1) =~= a@.take(i as int).push(a@[i as int]));
            assert(b@.take(i + 1) =~= b@.take(i as int).push(b@[i as int]));
        }
        i += 1;
    }
    proof {
        assert(a@.skip(i as int).len() == a.len() - i);
        assert(b@.skip(i as int).len() == b.len() - i);
        if a.len() == b.len() {
            assert(a@ =~= a@.take(i as int));
            assert(b@ =~= b@.take(i as int));
            lemma_bytes_lt_irreflexive(a@);
        }
    }
    if a.len() < b.len() {
        Precedence::Before
    } else if a.len() > b.len() {
        Precedence::After
    } else {
        Precedence::Same
    }
}

/// Compares two texts as Rust compares strings.
pub fn order_texts(a: &str, b: &str) -> (r: Precedence)
    ensures
        r == Precedence::Before <==> text_lt(a@, b@),
        r == Precedence::Same <==> a@ == b@,
        r == Precedence::After <==> text_lt(b@, a@),
{
    proof {
        encode_utf8_decode_utf8(a@);
        encode_utf8_decode_utf8(b@);
    }
    order_bytes(a.as_bytes(), b.as_bytes())
}

impl Head {
    /// How this display stands to `other` in the canonical order.
    pub fn precedence(&self, other: &Head) -> (r: Precedence)
        ensures
            r == Precedence::Before <==> identity_lt(self.identity(), other.identity()),
            r == Precedence::Same <==> self.identity() == other.identity(),
            r == Precedence::After <==> identity_lt(other.identity(), self.identity()),
    {
        proof {
            lemma_identity_lt_connected(self.identity(), other.identity());
            if identity_lt(self.identity(), other.identity()) {
                lemma_identity_lt_asymmetric(self.identity(), other.identity());
            }
            if identity_lt(other.identity(), self.identity()) {
                lemma_identity_lt_asymmetric(other.identity(), self.identity());
            }
        }
        match order_texts(self.make.as_str(), other.make.as_str()) {
            Precedence::Before => Precedence::Before,
            Precedence::After => Precedence::After,
            Precedence::Same => match order_texts(self.model.as_str(), other.model.as_str()) {
                Precedence::Before => Precedence::Before,
                Precedence::After => Precedence::After,
                Precedence::Same => order_texts(self.serial.as_str(), other.serial.as_str()),
            },
        }
    }

    /// Whether this display stands at or before `other` in the canonical order.
    pub fn at_or_before(&self, other: &Head) -> (r: bool)
        ensures
            r == identity_le(self.identity(), other.identity()),
    {
        match self.precedence(other) {
            Precedence::After => false,
            _ => true,
        }
    }

    /// Whether this display and `other` are the same physical unit.
    pub fn same_identity(&self, other: &Head) -> (r: bool)
        ensures
            r == (self.identity() == other.identity()),
    {
        self.make == other.make && self.model == other.model && self.serial == other.serial
    }

    /// Compares two displays by make, then model, then serial.
    pub fn cmp_mms(&self, other: &Self) -> (r: Ordering)
        ensures
            r == Ordering::Less <==> identity_lt(self.identity(), other.identity()),
            r == Ordering::Equal <==> self.identity() == other.identity(),
            r == Ordering::Greater <==> identity_lt(other.identity(), self.identity()),
    {
        match self.precedence(other) {
            Precedence::Before => Ordering::Less,
            Precedence::Same => Ordering::Equal,
            Precedence::After => Ordering::Greater,
        }
    }
}

} // verus!
