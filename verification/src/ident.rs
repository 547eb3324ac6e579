//! Package identities and the order in which they are listed.

use vstd::prelude::*;

verus! {

/// The identity of one package. Two identities are the same package exactly
/// when their texts are equal; a package's name alone does not identify it.
#[derive(Debug, Clone, PartialEq, Eq, Hash)]
pub struct PackageId {
    pub repr: String,
}

impl View for PackageId {
    type V = Seq<char>;

    open spec fn view(&self) -> Seq<char> {
        self.repr@
    }
}

/// Lexicographic order on byte strings: a proper prefix comes first,
/// otherwise the first differing byte decides.
pub open spec fn bytes_lt(a: Seq<u8>, b: Seq<u8>) -> bool
    decreases a.len(),
{
    if b.len() == 0 {
        false
    } else if a.len() == 0 {
        true
    } else if a[0] != b[0] {
        a[0] < b[0]
    } else {
        bytes_lt(a.drop_first(), b.drop_first())
    }
}

/// The canonical form by which identities are ordered: the UTF-8 bytes of
/// the text.
pub open spec fn canonical(id: Seq<char>) -> Seq<u8> {
    vstd::utf8::encode_utf8(id)
}

/// `a` is listed before `b` when weights tie.
pub open spec fn id_lt(a: Seq<char>, b: Seq<char>) -> bool {
    bytes_lt(canonical(a), canonical(b))
}

/// No byte string comes before itself.
pub proof fn lemma_bytes_lt_irreflexive(a: Seq<u8>)
    ensures
        !bytes_lt(a, a),
    decreases a.len(),
{
    if a.len() > 0 {
        lemma_bytes_lt_irreflexive(a.drop_first());
    }
}

/// What comes before a byte string comes before everything after it.
pub proof fn lemma_bytes_lt_transitive(a: Seq<u8>, b: Seq<u8>, c: Seq<u8>)
    requires
        bytes_lt(a, b),
        bytes_lt(b, c),
    ensures
        bytes_lt(a, c),
    decreases a.len(),
{
    if a.len() > 0 && a[0] == b[0] && b[0] == c[0] {
        lemma_bytes_lt_transitive(a.drop_first(), b.drop_first(), c.drop_first());
    }
}

/// Of two different byte strings one comes before the other.
pub proof fn lemma_bytes_lt_total(a: Seq<u8>, b: Seq<u8>)
    ensures
        bytes_lt(a, b) || bytes_lt(b, a) || a == b,
    decreases a.len(),
{
    if a.len() == 0 || b.len() == 0 {
        if a.len() == 0 && b.len() == 0 {
            assert(a =~= b);
        }
    } else if a[0] == b[0] {
        lemma_bytes_lt_total(a.drop_first(), b.drop_first());
        if a.drop_first() == b.drop_first() {
            assert(a =~= seq![a[0]] + a.drop_first());
            assert(b =~= seq![b[0]] + b.drop_first());
        }
    }
}

/// Distinct identities have distinct canonical forms.
pub proof fn lemma_canonical_injective(a: Seq<char>, b: Seq<char>)
    requires
        canonical(a) == canonical(b),
    ensures
        a == b,
{
    vstd::utf8::encode_utf8_decode_utf8(a);
    vstd::utf8::encode_utf8_decode_utf8(b);
}

/// The order on identities is a strict total order.
pub proof fn lemma_id_lt_strict_total(a: Seq<char>, b: Seq<char>, c: Seq<char>)
    ensures
        !id_lt(a, a),
        id_lt(a, b) && id_lt(b, c) ==> id_lt(a, c),
        a != b ==> id_lt(a, b) || id_lt(b, a),
        !(id_lt(a, b) && id_lt(b, a)),
{
    lemma_bytes_lt_irreflexive(canonical(a));
    if id_lt(a, b) && id_lt(b, c) {
        lemma_bytes_lt_transitive(canonical(a), canonical(b), canonical(c));
    }
    if a != b {
        lemma_bytes_lt_total(canonical(a), canonical(b));
        if canonical(a) == canonical(b) {
            lemma_canonical_injective(a, b);
        }
    }
    if id_lt(a, b) && id_lt(b, a) {
        lemma_bytes_lt_transitive(canonical(a), canonical(b), canonical(a));
    }
}

proof fn lemma_bytes_lt_skip(a: Seq<u8>, b: Seq<u8>, i: int)
    requires
        0 <= i < a.len(),
        i < b.len(),
        a[i] == b[i],
    ensures
        bytes_lt(a.skip(i), b.skip(i)) == bytes_lt(a.skip(i + 1), b.skip(i + 1)),
{
    assert(a.skip(i).drop_first() =~= a.skip(i + 1));
    assert(b.skip(i).drop_first() =~= b.skip(i + 1));
}

/// Compares two byte strings lexicographically.
pub fn bytes_precede(a: &[u8], b: &[u8]) -> (r: bool)
    ensures
        r == bytes_lt(a@, b@),
{
    let mut i: usize = 0;
    proof {
        assert(a@.skip(0) =~= a@);
        assert(b@.skip(0) =~= b@);
    }
    while i < a.len() && i < b.len()
        invariant
            i <= a@.len(),
            i <= b@.len(),
            bytes_lt(a@, b@) == bytes_lt(a@.skip(i as int), b@.skip(i as int)),
        decreases a@.len() - i,
    {
        if a[i] != b[i] {
            return a[i] < b[i];
        }
        proof {
            lemma_bytes_lt_skip(a@, b@, i as int);
        }
        i += 1;
    }
    i < b.len()
}

impl PackageId {
    /// The identity with the text `repr`.
    pub fn new(repr: &str) -> (id: PackageId)
        ensures
            id@ == repr@,
    {
        PackageId { repr: repr.to_owned() }
    }

    /// Whether both identities name the same package.
    pub fn same(&self, other: &PackageId) -> (r: bool)
        ensures
            r == (self@ == other@),
    {
        self.repr == other.repr
    }

    /// Whether this identity is listed before `other` when weights tie.
    pub fn precedes(&self, other: &PackageId) -> (r: bool)
        ensures
            r == id_lt(self@, other@),
    {
        bytes_precede(self.repr.as_str().as_bytes(), other.repr.as_str().as_bytes())
    }

    /// A second value of the same identity.
    pub fn duplicate(&self) -> (id: PackageId)
        ensures
            id@ == self@,
    {
        PackageId { repr: self.repr.clone() }
    }

    /// The text of the identity.
    pub fn as_str(&self) -> (s: &str)
        ensures
            s@ == self@,
    {
        self.repr.as_str()
    }
}

} // verus!
