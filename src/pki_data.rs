use vstd::prelude::*;

verus! {

/// The six sequences of a decoded PKI object set, as mathematical values.
#[verifier::ext_equal]
pub struct PkiDataView {
    pub x509: Seq<Seq<u8>>,
    pub pkc1: Seq<Seq<u8>>,
    pub sec1: Seq<Seq<u8>>,
    pub crls: Seq<Seq<u8>>,
    pub csrs: Seq<Seq<u8>>,
    pub pkcs8: Seq<Seq<u8>>,
}

/// Typed but undecoded PKI blocks, one ordered sequence per kind of object.
/// Sets only grow: the one way to combine them is `merge`, which appends.
#[derive(Debug)]
pub struct ParsedPkiData {
    /// DER-encoded X.509 certificates.
    pub x509: Vec<Vec<u8>>,
    /// DER-encoded PKCS#1 RSA private keys.
    pub pkc1: Vec<Vec<u8>>,
    /// DER-encoded SEC1 elliptic-curve private keys.
    pub sec1: Vec<Vec<u8>>,
    /// DER-encoded certificate revocation lists.
    pub crls: Vec<Vec<u8>>,
    /// DER-encoded certificate signing requests.
    pub csrs: Vec<Vec<u8>>,
    /// DER-encoded PKCS#8 private keys.
    pub pkcs8: Vec<Vec<u8>>,
}

pub open spec fn blocks_view(v: Seq<Vec<u8>>) -> Seq<Seq<u8>> {
    v.map_values(|b: Vec<u8>| b@)
}

impl View for ParsedPkiData {
    type V = PkiDataView;

    open spec fn view(&self) -> PkiDataView {
        PkiDataView {
            x509: blocks_view(self.x509@),
            pkc1: blocks_view(self.pkc1@),
            sec1: blocks_view(self.sec1@),
            crls: blocks_view(self.crls@),
            csrs: blocks_view(self.csrs@),
            pkcs8: blocks_view(self.pkcs8@),
        }
    }
}

/// The empty object set.
pub open spec fn empty_pki_data() -> PkiDataView {
    PkiDataView {
        x509: Seq::empty(),
        pkc1: Seq::empty(),
        sec1: Seq::empty(),
        crls: Seq::empty(),
        csrs: Seq::empty(),
        pkcs8: Seq::empty(),
    }
}

/// The result of merging `b` into `a`: every sequence of `b` appended to the
/// matching sequence of `a`.
pub open spec fn merged(a: PkiDataView, b: PkiDataView) -> PkiDataView {
    PkiDataView {
        x509: a.x509 + b.x509,
        pkc1: a.pkc1 + b.pkc1,
        sec1: a.sec1 + b.sec1,
        crls: a.crls + b.crls,
        csrs: a.csrs + b.csrs,
        pkcs8: a.pkcs8 + b.pkcs8,
    }
}

/// Two object sets hold the same members of every kind, counted with
/// multiplicity and regardless of order.
pub open spec fn same_members(a: PkiDataView, b: PkiDataView) -> bool {
    &&& a.x509.to_multiset() == b.x509.to_multiset()
    &&& a.pkc1.to_multiset() == b.pkc1.to_multiset()
    &&& a.sec1.to_multiset() == b.sec1.to_multiset()
    &&& a.crls.to_multiset() == b.crls.to_multiset()
    &&& a.csrs.to_multiset() == b.csrs.to_multiset()
    &&& a.pkcs8.to_multiset() == b.pkcs8.to_multiset()
}

/// Every member of `a`, of every kind, is a member of `b`.
pub open spec fn contains_all(b: PkiDataView, a: PkiDataView) -> bool {
    &&& forall|x: Seq<u8>| a.x509.contains(x) ==> #[trigger] b.x509.contains(x)
    &&& forall|x: Seq<u8>| a.pkc1.contains(x) ==> #[trigger] b.pkc1.contains(x)
    &&& forall|x: Seq<u8>| a.sec1.contains(x) ==> #[trigger] b.sec1.contains(x)
    &&& forall|x: Seq<u8>| a.crls.contains(x) ==> #[trigger] b.crls.contains(x)
    &&& forall|x: Seq<u8>| a.csrs.contains(x) ==> #[trigger] b.csrs.contains(x)
    &&& forall|x: Seq<u8>| a.pkcs8.contains(x) ==> #[trigger] b.pkcs8.contains(x)
}

proof fn lemma_blocks_append(a: Seq<Vec<u8>>, b: Seq<Vec<u8>>)
    ensures
        blocks_view(a + b) == blocks_view(a) + blocks_view(b),
{
    assert(blocks_view(a + b) =~= blocks_view(a) + blocks_view(b));
}

proof fn lemma_concat_multiset_commutes(a: Seq<Seq<u8>>, b: Seq<Seq<u8>>)
    ensures
        (a + b).to_multiset() == (b + a).to_multiset(),
{
    vstd::seq_lib::lemma_seq_union_to_multiset_commutative(a, b);
}

proof fn lemma_concat_contains(a: Seq<Seq<u8>>, b: Seq<Seq<u8>>)
    ensures
        forall|x: Seq<u8>| a.contains(x) ==> #[trigger] (a + b).contains(x),
        forall|x: Seq<u8>| b.contains(x) ==> #[trigger] (a + b).contains(x),
{
    assert forall|x: Seq<u8>| a.contains(x) implies #[trigger] (a + b).contains(x) by {
        let i = choose|i: int| 0 <= i < a.len() && a[i] == x;
        assert((a + b)[i] == x);
    }
    assert forall|x: Seq<u8>| b.contains(x) implies #[trigger] (a + b).contains(x) by {
        let i = choose|i: int| 0 <= i < b.len() && b[i] == x;
        assert((a + b)[a.len() + i] == x);
    }
}

/// Merging is associative: `merge(merge(a, b), c)` and `merge(a, merge(b, c))`
/// give the same set, sequence for sequence.
pub proof fn lemma_merge_associative(a: PkiDataView, b: PkiDataView, c: PkiDataView)
    ensures
        merged(merged(a, b), c) == merged(a, merged(b, c)),
        same_members(merged(merged(a, b), c), merged(a, merged(b, c))),
{
    assert(merged(merged(a, b), c) =~= merged(a, merged(b, c)));
}

/// Merging is commutative in membership: `merge(a, b)` and `merge(b, a)` hold
/// the same members, and neither loses a member of `a` or of `b`.
pub proof fn lemma_merge_commutative_membership(a: PkiDataView, b: PkiDataView)
    ensures
        same_members(merged(a, b), merged(b, a)),
        contains_all(merged(a, b), a),
        contains_all(merged(a, b), b),
{
    lemma_concat_multiset_commutes(a.x509, b.x509);
    lemma_concat_multiset_commutes(a.pkc1, b.pkc1);
    lemma_concat_multiset_commutes(a.sec1, b.sec1);
    lemma_concat_multiset_commutes(a.crls, b.crls);
    lemma_concat_multiset_commutes(a.csrs, b.csrs);
    lemma_concat_multiset_commutes(a.pkcs8, b.pkcs8);
    lemma_concat_contains(a.x509, b.x509);
    lemma_concat_contains(a.pkc1, b.pkc1);
    lemma_concat_contains(a.sec1, b.sec1);
    lemma_concat_contains(a.crls, b.crls);
    lemma_concat_contains(a.csrs, b.csrs);
    lemma_concat_contains(a.pkcs8, b.pkcs8);
}

/// Deltas from two sources, merged into an aggregate in either order, leave
/// the aggregate with the same members, and each delta is wholly present
/// either way.
pub proof fn lemma_merge_order_independent(agg: PkiDataView, d1: PkiDataView, d2: PkiDataView)
    ensures
        same_members(merged(merged(agg, d1), d2), merged(merged(agg, d2), d1)),
        contains_all(merged(merged(agg, d1), d2), d1),
        contains_all(merged(merged(agg, d1), d2), d2),
        contains_all(merged(merged(agg, d2), d1), d1),
        contains_all(merged(merged(agg, d2), d1), d2),
        contains_all(merged(merged(agg, d1), d2), agg),
{
    lemma_merge_associative(agg, d1, d2);
    lemma_merge_associative(agg, d2, d1);
    lemma_merge_commutative_membership(d1, d2);
    let m12 = merged(d1, d2);
    let m21 = merged(d2, d1);
    lemma_merge_commutative_membership(agg, m12);
    lemma_merge_commutative_membership(agg, m21);
    lemma_merge_commutative_membership(merged(agg, d1), d2);
    lemma_merge_commutative_membership(merged(agg, d2), d1);
    lemma_merge_commutative_membership(agg, d1);
    lemma_merge_commutative_membership(agg, d2);
    assert(same_members(merged(agg, m12), merged(agg, m21))) by {
        vstd::seq_lib::lemma_multiset_commutative(agg.x509, m12.x509);
        vstd::seq_lib::lemma_multiset_commutative(agg.x509, m21.x509);
        vstd::seq_lib::lemma_multiset_commutative(agg.pkc1, m12.pkc1);
        vstd::seq_lib::lemma_multiset_commutative(agg.pkc1, m21.pkc1);
        vstd::seq_lib::lemma_multiset_commutative(agg.sec1, m12.sec1);
        vstd::seq_lib::lemma_multiset_commutative(agg.sec1, m21.sec1);
        vstd::seq_lib::lemma_multiset_commutative(agg.crls, m12.crls);
        vstd::seq_lib::lemma_multiset_commutative(agg.crls, m21.crls);
        vstd::seq_lib::lemma_multiset_commutative(agg.csrs, m12.csrs);
        vstd::seq_lib::lemma_multiset_commutative(agg.csrs, m21.csrs);
        vstd::seq_lib::lemma_multiset_commutative(agg.pkcs8, m12.pkcs8);
        vstd::seq_lib::lemma_multiset_commutative(agg.pkcs8, m21.pkcs8);
    }
}

impl ParsedPkiData {
    /// An empty object set.
    pub fn new() -> (r: ParsedPkiData)
        ensures
            r@ == empty_pki_data(),
    {
        let r = ParsedPkiData {
            x509: Vec::new(),
            pkc1: Vec::new(),
            sec1: Vec::new(),
            crls: Vec::new(),
            csrs: Vec::new(),
            pkcs8: Vec::new(),
        };
        assert(r@ =~= empty_pki_data());
        r
    }

    /// Moves every block of `other` to the end of the matching sequence of
    /// `self`, leaving `other` empty.
    pub fn merge(&mut self, other: &mut ParsedPkiData)
        ensures
            final(self)@ == merged(old(self)@, old(other)@),
            final(other)@ == empty_pki_data(),
    {
        proof {
            lemma_blocks_append(self.crls@, other.crls@);
            lemma_blocks_append(self.csrs@, other.csrs@);
            lemma_blocks_append(self.x509@, other.x509@);
            lemma_blocks_append(self.sec1@, other.sec1@);
            lemma_blocks_append(self.pkc1@, other.pkc1@);
            lemma_blocks_append(self.pkcs8@, other.pkcs8@);
        }
        self.crls.append(&mut other.crls);
        self.csrs.append(&mut other.csrs);
        self.x509.append(&mut other.x509);
        self.sec1.append(&mut other.sec1);
        self.pkc1.append(&mut other.pkc1);
        self.pkcs8.append(&mut other.pkcs8);
        assert(other@ =~= empty_pki_data());
        assert(self@ =~= merged(old(self)@, old(other)@));
    }
}

impl Default for ParsedPkiData {
    fn default() -> (r: ParsedPkiData)
        ensures
            r@ == empty_pki_data(),
    {
        ParsedPkiData::new()
    }
}

} // verus!
