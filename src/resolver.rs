use vstd::prelude::*;
use crate::certificate::{
    bytes_equal, certs_view, decode_certificate, decoded_certificate, Certificate, CertificateView,
};
use crate::identity::{pushed, Identities, Identity, IdentityView};
use crate::pem::PkiParser;
use crate::pki_data::{blocks_view, ParsedPkiData, PkiDataView};
use crate::private_key::{
    check_for_certificate_private_key, decode_private_key, decoded_key, key_matches, KeyDecodeError,
    KeyEncoding, PrivateKey, PrivateKeyView,
};

verus! {

/// Why no chain could be built from a leaf to a certificate authority.
#[derive(PartialEq, Eq, Structural, Clone, Copy, Debug)]
pub enum ChainResolutionError {
    /// No certificate of the pool has the sought issuer as its subject.
    MissingIssuer,
    /// More than one certificate of the pool has the sought issuer as its
    /// subject.
    AmbiguousIssuer,
    /// The walk came back to a certificate it had passed without reaching a
    /// self-issued one.
    Cycle,
}

/// Positions in `pool` of the certificates whose subject is `name`, in order.
pub open spec fn issuer_candidates(pool: Seq<CertificateView>, name: Seq<u8>) -> Seq<int>
    decreases pool.len(),
{
    if pool.len() == 0 {
        Seq::empty()
    } else {
        let rest = issuer_candidates(pool.drop_last(), name);
        if pool.last().subject == name {
            rest.push(pool.len() - 1)
        } else {
            rest
        }
    }
}

/// Result of looking up the certificate that issued another.
#[derive(PartialEq, Eq, Structural, Clone, Copy, Debug)]
pub enum IssuerLookup {
    Missing,
    Unique(usize),
    Ambiguous,
}

pub open spec fn issuer_lookup(pool: Seq<CertificateView>, name: Seq<u8>) -> IssuerLookup {
    let c = issuer_candidates(pool, name);
    if c.len() == 0 {
        IssuerLookup::Missing
    } else if c.len() == 1 {
        IssuerLookup::Unique(c[0] as usize)
    } else {
        IssuerLookup::Ambiguous
    }
}

/// The chain above a certificate issued by `issuer`: the intermediates in
/// order and the self-issued certificate that ends it. Each link is the one
/// certificate of `pool` whose subject is the previous link's issuer; `fuel`
/// bounds the number of intermediates.
pub open spec fn chain_from(pool: Seq<CertificateView>, issuer: Seq<u8>, fuel: nat) -> Result<
    (Seq<CertificateView>, CertificateView),
    ChainResolutionError,
>
    decreases fuel,
{
    let c = issuer_candidates(pool, issuer);
    if c.len() == 0 {
        Err(ChainResolutionError::MissingIssuer)
    } else if c.len() > 1 {
        Err(ChainResolutionError::AmbiguousIssuer)
    } else {
        let next = pool[c[0]];
        if next.is_self_issued() {
            Ok((Seq::empty(), next))
        } else if fuel == 0 {
            Err(ChainResolutionError::Cycle)
        } else {
            match chain_from(pool, next.issuer, (fuel - 1) as nat) {
                Ok((inter, ca)) => Ok((seq![next] + inter, ca)),
                Err(e) => Err(e),
            }
        }
    }
}

/// The chain of `leaf` within `pool`. A walk longer than the pool must have
/// passed some certificate twice, so the pool's size bounds it.
pub open spec fn resolve_chain(pool: Seq<CertificateView>, leaf: CertificateView) -> Result<
    (Seq<CertificateView>, CertificateView),
    ChainResolutionError,
> {
    chain_from(pool, leaf.issuer, pool.len())
}

pub open spec fn chain_result_view(r: Result<(Vec<Certificate>, Certificate), ChainResolutionError>) -> Result<
    (Seq<CertificateView>, CertificateView),
    ChainResolutionError,
> {
    match r {
        Ok((inter, ca)) => Ok((certs_view(inter@), ca@)),
        Err(e) => Err(e),
    }
}

proof fn lemma_candidates_in_pool(pool: Seq<CertificateView>, name: Seq<u8>)
    ensures
        forall|k: int|
            0 <= k < issuer_candidates(pool, name).len() ==> 0 <= #[trigger] issuer_candidates(
                pool,
                name,
            )[k] < pool.len() && pool[issuer_candidates(pool, name)[k]].subject == name,
    decreases pool.len(),
{
    if pool.len() > 0 {
        lemma_candidates_in_pool(pool.drop_last(), name);
    }
}

proof fn lemma_candidates_complete(pool: Seq<CertificateView>, name: Seq<u8>)
    ensures
        forall|k: int|
            0 <= k < pool.len() && pool[k].subject == name ==> #[trigger] issuer_candidates(
                pool,
                name,
            ).contains(k),
    decreases pool.len(),
{
    if pool.len() > 0 {
        let rest = pool.drop_last();
        lemma_candidates_complete(rest, name);
        assert forall|k: int| 0 <= k < pool.len() && pool[k].subject == name implies #[trigger] issuer_candidates(
            pool,
            name,
        ).contains(k) by {
            if k < pool.len() - 1 {
                assert(rest[k] == pool[k]);
                let c = issuer_candidates(rest, name);
                assert(c.contains(k));
                let idx = choose|idx: int| 0 <= idx < c.len() && c[idx] == k;
                if pool.last().subject == name {
                    assert(c.push(pool.len() - 1)[idx] == c[idx]);
                }
            } else {
                let c = issuer_candidates(rest, name);
                assert(c.push(pool.len() - 1)[c.len() as int] == k);
            }
        }
    }
}

/// Two certificates of the pool with the leaf's issuer as subject make the
/// chain ambiguous: resolution fails rather than picking one.
pub proof fn lemma_ambiguous_issuer_fails(
    pool: Seq<CertificateView>,
    leaf: CertificateView,
    i: int,
    j: int,
)
    requires
        0 <= i < pool.len(),
        0 <= j < pool.len(),
        i != j,
        pool[i].subject == leaf.issuer,
        pool[j].subject == leaf.issuer,
    ensures
        resolve_chain(pool, leaf) == Err::<(Seq<CertificateView>, CertificateView), ChainResolutionError>(
            ChainResolutionError::AmbiguousIssuer,
        ),
{
    lemma_candidates_complete(pool, leaf.issuer);
    let c = issuer_candidates(pool, leaf.issuer);
    assert(c.contains(i));
    assert(c.contains(j));
    assert(c.len() >= 2) by {
        if c.len() < 2 {
            let a = choose|a: int| 0 <= a < c.len() && c[a] == i;
            let b = choose|b: int| 0 <= b < c.len() && c[b] == j;
            assert(a == 0 && b == 0);
        }
    }
}

/// A leaf issued by an intermediate that a self-issued root issued resolves
/// to that intermediate and that root, in either order of the pool; without
/// the intermediate, a leaf the root issued directly resolves to no
/// intermediates and the root.
pub proof fn lemma_linear_chain(leaf: CertificateView, inter: CertificateView, root: CertificateView)
    requires
        leaf.issuer == inter.subject,
        inter.issuer == root.subject,
        root.subject == root.issuer,
        inter.subject != inter.issuer,
        inter.subject != root.subject,
    ensures
        resolve_chain(seq![inter, root], leaf) == Ok::<
            (Seq<CertificateView>, CertificateView),
            ChainResolutionError,
        >((seq![inter], root)),
        resolve_chain(seq![root, inter], leaf) == Ok::<
            (Seq<CertificateView>, CertificateView),
            ChainResolutionError,
        >((seq![inter], root)),
        resolve_chain(seq![root], inter) == Ok::<
            (Seq<CertificateView>, CertificateView),
            ChainResolutionError,
        >((Seq::empty(), root)),
{
    let p1 = seq![inter, root];
    let p2 = seq![root, inter];
    let p3 = seq![root];
    reveal_with_fuel(issuer_candidates, 3);
    assert(p1.drop_last() =~= seq![inter]);
    assert(p2.drop_last() =~= seq![root]);
    assert(seq![inter].drop_last() =~= Seq::<CertificateView>::empty());
    assert(p3.drop_last() =~= Seq::<CertificateView>::empty());
    assert(issuer_candidates(p1, inter.subject) =~= seq![0int]);
    assert(issuer_candidates(p1, root.subject) =~= seq![1int]);
    assert(issuer_candidates(p2, inter.subject) =~= seq![1int]);
    assert(issuer_candidates(p2, root.subject) =~= seq![0int]);
    assert(issuer_candidates(p3, root.subject) =~= seq![0int]);
    assert(seq![inter] + Seq::<CertificateView>::empty() =~= seq![inter]);
    reveal_with_fuel(chain_from, 2);
}

/// `inter` followed by `ca` is a chain above a certificate issued by
/// `issuer`: each link's subject is the previous link's issuer, every link
/// is in `pool`, and `ca` is self-issued.
pub open spec fn chain_links(
    pool: Seq<CertificateView>,
    issuer: Seq<u8>,
    inter: Seq<CertificateView>,
    ca: CertificateView,
) -> bool {
    let links = inter.push(ca);
    &&& links[0].subject == issuer
    &&& forall|k: int| 0 < k < links.len() ==> #[trigger] links[k].subject == links[k - 1].issuer
    &&& forall|k: int| 0 <= k < links.len() ==> pool.contains(#[trigger] links[k])
    &&& ca.is_self_issued()
}

/// A chain that resolution returns is linked issuer to subject, drawn from
/// the pool, and ends at a self-issued certificate.
pub proof fn lemma_chain_from_links(pool: Seq<CertificateView>, issuer: Seq<u8>, fuel: nat)
    ensures
        chain_from(pool, issuer, fuel) matches Ok((inter, ca)) ==> chain_links(
            pool,
            issuer,
            inter,
            ca,
        ),
    decreases fuel,
{
    lemma_candidates_in_pool(pool, issuer);
    let c = issuer_candidates(pool, issuer);
    if c.len() == 1 {
        assert(0 <= c[0] < pool.len());
        let next = pool[c[0]];
        assert(pool.contains(next));
        if next.is_self_issued() {
            assert(Seq::<CertificateView>::empty().push(next) =~= seq![next]);
        } else if fuel > 0 {
            lemma_chain_from_links(pool, next.issuer, (fuel - 1) as nat);
            if let Ok((inter, ca)) = chain_from(pool, next.issuer, (fuel - 1) as nat) {
                let rest = inter.push(ca);
                let links = (seq![next] + inter).push(ca);
                assert(links =~= seq![next] + rest);
                assert forall|k: int| 0 < k < links.len() implies #[trigger] links[k].subject
                    == links[k - 1].issuer by {
                    if k > 1 {
                        assert(links[k] == rest[k - 1]);
                        assert(links[k - 1] == rest[k - 2]);
                    }
                }
                assert forall|k: int| 0 <= k < links.len() implies pool.contains(
                    #[trigger] links[k],
                ) by {
                    if k > 0 {
                        assert(links[k] == rest[k - 1]);
                    }
                }
            }
        }
    }
}

/// Every name that a successful walk looked up has exactly one certificate
/// in the pool: the walk looks up `issuer` first, then the issuer of each
/// link in turn, and each looked-up name is the subject of the next link.
pub proof fn lemma_chain_lookups_unique(pool: Seq<CertificateView>, issuer: Seq<u8>, fuel: nat)
    ensures
        chain_from(pool, issuer, fuel) matches Ok((inter, ca)) ==> forall|k: int|
            0 <= k < inter.push(ca).len() ==> #[trigger] issuer_candidates(
                pool,
                inter.push(ca)[k].subject,
            ).len() == 1,
    decreases fuel,
{
    lemma_candidates_in_pool(pool, issuer);
    let c = issuer_candidates(pool, issuer);
    if c.len() == 1 {
        assert(0 <= c[0] < pool.len());
        let next = pool[c[0]];
        if next.is_self_issued() {
            assert(Seq::<CertificateView>::empty().push(next) =~= seq![next]);
        } else if fuel > 0 {
            lemma_chain_lookups_unique(pool, next.issuer, (fuel - 1) as nat);
            if let Ok((inter, ca)) = chain_from(pool, next.issuer, (fuel - 1) as nat) {
                let rest = inter.push(ca);
                let links = (seq![next] + inter).push(ca);
                assert(links =~= seq![next] + rest);
                assert forall|k: int| 0 <= k < links.len() implies #[trigger] issuer_candidates(
                    pool,
                    links[k].subject,
                ).len() == 1 by {
                    if k > 0 {
                        assert(links[k] == rest[k - 1]);
                    }
                }
            }
        }
    }
}

/// Two certificates of the pool that share a subject make that name
/// ambiguous at whatever step of the walk looks it up: a walk that succeeds
/// never passes through that name, and one that must pass through it fails.
pub proof fn lemma_ambiguous_name_never_linked(
    pool: Seq<CertificateView>,
    leaf: CertificateView,
    i: int,
    j: int,
)
    requires
        0 <= i < pool.len(),
        0 <= j < pool.len(),
        i != j,
        pool[i].subject == pool[j].subject,
    ensures
        resolve_chain(pool, leaf) matches Ok((inter, ca)) ==> forall|k: int|
            0 <= k < inter.push(ca).len() ==> #[trigger] inter.push(ca)[k].subject != pool[i].subject,
        leaf.issuer == pool[i].subject ==> resolve_chain(pool, leaf) is Err,
{
    let x = pool[i].subject;
    lemma_candidates_complete(pool, x);
    let c = issuer_candidates(pool, x);
    assert(c.contains(i));
    assert(c.contains(j));
    assert(c.len() >= 2) by {
        if c.len() < 2 {
            let a = choose|a: int| 0 <= a < c.len() && c[a] == i;
            let b = choose|b: int| 0 <= b < c.len() && c[b] == j;
            assert(a == 0 && b == 0);
        }
    }
    lemma_chain_lookups_unique(pool, leaf.issuer, pool.len());
    if leaf.issuer == x {
        lemma_ambiguous_issuer_fails(pool, leaf, i, j);
    }
}

/// Looks up the certificate of `pool` whose subject is `name`.
pub fn find_issuer(pool: &Vec<Certificate>, name: &Vec<u8>) -> (r: IssuerLookup)
    ensures
        r == issuer_lookup(certs_view(pool@), name@),
        r matches IssuerLookup::Unique(j) ==> j < pool@.len() && pool@[j as int].subject@
            == name@ && j as int == issuer_candidates(certs_view(pool@), name@)[0],
{
    let ghost p = certs_view(pool@);
    let mut count: usize = 0;
    let mut last: usize = 0;
    let mut first: usize = 0;
    let mut i: usize = 0;
    while i < pool.len()
        invariant
            0 <= i <= pool@.len(),
            p == certs_view(pool@),
            count as int == issuer_candidates(p.subrange(0, i as int), name@).len(),
            count <= i,
            count > 0 ==> first as int == issuer_candidates(p.subrange(0, i as int), name@)[0],
        decreases pool@.len() - i,
    {
        let ghost pre = p.subrange(0, i + 1);
        assert(pre.drop_last() =~= p.subrange(0, i as int));
        assert(pre.last() == pool@[i as int]@);
        if bytes_equal(pool[i].subject.as_slice(), name.as_slice()) {
            if count == 0 {
                first = i;
            }
            count = count + 1;
        }
        i = i + 1;
    }
    assert(p.subrange(0, i as int) =~= p);
    proof {
        lemma_candidates_in_pool(p, name@);
    }
    if count == 0 {
        IssuerLookup::Missing
    } else if count == 1 {
        IssuerLookup::Unique(first)
    } else {
        IssuerLookup::Ambiguous
    }
}

fn chain_above(pool: &Vec<Certificate>, issuer: &Vec<u8>, fuel: usize) -> (r: Result<
    (Vec<Certificate>, Certificate),
    ChainResolutionError,
>)
    ensures
        chain_result_view(r) == chain_from(certs_view(pool@), issuer@, fuel as nat),
    decreases fuel,
{
    match find_issuer(pool, issuer) {
        IssuerLookup::Missing => Err(ChainResolutionError::MissingIssuer),
        IssuerLookup::Ambiguous => Err(ChainResolutionError::AmbiguousIssuer),
        IssuerLookup::Unique(j) => {
            let next = &pool[j];
            if bytes_equal(next.subject.as_slice(), next.issuer.as_slice()) {
                let inter: Vec<Certificate> = Vec::new();
                assert(certs_view(inter@) =~= Seq::<CertificateView>::empty());
                Ok((inter, next.copy()))
            } else if fuel == 0 {
                Err(ChainResolutionError::Cycle)
            } else {
                match chain_above(pool, &next.issuer, fuel - 1) {
                    Ok((mut inter, ca)) => {
                        let ghost rest = certs_view(inter@);
                        inter.insert(0, next.copy());
                        assert(certs_view(inter@) =~= seq![pool@[j as int]@] + rest);
                        Ok((inter, ca))
                    },
                    Err(e) => Err(e),
                }
            }
        },
    }
}

impl PkiParser {
    /// Builds the chain of `source` within `ca_pool`: the intermediates, in
    /// leaf-to-root order, and the self-issued certificate authority. Fails when a
    /// link is missing, when two certificates could be the same link, or when the
    /// walk cycles.
    pub fn certificate_chain(&self, source: &Certificate, ca_pool: &Vec<Certificate>) -> (r: Result<
        (Vec<Certificate>, Certificate),
        ChainResolutionError,
    >)
        ensures
            chain_result_view(r) == resolve_chain(certs_view(ca_pool@), source@),
    {
        chain_above(ca_pool, &source.issuer, ca_pool.len())
    }

    /// The intermediates of the chain of `source` within `ca_pool`.
    pub fn intermediate_certificates(&self, source: &Certificate, ca_pool: &Vec<Certificate>) -> (r: Result<
        Vec<Certificate>,
        ChainResolutionError,
    >)
        ensures
            match resolve_chain(certs_view(ca_pool@), source@) {
                Ok((inter, _)) => r matches Ok(v) && certs_view(v@) == inter,
                Err(e) => r == Err::<Vec<Certificate>, ChainResolutionError>(e),
            },
    {
        match self.certificate_chain(source, ca_pool) {
            Ok((inter, _)) => Ok(inter),
            Err(e) => Err(e),
        }
    }

    /// The certificate authority that ends the chain of `source` within
    /// `ca_pool`.
    pub fn ca_certificate(&self, source: &Certificate, ca_pool: &Vec<Certificate>) -> (r: Result<
        Certificate,
        ChainResolutionError,
    >)
        ensures
            match resolve_chain(certs_view(ca_pool@), source@) {
                Ok((_, ca)) => r matches Ok(c) && c@ == ca,
                Err(e) => r == Err::<Certificate, ChainResolutionError>(e),
            },
    {
        match self.certificate_chain(source, ca_pool) {
            Ok((_, ca)) => Ok(ca),
            Err(e) => Err(e),
        }
    }
}

/// The certificate-authority pool: the certificates marked as CA.
pub open spec fn ca_pool_of(certs: Seq<CertificateView>) -> Seq<CertificateView> {
    certs.filter(|c: CertificateView| c.is_ca)
}

/// The leaf candidates: the certificates not marked as CA.
pub open spec fn leaves_of(certs: Seq<CertificateView>) -> Seq<CertificateView> {
    certs.filter(|c: CertificateView| !c.is_ca)
}

/// Splits certificates into the CA pool and the leaf candidates, keeping
/// their order.
pub fn partition_certificates(certs: &Vec<Certificate>) -> (r: (Vec<Certificate>, Vec<Certificate>))
    ensures
        certs_view(r.0@) == ca_pool_of(certs_view(certs@)),
        certs_view(r.1@) == leaves_of(certs_view(certs@)),
{
    let ghost all = certs_view(certs@);
    let mut pool: Vec<Certificate> = Vec::new();
    let mut leaves: Vec<Certificate> = Vec::new();
    let mut i: usize = 0;
    assert(all.subrange(0, 0) =~= Seq::<CertificateView>::empty());
    proof {
        reveal(Seq::filter);
    }
    assert(certs_view(pool@) =~= ca_pool_of(all.subrange(0, 0)));
    assert(certs_view(leaves@) =~= leaves_of(all.subrange(0, 0)));
    while i < certs.len()
        invariant
            0 <= i <= certs@.len(),
            all == certs_view(certs@),
            certs_view(pool@) == ca_pool_of(all.subrange(0, i as int)),
            certs_view(leaves@) == leaves_of(all.subrange(0, i as int)),
        decreases certs@.len() - i,
    {
        let c = certs[i].copy();
        let ghost cv = c@;
        proof {
            assert(all.subrange(0, i + 1) =~= all.subrange(0, i as int).push(cv));
            all.subrange(0, i as int).lemma_filter_push(cv, |c: CertificateView| c.is_ca);
            all.subrange(0, i as int).lemma_filter_push(cv, |c: CertificateView| !c.is_ca);
        }
        let ghost p0 = pool@;
        let ghost l0 = leaves@;
        if c.is_ca {
            pool.push(c);
            assert(certs_view(pool@) =~= certs_view(p0).push(cv));
        } else {
            leaves.push(c);
            assert(certs_view(leaves@) =~= certs_view(l0).push(cv));
        }
        i = i + 1;
    }
    assert(all.subrange(0, i as int) =~= all);
    (pool, leaves)
}

pub open spec fn keys_view(keys: Seq<PrivateKey>) -> Seq<PrivateKeyView> {
    keys.map_values(|k: PrivateKey| k@)
}

/// The identity of a leaf, its key, and its resolved chain.
pub open spec fn identity_of(
    leaf: CertificateView,
    key: PrivateKeyView,
    chain: (Seq<CertificateView>, CertificateView),
) -> IdentityView {
    IdentityView {
        server_name: leaf.server_name,
        certificate: leaf,
        private_key: key,
        intermediate: chain.0,
        ca_certificate: chain.1,
    }
}

/// What a matched leaf and key come to: an identity, or the reason its
/// chain could not be resolved.
pub open spec fn pair_outcome(
    pool: Seq<CertificateView>,
    leaf: CertificateView,
    key: PrivateKeyView,
) -> Result<IdentityView, ChainResolutionError> {
    match resolve_chain(pool, leaf) {
        Ok(chain) => Ok(identity_of(leaf, key, chain)),
        Err(e) => Err(e),
    }
}

/// The outcomes of one leaf: one for each key that matches it, in key order.
pub open spec fn leaf_outcomes(
    pool: Seq<CertificateView>,
    leaf: CertificateView,
    keys: Seq<PrivateKeyView>,
) -> Seq<Result<IdentityView, ChainResolutionError>>
    decreases keys.len(),
{
    if keys.len() == 0 {
        Seq::empty()
    } else {
        let rest = leaf_outcomes(pool, leaf, keys.drop_last());
        if key_matches(leaf, keys.last()) {
            rest.push(pair_outcome(pool, leaf, keys.last()))
        } else {
            rest
        }
    }
}

/// The outcomes of all leaves, in leaf order.
pub open spec fn all_outcomes(
    pool: Seq<CertificateView>,
    leaves: Seq<CertificateView>,
    keys: Seq<PrivateKeyView>,
) -> Seq<Result<IdentityView, ChainResolutionError>>
    decreases leaves.len(),
{
    if leaves.len() == 0 {
        Seq::empty()
    } else {
        all_outcomes(pool, leaves.drop_last(), keys) + leaf_outcomes(pool, leaves.last(), keys)
    }
}

/// Resolution of a set of decoded certificates and keys: leaves paired with
/// their keys, each pair with its chain within the CA pool.
pub open spec fn resolution(certs: Seq<CertificateView>, keys: Seq<PrivateKeyView>) -> Seq<
    Result<IdentityView, ChainResolutionError>,
> {
    all_outcomes(ca_pool_of(certs), leaves_of(certs), keys)
}

pub open spec fn outcome_view(o: Result<Identity, ChainResolutionError>) -> Result<
    IdentityView,
    ChainResolutionError,
> {
    match o {
        Ok(id) => Ok(id@),
        Err(e) => Err(e),
    }
}

pub open spec fn outcomes_view(s: Seq<Result<Identity, ChainResolutionError>>) -> Seq<
    Result<IdentityView, ChainResolutionError>,
> {
    s.map_values(|o: Result<Identity, ChainResolutionError>| outcome_view(o))
}

fn resolve_pair(pool: &Vec<Certificate>, leaf: &Certificate, key: &PrivateKey) -> (r: Result<
    Identity,
    ChainResolutionError,
>)
    ensures
        outcome_view(r) == pair_outcome(certs_view(pool@), leaf@, key@),
{
    match chain_above(pool, &leaf.issuer, pool.len()) {
        Ok((intermediate, ca_certificate)) => {
            let id = Identity {
                server_name: leaf.server_name.clone(),
                certificate: leaf.copy(),
                private_key: key.copy(),
                intermediate,
                ca_certificate,
            };
            Ok(id)
        },
        Err(e) => Err(e),
    }
}

/// Pairs every leaf candidate with every private key whose public component
/// matches it, within one algorithm family, and resolves each pair's chain in
/// the CA pool. A leaf without a matching key yields nothing.
pub fn resolve_identities(certs: &Vec<Certificate>, keys: &Vec<PrivateKey>) -> (r: Vec<
    Result<Identity, ChainResolutionError>,
>)
    ensures
        outcomes_view(r@) == resolution(certs_view(certs@), keys_view(keys@)),
{
    let (pool, leaves) = partition_certificates(certs);
    let ghost pv = certs_view(pool@);
    let ghost lv = certs_view(leaves@);
    let ghost kv = keys_view(keys@);
    let mut out: Vec<Result<Identity, ChainResolutionError>> = Vec::new();
    let mut li: usize = 0;
    assert(outcomes_view(out@) =~= all_outcomes(pv, lv.subrange(0, 0), kv));
    while li < leaves.len()
        invariant
            0 <= li <= leaves@.len(),
            pv == certs_view(pool@),
            lv == certs_view(leaves@),
            kv == keys_view(keys@),
            outcomes_view(out@) == all_outcomes(pv, lv.subrange(0, li as int), kv),
        decreases leaves@.len() - li,
    {
        let leaf = &leaves[li];
        let ghost before = outcomes_view(out@);
        let mut kj: usize = 0;
        assert(before + leaf_outcomes(pv, leaf@, kv.subrange(0, 0)) =~= before);
        while kj < keys.len()
            invariant
                0 <= kj <= keys@.len(),
                pv == certs_view(pool@),
                kv == keys_view(keys@),
                outcomes_view(out@) == before + leaf_outcomes(pv, leaf@, kv.subrange(0, kj as int)),
            decreases keys@.len() - kj,
        {
            let key = &keys[kj];
            let ghost pre = kv.subrange(0, kj + 1);
            assert(pre.drop_last() =~= kv.subrange(0, kj as int));
            assert(pre.last() == key@);
            if check_for_certificate_private_key(leaf, key) {
                let o = resolve_pair(&pool, leaf, key);
                let ghost o0 = out@;
                out.push(o);
                assert(outcomes_view(out@) =~= outcomes_view(o0).push(outcome_view(o)));
                assert(outcomes_view(out@) =~= before + leaf_outcomes(pv, leaf@, pre));
            }
            kj = kj + 1;
        }
        assert(kv.subrange(0, kj as int) =~= kv);
        let ghost lpre = lv.subrange(0, li + 1);
        assert(lpre.drop_last() =~= lv.subrange(0, li as int));
        assert(lpre.last() == leaf@);
        li = li + 1;
    }
    assert(lv.subrange(0, li as int) =~= lv);
    out
}

/// An identity that resolution produced is sound: its key matches its leaf,
/// its leaf is a non-CA certificate of the input, its key is one of the input
/// keys, its server name is the leaf's, and its intermediates and authority
/// form a chain from the leaf's issuer to a self-issued CA certificate.
pub open spec fn identity_sound(
    certs: Seq<CertificateView>,
    keys: Seq<PrivateKeyView>,
    id: IdentityView,
) -> bool {
    &&& key_matches(id.certificate, id.private_key)
    &&& !id.certificate.is_ca
    &&& certs.contains(id.certificate)
    &&& keys.contains(id.private_key)
    &&& id.server_name == id.certificate.server_name
    &&& chain_links(ca_pool_of(certs), id.certificate.issuer, id.intermediate, id.ca_certificate)
}

proof fn lemma_leaf_outcomes_sound(
    certs: Seq<CertificateView>,
    leaf: CertificateView,
    keys: Seq<PrivateKeyView>,
)
    requires
        certs.contains(leaf),
        !leaf.is_ca,
    ensures
        forall|i: int|
            0 <= i < leaf_outcomes(ca_pool_of(certs), leaf, keys).len() ==> (#[trigger] leaf_outcomes(
                ca_pool_of(certs),
                leaf,
                keys,
            )[i] matches Ok(id) ==> identity_sound(certs, keys, id)),
    decreases keys.len(),
{
    if keys.len() > 0 {
        let pool = ca_pool_of(certs);
        let rest = keys.drop_last();
        lemma_leaf_outcomes_sound(certs, leaf, rest);
        lemma_chain_from_links(pool, leaf.issuer, pool.len());
        let out = leaf_outcomes(pool, leaf, keys);
        assert forall|i: int| 0 <= i < out.len() implies (#[trigger] out[i] matches Ok(id)
            ==> identity_sound(certs, keys, id)) by {
            let prev = leaf_outcomes(pool, leaf, rest);
            if i < prev.len() {
                assert(out[i] == prev[i]);
                if let Ok(id) = out[i] {
                    let k = choose|k: int| 0 <= k < rest.len() && rest[k] == id.private_key;
                    assert(keys[k] == id.private_key);
                }
            } else {
                assert(keys[keys.len() - 1] == keys.last());
            }
        }
    }
}

proof fn lemma_all_outcomes_sound(
    certs: Seq<CertificateView>,
    leaves: Seq<CertificateView>,
    keys: Seq<PrivateKeyView>,
)
    requires
        forall|i: int| 0 <= i < leaves.len() ==> certs.contains(#[trigger] leaves[i]) && !leaves[i].is_ca,
    ensures
        forall|i: int|
            0 <= i < all_outcomes(ca_pool_of(certs), leaves, keys).len() ==> (#[trigger] all_outcomes(
                ca_pool_of(certs),
                leaves,
                keys,
            )[i] matches Ok(id) ==> identity_sound(certs, keys, id)),
    decreases leaves.len(),
{
    if leaves.len() > 0 {
        let pool = ca_pool_of(certs);
        let rest = leaves.drop_last();
        assert forall|i: int| 0 <= i < rest.len() implies certs.contains(#[trigger] rest[i])
            && !rest[i].is_ca by {
            assert(rest[i] == leaves[i]);
        }
        lemma_all_outcomes_sound(certs, rest, keys);
        assert(leaves.last() == leaves[leaves.len() - 1]);
        lemma_leaf_outcomes_sound(certs, leaves.last(), keys);
        let a = all_outcomes(pool, rest, keys);
        let b = leaf_outcomes(pool, leaves.last(), keys);
        assert forall|i: int| 0 <= i < (a + b).len() implies (#[trigger] (a + b)[i] matches Ok(id)
            ==> identity_sound(certs, keys, id)) by {
            if i < a.len() {
                assert((a + b)[i] == a[i]);
            } else {
                assert((a + b)[i] == b[i - a.len()]);
            }
        }
    }
}

/// Every identity that resolution produces is sound (see `identity_sound`):
/// the key/certificate invariant of an identity holds by construction.
pub proof fn lemma_resolution_sound(certs: Seq<CertificateView>, keys: Seq<PrivateKeyView>, i: int)
    requires
        0 <= i < resolution(certs, keys).len(),
        resolution(certs, keys)[i] is Ok,
    ensures
        identity_sound(certs, keys, resolution(certs, keys)[i]->Ok_0),
{
    let leaves = leaves_of(certs);
    assert forall|k: int| 0 <= k < leaves.len() implies certs.contains(#[trigger] leaves[k])
        && !leaves[k].is_ca by {
        certs.lemma_filter_pred(|c: CertificateView| !c.is_ca, k);
        assert(leaves.contains(leaves[k]));
        certs.lemma_filter_contains_rev(|c: CertificateView| !c.is_ca, leaves[k]);
    }
    lemma_all_outcomes_sound(certs, leaves, keys);
}

proof fn lemma_resolution_of_ordered(
    a: CertificateView,
    b: CertificateView,
    c: CertificateView,
    leaf: CertificateView,
    inter: CertificateView,
    root: CertificateView,
    key: PrivateKeyView,
)
    requires
        (a == leaf && b == inter && c == root) || (a == leaf && b == root && c == inter) || (a
            == inter && b == leaf && c == root) || (a == inter && b == root && c == leaf) || (a
            == root && b == leaf && c == inter) || (a == root && b == inter && c == leaf),
        !leaf.is_ca,
        inter.is_ca,
        root.is_ca,
        leaf.issuer == inter.subject,
        inter.issuer == root.subject,
        root.subject == root.issuer,
        inter.subject != inter.issuer,
        inter.subject != root.subject,
        key_matches(leaf, key),
    ensures
        resolution(seq![a, b, c], seq![key]) == seq![
            Ok::<IdentityView, ChainResolutionError>(identity_of(leaf, key, (seq![inter], root))),
        ],
{
    let certs = seq![a, b, c];
    reveal_with_fuel(Seq::filter, 4);
    assert(certs.drop_last() =~= seq![a, b]);
    assert(seq![a, b].drop_last() =~= seq![a]);
    assert(seq![a].drop_last() =~= Seq::<CertificateView>::empty());
    let pool = ca_pool_of(certs);
    let leaves = leaves_of(certs);
    assert(leaves =~= seq![leaf]);
    assert(pool =~= seq![inter, root] || pool =~= seq![root, inter]);
    lemma_linear_chain(leaf, inter, root);
    assert(resolve_chain(pool, leaf) == Ok::<
        (Seq<CertificateView>, CertificateView),
        ChainResolutionError,
    >((seq![inter], root)));
    let keys = seq![key];
    assert(keys.drop_last() =~= Seq::<PrivateKeyView>::empty());
    assert(leaves.drop_last() =~= Seq::<CertificateView>::empty());
    let none = Seq::<Result<IdentityView, ChainResolutionError>>::empty();
    let one = Ok::<IdentityView, ChainResolutionError>(identity_of(leaf, key, (seq![inter], root)));
    assert(keys.last() == key);
    assert(pair_outcome(pool, leaf, key) == one);
    assert(leaf_outcomes(pool, leaf, Seq::<PrivateKeyView>::empty()) == none);
    assert(leaf_outcomes(pool, leaf, keys) == none.push(one));
    assert(leaves.last() == leaf);
    assert(all_outcomes(pool, Seq::<CertificateView>::empty(), keys) == none);
    assert(all_outcomes(pool, leaves, keys) == none + none.push(one));
    assert(none + none.push(one) =~= seq![one]);
}

/// A set of three certificates, in any order, that are a leaf, the
/// intermediate that issued it and the self-issued root that issued the
/// intermediate, together with the leaf's key, resolves to exactly one
/// identity: that leaf and key, the intermediate as the only intermediate,
/// and the root as the authority.
pub proof fn lemma_three_certificate_resolution(
    certs: Seq<CertificateView>,
    leaf: CertificateView,
    inter: CertificateView,
    root: CertificateView,
    key: PrivateKeyView,
)
    requires
        certs.len() == 3,
        certs.contains(leaf),
        certs.contains(inter),
        certs.contains(root),
        !leaf.is_ca,
        inter.is_ca,
        root.is_ca,
        leaf.issuer == inter.subject,
        inter.issuer == root.subject,
        root.subject == root.issuer,
        inter.subject != inter.issuer,
        inter.subject != root.subject,
        key_matches(leaf, key),
    ensures
        resolution(certs, seq![key]) == seq![
            Ok::<IdentityView, ChainResolutionError>(identity_of(leaf, key, (seq![inter], root))),
        ],
{
    let x = choose|x: int| 0 <= x < certs.len() && certs[x] == leaf;
    let y = choose|y: int| 0 <= y < certs.len() && certs[y] == inter;
    let z = choose|z: int| 0 <= z < certs.len() && certs[z] == root;
    assert(leaf != inter && leaf != root);
    assert(inter != root);
    assert(x != y && x != z && y != z);
    assert(certs =~= seq![certs[0], certs[1], certs[2]]);
    lemma_resolution_of_ordered(certs[0], certs[1], certs[2], leaf, inter, root, key);
}

/// Why an object set could not be resolved into identities.
#[derive(Debug)]
pub enum IdentityParserError {
    /// A certificate does not decode.
    MalformedCertificate,
    /// A private key does not decode.
    MalformedKey,
    /// A PKCS#8 key names an algorithm other than RSA or elliptic curves; the
    /// identifier's DER content bytes are kept.
    UnsupportedCertificateEncryptionScheme(Vec<u8>),
}

/// Every block decodes as a certificate.
pub open spec fn certs_decodable(ders: Seq<Seq<u8>>) -> bool {
    forall|i: int| 0 <= i < ders.len() ==> (#[trigger] decoded_certificate(ders[i])) is Some
}

/// The decoded certificates, block for block.
pub open spec fn decoded_certs(ders: Seq<Seq<u8>>) -> Seq<CertificateView> {
    ders.map_values(|d: Seq<u8>| decoded_certificate(d)->Some_0)
}

/// Every block decodes as a key of the given encoding.
pub open spec fn keys_decodable(encoding: KeyEncoding, ders: Seq<Seq<u8>>) -> bool {
    forall|i: int| 0 <= i < ders.len() ==> (#[trigger] decoded_key(encoding, ders[i])) is Ok
}

/// The decoded keys, block for block.
pub open spec fn decoded_keys(encoding: KeyEncoding, ders: Seq<Seq<u8>>) -> Seq<PrivateKeyView> {
    ders.map_values(|d: Seq<u8>| decoded_key(encoding, d)->Ok_0)
}

/// Every certificate and key of the set decodes.
pub open spec fn pki_data_decodable(data: PkiDataView) -> bool {
    &&& certs_decodable(data.x509)
    &&& keys_decodable(KeyEncoding::Pkcs1, data.pkc1)
    &&& keys_decodable(KeyEncoding::Sec1, data.sec1)
    &&& keys_decodable(KeyEncoding::Pkcs8, data.pkcs8)
}

/// The keys of a set: PKCS#1, then SEC1, then PKCS#8.
pub open spec fn all_keys(data: PkiDataView) -> Seq<PrivateKeyView> {
    decoded_keys(KeyEncoding::Pkcs1, data.pkc1) + decoded_keys(KeyEncoding::Sec1, data.sec1)
        + decoded_keys(KeyEncoding::Pkcs8, data.pkcs8)
}

/// The outcomes of resolving a decodable set.
pub open spec fn data_resolution(data: PkiDataView) -> Seq<
    Result<IdentityView, ChainResolutionError>,
> {
    resolution(decoded_certs(data.x509), all_keys(data))
}

/// `s` after adding each resolved identity of `outcomes` in turn.
pub open spec fn push_outcomes(
    s: Seq<IdentityView>,
    outcomes: Seq<Result<IdentityView, ChainResolutionError>>,
) -> Seq<IdentityView>
    decreases outcomes.len(),
{
    if outcomes.len() == 0 {
        s
    } else {
        let before = push_outcomes(s, outcomes.drop_last());
        match outcomes.last() {
            Ok(id) => pushed(before, id),
            Err(_) => before,
        }
    }
}

/// The chain failures among `outcomes`, in order.
pub open spec fn failures(outcomes: Seq<Result<IdentityView, ChainResolutionError>>) -> Seq<
    ChainResolutionError,
>
    decreases outcomes.len(),
{
    if outcomes.len() == 0 {
        Seq::empty()
    } else {
        let before = failures(outcomes.drop_last());
        match outcomes.last() {
            Ok(_) => before,
            Err(e) => before.push(e),
        }
    }
}

/// Decodes every certificate block; `None` when one does not decode.
pub fn decode_certificates(ders: &Vec<Vec<u8>>) -> (r: Option<Vec<Certificate>>)
    ensures
        match r {
            Some(v) => certs_decodable(blocks_view(ders@)) && certs_view(v@) == decoded_certs(
                blocks_view(ders@),
            ),
            None => !certs_decodable(blocks_view(ders@)),
        },
{
    let ghost dv = blocks_view(ders@);
    let mut out: Vec<Certificate> = Vec::new();
    let mut i: usize = 0;
    while i < ders.len()
        invariant
            0 <= i <= ders@.len(),
            dv == blocks_view(ders@),
            forall|j: int| 0 <= j < i ==> (#[trigger] decoded_certificate(dv[j])) is Some,
            certs_view(out@) == decoded_certs(dv.subrange(0, i as int)),
        decreases ders@.len() - i,
    {
        assert(dv[i as int] == ders@[i as int]@);
        match decode_certificate(&ders[i]) {
            Some(c) => {
                let ghost o = out@;
                let ghost cv = c@;
                out.push(c);
                assert(certs_view(out@) =~= certs_view(o).push(cv));
                assert(decoded_certs(dv.subrange(0, i + 1)) =~= decoded_certs(
                    dv.subrange(0, i as int),
                ).push(cv));
            },
            None => return None,
        }
        i = i + 1;
    }
    assert(dv.subrange(0, i as int) =~= dv);
    Some(out)
}

pub open spec fn key_error_matches(e: IdentityParserError, d: Option<Seq<u8>>) -> bool {
    match d {
        None => e is MalformedKey,
        Some(oid) => e matches IdentityParserError::UnsupportedCertificateEncryptionScheme(o)
            && o@ == oid,
    }
}

/// Decodes every key block of one encoding, appending to `out`; stops with
/// the error of the first block that does not decode.
fn decode_keys_into(encoding: KeyEncoding, ders: &Vec<Vec<u8>>, out: &mut Vec<PrivateKey>) -> (r:
    Result<(), IdentityParserError>)
    ensures
        r is Ok <==> keys_decodable(encoding, blocks_view(ders@)),
        r is Ok ==> keys_view(final(out)@) == keys_view(old(out)@) + decoded_keys(
            encoding,
            blocks_view(ders@),
        ),
        r matches Err(e) ==> exists|i: int|
            0 <= i < ders@.len() && (#[trigger] decoded_key(encoding, ders@[i]@)) is Err
                && key_error_matches(e, decoded_key(encoding, ders@[i]@)->Err_0),
{
    let ghost dv = blocks_view(ders@);
    let ghost start = keys_view(out@);
    let mut i: usize = 0;
    while i < ders.len()
        invariant
            0 <= i <= ders@.len(),
            dv == blocks_view(ders@),
            forall|j: int| 0 <= j < i ==> (#[trigger] decoded_key(encoding, dv[j])) is Ok,
            keys_view(out@) == start + decoded_keys(encoding, dv.subrange(0, i as int)),
        decreases ders@.len() - i,
    {
        assert(dv[i as int] == ders@[i as int]@);
        match decode_private_key(encoding, &ders[i]) {
            Ok(k) => {
                let ghost o = out@;
                let ghost kv = k@;
                out.push(k);
                assert(keys_view(out@) =~= keys_view(o).push(kv));
                assert(decoded_keys(encoding, dv.subrange(0, i + 1)) =~= decoded_keys(
                    encoding,
                    dv.subrange(0, i as int),
                ).push(kv));
                assert(keys_view(out@) =~= start + decoded_keys(encoding, dv.subrange(0, i + 1)));
            },
            Err(KeyDecodeError::MalformedKey) => {
                assert(!keys_decodable(encoding, dv));
                return Err(IdentityParserError::MalformedKey);
            },
            Err(KeyDecodeError::InvalidOid(o)) => {
                assert(!keys_decodable(encoding, dv));
                return Err(IdentityParserError::UnsupportedCertificateEncryptionScheme(o));
            },
        }
        i = i + 1;
    }
    assert(dv.subrange(0, i as int) =~= dv);
    Ok(())
}

impl PkiParser {
    /// Resolves an object set into identities and adds them to `identities`,
    /// superseding identities of the same server name. Every certificate and
    /// key must decode, else nothing is added. A leaf whose chain cannot be
    /// resolved is dropped; the reasons are returned, in order.
    pub fn parse_identity(&self, pki_data_source: &ParsedPkiData, identities: &mut Identities) -> (r:
        Result<Vec<ChainResolutionError>, IdentityParserError>)
        requires
            old(identities).wf(),
        ensures
            final(identities).wf(),
            r is Ok <==> pki_data_decodable(pki_data_source@),
            r matches Ok(errs) ==> final(identities)@ == push_outcomes(
                old(identities)@,
                data_resolution(pki_data_source@),
            ) && errs@ == failures(data_resolution(pki_data_source@)),
            r is Err ==> final(identities)@ == old(identities)@,
    {
        let certs = match decode_certificates(&pki_data_source.x509) {
            Some(c) => c,
            None => return Err(IdentityParserError::MalformedCertificate),
        };
        let mut keys: Vec<PrivateKey> = Vec::new();
        assert(keys_view(keys@) =~= Seq::<PrivateKeyView>::empty());
        decode_keys_into(KeyEncoding::Pkcs1, &pki_data_source.pkc1, &mut keys)?;
        decode_keys_into(KeyEncoding::Sec1, &pki_data_source.sec1, &mut keys)?;
        decode_keys_into(KeyEncoding::Pkcs8, &pki_data_source.pkcs8, &mut keys)?;
        assert(keys_view(keys@) =~= all_keys(pki_data_source@));
        let mut outcomes = resolve_identities(&certs, &keys);
        let ghost all = outcomes_view(outcomes@);
        let ghost start = identities@;
        let ghost n = all.len();
        assert(n == outcomes.len());
        let mut errs: Vec<ChainResolutionError> = Vec::new();
        let mut k: usize = 0;
        assert(all.subrange(0, 0) =~= Seq::<Result<IdentityView, ChainResolutionError>>::empty());
        assert(errs@ =~= failures(all.subrange(0, 0)));
        while outcomes.len() > 0
            invariant
                identities.wf(),
                n == all.len(),
                n <= usize::MAX,
                k + outcomes@.len() == n,
                outcomes_view(outcomes@) == all.subrange(k as int, n as int),
                identities@ == push_outcomes(start, all.subrange(0, k as int)),
                errs@ == failures(all.subrange(0, k as int)),
            decreases outcomes@.len(),
        {
            let ghost before = outcomes@;
            let o = outcomes.remove(0);
            proof {
                assert(outcomes_view(before)[0] == all[k as int]);
                assert forall|j: int| 0 <= j < outcomes@.len() implies #[trigger] outcomes_view(
                    outcomes@,
                )[j] == all.subrange(k + 1, n as int)[j] by {
                    assert(outcomes@[j] == before[j + 1]);
                    assert(outcomes_view(before)[j + 1] == all.subrange(k as int, n as int)[j + 1]);
                }
                assert(outcomes_view(outcomes@) =~= all.subrange(k + 1, n as int));
                let pre = all.subrange(0, k + 1);
                assert(pre.drop_last() =~= all.subrange(0, k as int));
                assert(pre.last() == outcome_view(o));
            }
            match o {
                Ok(id) => identities.push(id),
                Err(e) => errs.push(e),
            }
            k = k + 1;
        }
        assert(all.subrange(0, n as int) =~= all);
        Ok(errs)
    }
}

/// Why an X.509-SVID could not become an identity.
#[derive(PartialEq, Eq, Structural, Clone, Copy, Debug)]
pub enum SvidParsingError {
    /// The SVID carries no certificate.
    EmptyInput,
    /// A certificate of the SVID does not decode.
    MalformedCertificate,
    /// The SVID's PKCS#8 private key does not decode.
    MalformedKey,
}

/// The identity of an SVID whose chain decoded to `chain` (leaf first) and
/// whose key decoded to `key`: the leaf, the certificates between, and the
/// last certificate as the authority (the leaf itself for a chain of one).
pub open spec fn svid_identity(chain: Seq<CertificateView>, key: PrivateKeyView) -> IdentityView {
    IdentityView {
        server_name: chain[0].server_name,
        certificate: chain[0],
        private_key: key,
        intermediate: if chain.len() > 1 {
            chain.subrange(1, chain.len() - 1)
        } else {
            Seq::empty()
        },
        ca_certificate: chain.last(),
    }
}

impl PkiParser {
    /// Adds the identity of an X.509-SVID: its DER certificate chain, leaf
    /// first, and its PKCS#8 private key. SVIDs arrive paired, so no key
    /// matching or chain search is done.
    pub fn parse_x509_svid(
        &mut self,
        source: &mut Identities,
        cert_chain: &Vec<Vec<u8>>,
        private_key: &Vec<u8>,
    ) -> (r: Result<(), SvidParsingError>)
        requires
            old(source).wf(),
        ensures
            final(source).wf(),
            cert_chain@.len() == 0 ==> r == Err::<(), SvidParsingError>(SvidParsingError::EmptyInput),
            cert_chain@.len() > 0 && !certs_decodable(blocks_view(cert_chain@)) ==> r == Err::<
                (),
                SvidParsingError,
            >(SvidParsingError::MalformedCertificate),
            cert_chain@.len() > 0 && certs_decodable(blocks_view(cert_chain@)) && decoded_key(
                KeyEncoding::Pkcs8,
                private_key@,
            ) is Err ==> r == Err::<(), SvidParsingError>(SvidParsingError::MalformedKey),
            cert_chain@.len() > 0 && certs_decodable(blocks_view(cert_chain@)) && decoded_key(
                KeyEncoding::Pkcs8,
                private_key@,
            ) is Ok ==> r is Ok,
            r is Ok ==> cert_chain@.len() > 0 && certs_decodable(blocks_view(cert_chain@))
                && decoded_key(KeyEncoding::Pkcs8, private_key@) is Ok && final(source)@ == pushed(
                old(source)@,
                svid_identity(
                    decoded_certs(blocks_view(cert_chain@)),
                    decoded_key(KeyEncoding::Pkcs8, private_key@)->Ok_0,
                ),
            ),
            r is Err ==> final(source)@ == old(source)@,
    {
        if cert_chain.len() == 0 {
            return Err(SvidParsingError::EmptyInput);
        }
        let mut certs = match decode_certificates(cert_chain) {
            Some(c) => c,
            None => return Err(SvidParsingError::MalformedCertificate),
        };
        let key = match decode_private_key(KeyEncoding::Pkcs8, private_key) {
            Ok(k) => k,
            Err(_) => return Err(SvidParsingError::MalformedKey),
        };
        let ghost cv = certs_view(certs@);
        let n: usize = certs.len();
        assert(n == cert_chain@.len());
        let leaf = certs.remove(0);
        let ca_certificate = if certs.len() > 0 {
            certs.pop().unwrap()
        } else {
            leaf.copy()
        };
        assert(certs_view(certs@) =~= if n > 1 {
            cv.subrange(1, n - 1)
        } else {
            Seq::<CertificateView>::empty()
        });
        let identity = Identity {
            server_name: leaf.server_name.clone(),
            certificate: leaf,
            private_key: key,
            intermediate: certs,
            ca_certificate,
        };
        assert(identity@ == svid_identity(cv, decoded_key(KeyEncoding::Pkcs8, private_key@)->Ok_0));
        source.push(identity);
        Ok(())
    }
}

} // verus!
