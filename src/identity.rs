use vstd::prelude::*;
use crate::certificate::{certs_view, copy_certificates, Certificate, CertificateView};
use crate::private_key::{PrivateKey, PrivateKeyView};

verus! {

/// What lets this process act as one server: a leaf certificate, its private
/// key, and the chain up to a certificate authority.
#[derive(Debug)]
pub struct Identity {
    /// The lookup key, derived from the leaf certificate's subject.
    pub server_name: String,
    /// The leaf certificate.
    pub certificate: Certificate,
    /// The private key of the leaf certificate.
    pub private_key: PrivateKey,
    /// The certificates between leaf and authority, in leaf-to-root order.
    pub intermediate: Vec<Certificate>,
    /// The certificate authority that ends the chain.
    pub ca_certificate: Certificate,
}

pub struct IdentityView {
    pub server_name: Seq<char>,
    pub certificate: CertificateView,
    pub private_key: PrivateKeyView,
    pub intermediate: Seq<CertificateView>,
    pub ca_certificate: CertificateView,
}

impl View for Identity {
    type V = IdentityView;

    open spec fn view(&self) -> IdentityView {
        IdentityView {
            server_name: self.server_name@,
            certificate: self.certificate@,
            private_key: self.private_key@,
            intermediate: certs_view(self.intermediate@),
            ca_certificate: self.ca_certificate@,
        }
    }
}

impl IdentityView {
    /// Leaf, intermediates, then the authority.
    pub open spec fn chain(self) -> Seq<CertificateView> {
        seq![self.certificate] + self.intermediate + seq![self.ca_certificate]
    }
}

impl Identity {
    /// The leaf certificate, the intermediates and the authority, in that
    /// order.
    pub fn get_certificate_chain(&self) -> (r: Vec<Certificate>)
        ensures
            certs_view(r@) == self@.chain(),
    {
        let mut chain: Vec<Certificate> = Vec::new();
        chain.push(self.certificate.copy());
        let mut rest = copy_certificates(&self.intermediate);
        let ghost first = chain@;
        chain.append(&mut rest);
        let ghost middle = chain@;
        chain.push(self.ca_certificate.copy());
        assert(certs_view(middle) =~= certs_view(first) + certs_view(self.intermediate@));
        assert(certs_view(chain@) =~= certs_view(middle).push(self.ca_certificate@));
        assert(certs_view(chain@) =~= self@.chain());
        chain
    }
}

pub open spec fn identities_view(s: Seq<Identity>) -> Seq<IdentityView> {
    s.map_values(|i: Identity| i@)
}

/// No two identities share a server name.
pub open spec fn names_unique(s: Seq<IdentityView>) -> bool {
    forall|i: int, j: int|
        0 <= i < s.len() && 0 <= j < s.len() && i != j ==> #[trigger] s[i].server_name
            != #[trigger] s[j].server_name
}

/// Some identity of `s` has the server name `name`.
pub open spec fn has_name(s: Seq<IdentityView>, name: Seq<char>) -> bool {
    exists|i: int| 0 <= i < s.len() && #[trigger] s[i].server_name == name
}

/// `s` after adding `id`: an identity of the same server name is replaced in
/// place, wholesale; otherwise `id` goes to the end.
pub open spec fn pushed(s: Seq<IdentityView>, id: IdentityView) -> Seq<IdentityView> {
    if has_name(s, id.server_name) {
        let i = choose|i: int| 0 <= i < s.len() && #[trigger] s[i].server_name == id.server_name;
        s.update(i, id)
    } else {
        s.push(id)
    }
}

/// The set built from the empty one by adding each identity of `s` in turn.
pub open spec fn pushed_all(s: Seq<IdentityView>) -> Seq<IdentityView>
    decreases s.len(),
{
    if s.len() == 0 {
        Seq::empty()
    } else {
        pushed(pushed_all(s.drop_last()), s.last())
    }
}

/// The identities of a process, one per server name, in insertion order.
/// Lookups go by position; nothing else refers into the sequence.
#[derive(Debug)]
pub struct Identities {
    pub inner: Vec<Identity>,
}

impl View for Identities {
    type V = Seq<IdentityView>;

    open spec fn view(&self) -> Seq<IdentityView> {
        identities_view(self.inner@)
    }
}

impl Identities {
    /// Server names are unique.
    pub open spec fn wf(&self) -> bool {
        names_unique(self@)
    }

    /// An empty set.
    pub fn empty() -> (r: Identities)
        ensures
            r.wf(),
            r@ == Seq::<IdentityView>::empty(),
    {
        let r = Identities { inner: Vec::new() };
        assert(r@ =~= Seq::<IdentityView>::empty());
        r
    }

    /// The set holding the given identities; of two with one server name the
    /// later one stays, at the earlier one's position.
    pub fn new(identities: Vec<Identity>) -> (r: Identities)
        ensures
            r.wf(),
            r@ == pushed_all(identities_view(identities@)),
    {
        let mut r = Identities::empty();
        let mut rest = identities;
        let ghost all = identities_view(rest@);
        let ghost n = all.len();
        assert(n == rest.len());
        let mut k: usize = 0;
        while rest.len() > 0
            invariant
                r.wf(),
                n == all.len(),
                n <= usize::MAX,
                k + rest@.len() == n,
                identities_view(rest@) == all.subrange(k as int, n as int),
                r@ == pushed_all(all.subrange(0, k as int)),
            decreases rest@.len(),
        {
            let ghost before = rest@;
            let id = rest.remove(0);
            proof {
                assert(identities_view(before)[0] == all[k as int]);
                assert forall|j: int| 0 <= j < rest@.len() implies #[trigger] identities_view(
                    rest@,
                )[j] == all.subrange(k + 1, n as int)[j] by {
                    assert(rest@[j] == before[j + 1]);
                    assert(identities_view(before)[j + 1] == all.subrange(k as int, n as int)[j + 1]);
                }
                assert(identities_view(rest@) =~= all.subrange(k + 1, n as int));
                let pre = all.subrange(0, k + 1);
                assert(pre.drop_last() =~= all.subrange(0, k as int));
                assert(pre.last() == id@);
            }
            r.push(id);
            k = k + 1;
        }
        assert(all.subrange(0, n as int) =~= all);
        r
    }

    /// Number of identities.
    pub fn len(&self) -> (r: usize)
        ensures
            r == self@.len(),
    {
        self.inner.len()
    }

    /// Position of the identity named `name`, if any.
    pub fn position(&self, name: &String) -> (r: Option<usize>)
        ensures
            match r {
                Some(i) => i < self@.len() && self@[i as int].server_name == name@,
                None => !has_name(self@, name@),
            },
    {
        let mut i: usize = 0;
        while i < self.inner.len()
            invariant
                0 <= i <= self@.len(),
                self@.len() == self.inner@.len(),
                forall|j: int| 0 <= j < i ==> #[trigger] self@[j].server_name != name@,
            decreases self@.len() - i,
        {
            if self.inner[i].server_name == *name {
                return Some(i);
            }
            i = i + 1;
        }
        None
    }

    /// The identity named `name`, if any.
    pub fn get_identity(&self, name: &String) -> (r: Option<&Identity>)
        requires
            self.wf(),
        ensures
            match r {
                Some(id) => id@.server_name == name@ && self@.contains(id@),
                None => !has_name(self@, name@),
            },
    {
        match self.position(name) {
            Some(i) => Some(&self.inner[i]),
            None => None,
        }
    }

    /// Adds `identity`, superseding an identity of the same server name.
    pub fn push(&mut self, identity: Identity)
        requires
            old(self).wf(),
        ensures
            final(self).wf(),
            final(self)@ == pushed(old(self)@, identity@),
    {
        let ghost s = self@;
        let ghost id = identity@;
        match self.position(&identity.server_name) {
            Some(i) => {
                proof {
                    let c = choose|c: int|
                        0 <= c < s.len() && #[trigger] s[c].server_name == id.server_name;
                    assert(c == i as int);
                }
                self.inner.set(i, identity);
                assert(self@ =~= s.update(i as int, id));
            },
            None => {
                self.inner.push(identity);
                assert(self@ =~= s.push(id));
            },
        }
    }

    /// Removes the identity at `index`.
    pub fn remove(&mut self, index: usize)
        requires
            old(self).wf(),
            index < old(self)@.len(),
        ensures
            final(self).wf(),
            final(self)@ == old(self)@.remove(index as int),
    {
        let ghost s = self@;
        self.inner.remove(index);
        assert(self@ =~= s.remove(index as int));
    }
}

} // verus!
