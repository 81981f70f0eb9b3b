//! Identity records and verifiable credentials.
//!
//! [`DigitalIdentityContract`] keeps two tables: identity records keyed by an
//! opaque identifier, each exclusively owned by one principal, and credential
//! records keyed by their own identifier, each issued by a principal against
//! exactly one identity. Ownership may move by transfer; a credential, once
//! revoked, stays revoked forever. The tables only ever grow: nothing is
//! deleted, and an identity identifier is never re-registered.
//!
//! Every mutating operation is described by a spec-level transition
//! ([`register_identity_step`] and friends): the contract of the executable
//! method says that the new state and the returned outcome are exactly those
//! of the transition, for the authorization proof in hand. The laws at the
//! bottom of the module are proved over those transitions.

use std::collections::HashMap;

use vstd::prelude::*;

use crate::auth::Auth;
use crate::duplicate_values;
use crate::Error;

verus! {

broadcast use vstd::std_specs::hash::group_hash_axioms;

/// An identity record: the owning principal, two short opaque tags, and the
/// identifiers of the credentials issued against it, in issuance order.
pub struct Identity {
    pub owner: u64,
    pub identity_type: String,
    pub metadata: String,
    pub credentials: Vec<u64>,
}

/// The mathematical value of an identity record.
#[verifier::ext_equal]
pub ghost struct IdentityView {
    pub owner: u64,
    pub identity_type: Seq<char>,
    pub metadata: Seq<char>,
    pub credentials: Seq<u64>,
}

impl View for Identity {
    type V = IdentityView;

    open spec fn view(&self) -> IdentityView {
        IdentityView {
            owner: self.owner,
            identity_type: self.identity_type@,
            metadata: self.metadata@,
            credentials: self.credentials@,
        }
    }
}

impl Identity {
    /// An owned copy with the same mathematical value.
    pub fn duplicate(&self) -> (out: Identity)
        ensures
            out@ == self@,
    {
        Identity {
            owner: self.owner,
            identity_type: self.identity_type.clone(),
            metadata: self.metadata.clone(),
            credentials: duplicate_values(&self.credentials),
        }
    }
}

/// A credential record: the issuing principal, a short tag, the issuer-supplied
/// validity window, and the revocation flag. The library stores the window and
/// never compares it against any clock; time-based validity judgments belong
/// to the caller.
pub struct Credential {
    pub issuer: u64,
    pub credential_type: String,
    pub issue_date: i64,
    pub expiry_date: i64,
    pub revoked: bool,
}

/// The mathematical value of a credential record.
#[verifier::ext_equal]
pub ghost struct CredentialView {
    pub issuer: u64,
    pub credential_type: Seq<char>,
    pub issue_date: i64,
    pub expiry_date: i64,
    pub revoked: bool,
}

impl View for Credential {
    type V = CredentialView;

    open spec fn view(&self) -> CredentialView {
        CredentialView {
            issuer: self.issuer,
            credential_type: self.credential_type@,
            issue_date: self.issue_date,
            expiry_date: self.expiry_date,
            revoked: self.revoked,
        }
    }
}

impl Credential {
    /// An owned copy with the same mathematical value.
    pub fn duplicate(&self) -> (out: Credential)
        ensures
            out@ == self@,
    {
        Credential {
            issuer: self.issuer,
            credential_type: self.credential_type.clone(),
            issue_date: self.issue_date,
            expiry_date: self.expiry_date,
            revoked: self.revoked,
        }
    }
}

/// The mathematical value of the whole service: both tables as maps.
#[verifier::ext_equal]
pub ghost struct ServiceView {
    pub identities: Map<u64, IdentityView>,
    pub credentials: Map<u64, CredentialView>,
}

/// The identity and credential service.
pub struct DigitalIdentityContract {
    identities: HashMap<u64, Identity>,
    credentials: HashMap<u64, Credential>,
}

impl View for DigitalIdentityContract {
    type V = ServiceView;

    closed spec fn view(&self) -> ServiceView {
        ServiceView {
            identities: self.identities@.map_values(|record: Identity| record@),
            credentials: self.credentials@.map_values(|record: Credential| record@),
        }
    }
}

/// Transition of [`DigitalIdentityContract::register_identity`]: the state
/// after the call together with its outcome. `owner_ok` is the verdict of the
/// authorization collaborator on `owner`.
pub open spec fn register_identity_step(
    s: ServiceView,
    identity_id: u64,
    owner: u64,
    identity_type: Seq<char>,
    metadata: Seq<char>,
    owner_ok: bool,
) -> (ServiceView, Result<(), Error>) {
    if !owner_ok {
        (s, Err(Error::NotAuthorized))
    } else if s.identities.contains_key(identity_id) {
        (s, Err(Error::IdentityExists))
    } else {
        let record = IdentityView {
            owner,
            identity_type,
            metadata,
            credentials: Seq::empty(),
        };
        (
            ServiceView {
                identities: s.identities.insert(identity_id, record),
                credentials: s.credentials,
            },
            Ok(()),
        )
    }
}

/// Transition of [`DigitalIdentityContract::transfer_identity`]. Both the
/// invoker and the prospective new owner must pass the capability check;
/// `invoker_ok` and `new_owner_ok` are the two verdicts.
pub open spec fn transfer_identity_step(
    s: ServiceView,
    invoker: u64,
    identity_id: u64,
    new_owner: u64,
    invoker_ok: bool,
    new_owner_ok: bool,
) -> (ServiceView, Result<(), Error>) {
    if !invoker_ok || !new_owner_ok {
        (s, Err(Error::NotAuthorized))
    } else if !s.identities.contains_key(identity_id) {
        (s, Err(Error::NotFound))
    } else if s.identities[identity_id].owner != invoker {
        (s, Err(Error::NotOwner))
    } else {
        let record = IdentityView {
            owner: new_owner,
            ..s.identities[identity_id]
        };
        (
            ServiceView {
                identities: s.identities.insert(identity_id, record),
                credentials: s.credentials,
            },
            Ok(()),
        )
    }
}

/// Transition of [`DigitalIdentityContract::issue_credential`]: on success the
/// credential table gains the new record, unrevoked, and the identity's
/// credential sequence grows by its identifier — both in one atomic unit.
pub open spec fn issue_credential_step(
    s: ServiceView,
    credential_id: u64,
    identity_id: u64,
    issuer: u64,
    credential_type: Seq<char>,
    issue_date: i64,
    expiry_date: i64,
    issuer_ok: bool,
) -> (ServiceView, Result<(), Error>) {
    if !issuer_ok {
        (s, Err(Error::NotAuthorized))
    } else if s.credentials.contains_key(credential_id) {
        (s, Err(Error::CredentialExists))
    } else if !s.identities.contains_key(identity_id) {
        (s, Err(Error::NotFound))
    } else {
        let record = CredentialView {
            issuer,
            credential_type,
            issue_date,
            expiry_date,
            revoked: false,
        };
        let holder = IdentityView {
            credentials: s.identities[identity_id].credentials.push(credential_id),
            ..s.identities[identity_id]
        };
        (
            ServiceView {
                identities: s.identities.insert(identity_id, holder),
                credentials: s.credentials.insert(credential_id, record),
            },
            Ok(()),
        )
    }
}

/// Transition of [`DigitalIdentityContract::revoke_credential`]: sets the
/// revocation flag, and only ever from `false` to `true`. Revoking an already
/// revoked credential is not an error and changes nothing.
pub open spec fn revoke_credential_step(
    s: ServiceView,
    invoker: u64,
    credential_id: u64,
    invoker_ok: bool,
) -> (ServiceView, Result<(), Error>) {
    if !invoker_ok {
        (s, Err(Error::NotAuthorized))
    } else if !s.credentials.contains_key(credential_id) {
        (s, Err(Error::NotFound))
    } else if s.credentials[credential_id].issuer != invoker {
        (s, Err(Error::NotIssuer))
    } else {
        let record = CredentialView {
            revoked: true,
            ..s.credentials[credential_id]
        };
        (
            ServiceView {
                identities: s.identities,
                credentials: s.credentials.insert(credential_id, record),
            },
            Ok(()),
        )
    }
}

impl DigitalIdentityContract {
    /// A service with no identity and no credential records.
    pub fn new() -> (out: DigitalIdentityContract)
        ensures
            out@.identities == Map::<u64, IdentityView>::empty(),
            out@.credentials == Map::<u64, CredentialView>::empty(),
    {
        let out = DigitalIdentityContract {
            identities: HashMap::new(),
            credentials: HashMap::new(),
        };
        proof {
            assert(out@.identities =~= Map::<u64, IdentityView>::empty());
            assert(out@.credentials =~= Map::<u64, CredentialView>::empty());
        }
        out
    }

    /// Create an identity record, exclusively owned by `owner`, with an empty
    /// credential sequence. Fails if `owner` is not vouched for, or if the
    /// identifier is already registered; a registered identifier is never
    /// re-registered, so the first record under it is immutable but for
    /// ownership transfer.
    pub fn register_identity(
        &mut self,
        auth: &Auth,
        identity_id: u64,
        owner: u64,
        identity_type: String,
        metadata: String,
    ) -> (out: Result<(), Error>)
        ensures
            ({
                let (next, verdict) = register_identity_step(
                    old(self)@,
                    identity_id,
                    owner,
                    identity_type@,
                    metadata@,
                    auth@.contains(owner),
                );
                final(self)@ == next && out == verdict
            }),
    {
        if !auth.allows(owner) {
            return Err(Error::NotAuthorized);
        }
        if self.identities.contains_key(&identity_id) {
            return Err(Error::IdentityExists);
        }
        let record = Identity {
            owner,
            identity_type,
            metadata,
            credentials: Vec::new(),
        };
        proof {
            assert(record@.credentials =~= Seq::<u64>::empty());
        }
        self.identities.insert(identity_id, record);
        proof {
            let (next, verdict) = register_identity_step(
                old(self)@,
                identity_id,
                owner,
                record.identity_type@,
                record.metadata@,
                true,
            );
            assert(self@.identities =~= next.identities);
            assert(self@ =~= next);
        }
        Ok(())
    }

    /// Look the identity record up; absence is an answer, not an error.
    pub fn get_identity(&self, identity_id: u64) -> (out: Option<Identity>)
        ensures
            match out {
                Some(record) => self@.identities.contains_key(identity_id) && record@
                    == self@.identities[identity_id],
                None => !self@.identities.contains_key(identity_id),
            },
    {
        match self.identities.get(&identity_id) {
            Some(found) => Some(found.duplicate()),
            None => None,
        }
    }

    /// Move an identity to a new owner. Both parties must independently pass
    /// the capability check, so nobody can be handed an identity against their
    /// will and a forged destination cannot steal one. Only the `owner` field
    /// changes; type, metadata and the credential sequence stay as they were.
    pub fn transfer_identity(
        &mut self,
        auth: &Auth,
        invoker: u64,
        identity_id: u64,
        new_owner: u64,
    ) -> (out: Result<(), Error>)
        ensures
            ({
                let (next, verdict) = transfer_identity_step(
                    old(self)@,
                    invoker,
                    identity_id,
                    new_owner,
                    auth@.contains(invoker),
                    auth@.contains(new_owner),
                );
                final(self)@ == next && out == verdict
            }),
    {
        if !auth.allows(invoker) {
            return Err(Error::NotAuthorized);
        }
        if !auth.allows(new_owner) {
            return Err(Error::NotAuthorized);
        }
        let record = match self.identities.get(&identity_id) {
            None => {
                return Err(Error::NotFound);
            },
            Some(found) => {
                if found.owner != invoker {
                    return Err(Error::NotOwner);
                }
                let mut moved = found.duplicate();
                moved.owner = new_owner;
                moved
            },
        };
        self.identities.insert(identity_id, record);
        proof {
            let (next, verdict) = transfer_identity_step(
                old(self)@,
                invoker,
                identity_id,
                new_owner,
                true,
                true,
            );
            assert(self@.identities =~= next.identities);
            assert(self@ =~= next);
        }
        Ok(())
    }

    /// Issue a credential against an existing identity: create the credential
    /// record with `revoked == false` and append its identifier to the
    /// identity's sequence. The two tables change in the same atomic unit; on
    /// any failure neither is touched, so no orphan credential can appear.
    pub fn issue_credential(
        &mut self,
        auth: &Auth,
        credential_id: u64,
        identity_id: u64,
        issuer: u64,
        credential_type: String,
        issue_date: i64,
        expiry_date: i64,
    ) -> (out: Result<(), Error>)
        ensures
            ({
                let (next, verdict) = issue_credential_step(
                    old(self)@,
                    credential_id,
                    identity_id,
                    issuer,
                    credential_type@,
                    issue_date,
                    expiry_date,
                    auth@.contains(issuer),
                );
                final(self)@ == next && out == verdict
            }),
    {
        if !auth.allows(issuer) {
            return Err(Error::NotAuthorized);
        }
        if self.credentials.contains_key(&credential_id) {
            return Err(Error::CredentialExists);
        }
        let mut holder = match self.identities.get(&identity_id) {
            None => {
                return Err(Error::NotFound);
            },
            Some(found) => found.duplicate(),
        };
        holder.credentials.push(credential_id);
        let record = Credential {
            issuer,
            credential_type,
            issue_date,
            expiry_date,
            revoked: false,
        };
        self.credentials.insert(credential_id, record);
        self.identities.insert(identity_id, holder);
        proof {
            let (next, verdict) = issue_credential_step(
                old(self)@,
                credential_id,
                identity_id,
                issuer,
                record.credential_type@,
                issue_date,
                expiry_date,
                true,
            );
            assert(self@.identities =~= next.identities);
            assert(self@.credentials =~= next.credentials);
            assert(self@ =~= next);
        }
        Ok(())
    }

    /// Look the credential record up; absence is an answer, not an error. The
    /// caller reads `revoked` and weighs `expiry_date` against its own notion
    /// of current time; this operation judges nothing.
    pub fn verify_credential(&self, credential_id: u64) -> (out: Option<Credential>)
        ensures
            match out {
                Some(record) => self@.credentials.contains_key(credential_id) && record@
                    == self@.credentials[credential_id],
                None => !self@.credentials.contains_key(credential_id),
            },
    {
        match self.credentials.get(&credential_id) {
            Some(found) => Some(found.duplicate()),
            None => None,
        }
    }

    /// Set the revocation flag of a credential, which only its issuer may do.
    /// The flag only ever moves from `false` to `true`: revoking an already
    /// revoked credential succeeds and changes nothing, and nothing ever
    /// clears the flag again.
    pub fn revoke_credential(&mut self, auth: &Auth, invoker: u64, credential_id: u64) -> (out:
        Result<(), Error>)
        ensures
            ({
                let (next, verdict) = revoke_credential_step(
                    old(self)@,
                    invoker,
                    credential_id,
                    auth@.contains(invoker),
                );
                final(self)@ == next && out == verdict
            }),
    {
        if !auth.allows(invoker) {
            return Err(Error::NotAuthorized);
        }
        let record = match self.credentials.get(&credential_id) {
            None => {
                return Err(Error::NotFound);
            },
            Some(found) => {
                if found.issuer != invoker {
                    return Err(Error::NotIssuer);
                }
                let mut revoked_record = found.duplicate();
                revoked_record.revoked = true;
                revoked_record
            },
        };
        self.credentials.insert(credential_id, record);
        proof {
            let (next, verdict) = revoke_credential_step(
                old(self)@,
                invoker,
                credential_id,
                true,
            );
            assert(self@.credentials =~= next.credentials);
            assert(self@ =~= next);
        }
        Ok(())
    }
}

/// One mutating invocation of the service, with its arguments.
pub ghost enum Op {
    RegisterIdentity {
        identity_id: u64,
        owner: u64,
        identity_type: Seq<char>,
        metadata: Seq<char>,
    },
    TransferIdentity { invoker: u64, identity_id: u64, new_owner: u64 },
    IssueCredential {
        credential_id: u64,
        identity_id: u64,
        issuer: u64,
        credential_type: Seq<char>,
        issue_date: i64,
        expiry_date: i64,
    },
    RevokeCredential { invoker: u64, credential_id: u64 },
}

/// One step of the service: the given invocation under an authorization
/// collaborator that vouches exactly for the principals in `granted`.
pub open spec fn service_step(s: ServiceView, granted: Set<u64>, op: Op) -> (
    ServiceView,
    Result<(), Error>,
) {
    match op {
        Op::RegisterIdentity { identity_id, owner, identity_type, metadata } =>
            register_identity_step(
            s,
            identity_id,
            owner,
            identity_type,
            metadata,
            granted.contains(owner),
        ),
        Op::TransferIdentity { invoker, identity_id, new_owner } => transfer_identity_step(
            s,
            invoker,
            identity_id,
            new_owner,
            granted.contains(invoker),
            granted.contains(new_owner),
        ),
        Op::IssueCredential {
            credential_id,
            identity_id,
            issuer,
            credential_type,
            issue_date,
            expiry_date,
        } => issue_credential_step(
            s,
            credential_id,
            identity_id,
            issuer,
            credential_type,
            issue_date,
            expiry_date,
            granted.contains(issuer),
        ),
        Op::RevokeCredential { invoker, credential_id } => revoke_credential_step(
            s,
            invoker,
            credential_id,
            granted.contains(invoker),
        ),
    }
}

/// The state after a whole sequence of invocations, each with its own
/// authorization verdicts.
pub open spec fn service_run(s: ServiceView, trace: Seq<(Set<u64>, Op)>) -> ServiceView
    decreases trace.len(),
{
    if trace.len() == 0 {
        s
    } else {
        service_run(service_step(s, trace[0].0, trace[0].1).0, trace.drop_first())
    }
}

/// Identity `identity_id` lists `credential_id` among the credentials issued
/// against it.
pub open spec fn lists_credential(s: ServiceView, identity_id: u64, credential_id: u64) -> bool {
    s.identities.contains_key(identity_id) && s.identities[identity_id].credentials.contains(
        credential_id,
    )
}

/// No identifier occurs twice in the sequence.
pub open spec fn distinct_ids(q: Seq<u64>) -> bool {
    forall|k: int, l: int| 0 <= k < l < q.len() ==> q[k] != q[l]
}

/// The service invariant: every credential listed on an identity exists in
/// the credential table; a credential is linked to at most one identity; and
/// no identity lists the same credential twice.
pub open spec fn service_inv(s: ServiceView) -> bool {
    &&& forall|id: u64, c: u64| #[trigger] lists_credential(s, id, c) ==> s.credentials.contains_key(c)
    &&& forall|id1: u64, id2: u64, c: u64|
        #[trigger] lists_credential(s, id1, c) && #[trigger] lists_credential(s, id2, c) ==> id1
            == id2
    &&& forall|id: u64|
        s.identities.contains_key(id) ==> distinct_ids(#[trigger] s.identities[id].credentials)
}

/// Law: the empty service satisfies the invariant.
pub proof fn lemma_empty_service_inv(s: ServiceView)
    requires
        s.identities == Map::<u64, IdentityView>::empty(),
        s.credentials == Map::<u64, CredentialView>::empty(),
    ensures
        service_inv(s),
{
}

/// Law: every step of the service preserves the invariant — credentials never
/// dangle, stay linked to exactly one identity, and are never listed twice.
pub proof fn lemma_step_preserves_inv(s: ServiceView, granted: Set<u64>, op: Op)
    requires
        service_inv(s),
    ensures
        service_inv(service_step(s, granted, op).0),
{
    broadcast use vstd::seq_lib::lemma_seq_contains_after_push;

    let next = service_step(s, granted, op).0;
    match op {
        Op::RegisterIdentity { identity_id, owner, identity_type, metadata } => {
            assert forall|id: u64, c: u64| #[trigger] lists_credential(next, id, c) implies
                lists_credential(s, id, c) by {
                if id == identity_id && !s.identities.contains_key(identity_id) {
                    assert(!Seq::<u64>::empty().contains(c));
                }
            }
            assert forall|id: u64| next.identities.contains_key(id) implies distinct_ids(
                #[trigger] next.identities[id].credentials,
            ) by {
                if s.identities.contains_key(id) {
                    assert(distinct_ids(s.identities[id].credentials));
                } else {
                    assert(next.identities[id].credentials =~= Seq::<u64>::empty());
                }
            }
        },
        Op::TransferIdentity { invoker, identity_id, new_owner } => {
            assert forall|id: u64, c: u64| #[trigger] lists_credential(next, id, c) implies
                lists_credential(s, id, c) by {}
            assert forall|id: u64| next.identities.contains_key(id) implies distinct_ids(
                #[trigger] next.identities[id].credentials,
            ) by {
                assert(distinct_ids(s.identities[id].credentials));
            }
        },
        Op::IssueCredential {
            credential_id,
            identity_id,
            issuer,
            credential_type,
            issue_date,
            expiry_date,
        } => {
            if service_step(s, granted, op).1 is Ok {
                assert forall|id: u64, c: u64| #[trigger] lists_credential(next, id, c) implies
                    next.credentials.contains_key(c) by {
                    if id != identity_id || c != credential_id {
                        assert(lists_credential(s, id, c));
                    }
                }
                assert forall|id1: u64, id2: u64, c: u64|
                    #[trigger] lists_credential(next, id1, c) && #[trigger] lists_credential(
                        next,
                        id2,
                        c,
                    ) implies id1 == id2 by {
                    if c == credential_id {
                        if id1 != identity_id {
                            assert(lists_credential(s, id1, c));
                        }
                        if id2 != identity_id {
                            assert(lists_credential(s, id2, c));
                        }
                    } else {
                        assert(lists_credential(s, id1, c));
                        assert(lists_credential(s, id2, c));
                    }
                }
                assert forall|id: u64| next.identities.contains_key(id) implies distinct_ids(
                    #[trigger] next.identities[id].credentials,
                ) by {
                    if id == identity_id {
                        let grown = next.identities[identity_id].credentials;
                        assert(!lists_credential(s, identity_id, credential_id));
                        assert forall|k: int, l: int| 0 <= k < l < grown.len() implies grown[k]
                            != grown[l] by {
                            if l == grown.len() - 1 {
                                assert(s.identities[identity_id].credentials[k] == grown[k]);
                                assert(s.identities[identity_id].credentials.contains(grown[k]));
                            }
                        }
                    }
                }
            }
        },
        Op::RevokeCredential { invoker, credential_id } => {
            assert forall|id: u64, c: u64| #[trigger] lists_credential(next, id, c) implies
                lists_credential(s, id, c) && next.credentials.contains_key(c) by {}
            assert forall|id: u64| next.identities.contains_key(id) implies distinct_ids(
                #[trigger] next.identities[id].credentials,
            ) by {
                assert(distinct_ids(s.identities[id].credentials));
            }
        },
    }
}

/// Law: the invariant holds after any whole sequence of invocations on a
/// service that satisfied it.
pub proof fn lemma_run_preserves_inv(s: ServiceView, trace: Seq<(Set<u64>, Op)>)
    requires
        service_inv(s),
    ensures
        service_inv(service_run(s, trace)),
    decreases trace.len(),
{
    if trace.len() > 0 {
        lemma_step_preserves_inv(s, trace[0].0, trace[0].1);
        lemma_run_preserves_inv(service_step(s, trace[0].0, trace[0].1).0, trace.drop_first());
    }
}

/// Law: revocation is permanent across one step. Whatever the invocation and
/// whatever the authorization verdicts, a credential that is present and
/// revoked stays present and revoked.
pub proof fn lemma_revocation_permanent_step(
    s: ServiceView,
    granted: Set<u64>,
    op: Op,
    credential_id: u64,
)
    requires
        s.credentials.contains_key(credential_id),
        s.credentials[credential_id].revoked,
    ensures
        ({
            let next = service_step(s, granted, op).0;
            next.credentials.contains_key(credential_id) && next.credentials[credential_id].revoked
        }),
{
}

/// Law: revocation is permanent, full stop. No sequence of invocations can
/// ever make a revoked credential observable as unrevoked again.
pub proof fn lemma_revocation_permanent(
    s: ServiceView,
    trace: Seq<(Set<u64>, Op)>,
    credential_id: u64,
)
    requires
        s.credentials.contains_key(credential_id),
        s.credentials[credential_id].revoked,
    ensures
        ({
            let last = service_run(s, trace);
            last.credentials.contains_key(credential_id) && last.credentials[credential_id].revoked
        }),
    decreases trace.len(),
{
    if trace.len() > 0 {
        lemma_revocation_permanent_step(s, trace[0].0, trace[0].1, credential_id);
        lemma_revocation_permanent(
            service_step(s, trace[0].0, trace[0].1).0,
            trace.drop_first(),
            credential_id,
        );
    }
}

/// Law: an identity identifier is registered at most once. After a successful
/// registration, registering the same identifier again fails — with
/// [`Error::IdentityExists`] when the second owner passes the capability
/// check — and the record created by the first registration is unchanged.
pub proof fn lemma_register_identity_twice(
    s: ServiceView,
    identity_id: u64,
    owner1: u64,
    identity_type1: Seq<char>,
    metadata1: Seq<char>,
    owner1_ok: bool,
    owner2: u64,
    identity_type2: Seq<char>,
    metadata2: Seq<char>,
    owner2_ok: bool,
)
    requires
        register_identity_step(s, identity_id, owner1, identity_type1, metadata1, owner1_ok).1
            is Ok,
    ensures
        ({
            let first = register_identity_step(
                s,
                identity_id,
                owner1,
                identity_type1,
                metadata1,
                owner1_ok,
            ).0;
            let (second, verdict) = register_identity_step(
                first,
                identity_id,
                owner2,
                identity_type2,
                metadata2,
                owner2_ok,
            );
            &&& second == first
            &&& !(verdict is Ok)
            &&& owner2_ok ==> verdict == Err::<(), Error>(Error::IdentityExists)
            &&& first.identities[identity_id] == (IdentityView {
                owner: owner1,
                identity_type: identity_type1,
                metadata: metadata1,
                credentials: Seq::empty(),
            })
            &&& second.identities[identity_id] == first.identities[identity_id]
        }),
{
}

/// Law: a transfer changes the owner and nothing else. The identity's type,
/// metadata and credential sequence are identical before and after, every
/// other identity is untouched, and the credential table is untouched.
pub proof fn lemma_transfer_changes_only_owner(
    s: ServiceView,
    invoker: u64,
    identity_id: u64,
    new_owner: u64,
)
    requires
        transfer_identity_step(s, invoker, identity_id, new_owner, true, true).1 is Ok,
    ensures
        ({
            let next = transfer_identity_step(s, invoker, identity_id, new_owner, true, true).0;
            &&& next.identities[identity_id].owner == new_owner
            &&& next.identities[identity_id].identity_type == s.identities[
                identity_id
            ].identity_type
            &&& next.identities[identity_id].metadata == s.identities[identity_id].metadata
            &&& next.identities[identity_id].credentials == s.identities[identity_id].credentials
            &&& forall|other: u64|
                other != identity_id ==> (#[trigger] next.identities.contains_key(other)
                    == s.identities.contains_key(other) && (s.identities.contains_key(other)
                    ==> next.identities[other] == s.identities[other]))
            &&& next.credentials == s.credentials
        }),
{
}

/// Law: only the current owner can move an identity. Whoever else invokes the
/// transfer, it fails and changes nothing — with [`Error::NotOwner`] when
/// both parties pass the capability check, so the new owner's own
/// authorization is no help to a thief.
pub proof fn lemma_transfer_requires_ownership(
    s: ServiceView,
    invoker: u64,
    identity_id: u64,
    new_owner: u64,
    invoker_ok: bool,
    new_owner_ok: bool,
)
    requires
        s.identities.contains_key(identity_id),
        s.identities[identity_id].owner != invoker,
    ensures
        ({
            let (next, verdict) = transfer_identity_step(
                s,
                invoker,
                identity_id,
                new_owner,
                invoker_ok,
                new_owner_ok,
            );
            &&& next == s
            &&& !(verdict is Ok)
            &&& invoker_ok && new_owner_ok ==> verdict == Err::<(), Error>(Error::NotOwner)
        }),
{
}

/// Law: issuing against an unknown identity creates nothing. Both tables are
/// exactly as before — in particular no orphan credential appears — and the
/// outcome is an error: [`Error::NotFound`] when the issuer passes the
/// capability check and the credential identifier is fresh.
pub proof fn lemma_issue_unknown_identity(
    s: ServiceView,
    credential_id: u64,
    identity_id: u64,
    issuer: u64,
    credential_type: Seq<char>,
    issue_date: i64,
    expiry_date: i64,
    issuer_ok: bool,
)
    requires
        !s.identities.contains_key(identity_id),
    ensures
        ({
            let (next, verdict) = issue_credential_step(
                s,
                credential_id,
                identity_id,
                issuer,
                credential_type,
                issue_date,
                expiry_date,
                issuer_ok,
            );
            &&& next == s
            &&& !(verdict is Ok)
            &&& issuer_ok && !s.credentials.contains_key(credential_id) ==> verdict == Err::<
                (),
                Error,
            >(Error::NotFound)
        }),
{
}

} // verus!
