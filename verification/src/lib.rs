//! Decentralized identity and credential management.
//!
//! Two components share one model of principals and records:
//!
//! - [`registry::IdentityRegistry`] binds a unique human-readable name to an
//!   owning principal together with a 32-byte content hash, and lets the owner
//!   rotate the hash.
//! - [`identity::DigitalIdentityContract`] manages identity records keyed by an
//!   opaque identifier, each owned by a principal and carrying the credentials
//!   issued against it, and credential records with a one-way revocation flag.
//!
//! Principals and record identifiers are opaque tokens handed out by the
//! hosting environment; the library holds them as machine integers and only
//! ever compares them for equality. Proof of control over a principal is the
//! business of an external authorization collaborator, modelled by
//! [`auth::Auth`]: the set of principals the environment vouches for during
//! the current invocation. Every mutating operation is a single atomic unit:
//! it either applies all of its writes or, on any error, none.

use vstd::prelude::*;

pub mod auth;
pub mod identity;
pub mod registry;

verus! {

/// Why an operation was refused. Every failure leaves the state untouched.
#[derive(Clone, Copy, Debug, PartialEq, Eq, Structural)]
pub enum Error {
    /// The authorization collaborator did not vouch for the asserted principal.
    NotAuthorized,
    /// The requested name is already bound to some principal.
    NameTaken,
    /// The calling principal already owns a name binding.
    AlreadyRegistered,
    /// The principal has no name binding.
    NotRegistered,
    /// An identity record with this identifier already exists.
    IdentityExists,
    /// A credential record with this identifier already exists.
    CredentialExists,
    /// The referenced identity or credential record is absent.
    NotFound,
    /// The invoker is not the current owner of the identity.
    NotOwner,
    /// The invoker is not the issuer of the credential.
    NotIssuer,
}

/// An owned copy of a vector of plain values, element for element.
pub(crate) fn duplicate_values<T: Copy>(source: &Vec<T>) -> (out: Vec<T>)
    ensures
        out@ == source@,
{
    let mut out: Vec<T> = Vec::new();
    let mut i: usize = 0;
    while i < source.len()
        invariant
            i <= source.len(),
            out@ == source@.subrange(0, i as int),
        decreases source.len() - i,
    {
        out.push(source[i]);
        i = i + 1;
        proof {
            assert(out@ =~= source@.subrange(0, i as int));
        }
    }
    proof {
        assert(source@.subrange(0, source.len() as int) =~= source@);
    }
    out
}

} // verus!
