//! The name registry.
//!
//! [`IdentityRegistry`] binds a unique human-readable name to an owning
//! principal together with a 32-byte content hash. Each name maps to at most
//! one principal and each principal owns at most one binding; only the bound
//! owner may rotate the hash, and the name itself is immutable once bound.
//!
//! The registry's mathematical value is the sequence of its bindings in
//! registration order, well-formed when owners and names are pairwise
//! distinct ([`bindings_wf`]). Each operation's contract says that the new
//! state and the outcome are exactly those of its spec-level transition
//! ([`register_step`], [`update_hash_step`]).

use vstd::prelude::*;

use crate::auth::Auth;
use crate::duplicate_values;
use crate::Error;

verus! {

/// The number of bytes in a content hash.
pub const HASH_LEN: usize = 32;

/// A name binding as handed back to callers: the bound name and the content
/// hash it currently carries.
pub struct Identity {
    pub name: String,
    pub hash: Vec<u8>,
}

/// The mathematical value of a [`Identity`].
#[verifier::ext_equal]
pub ghost struct IdentityView {
    pub name: Seq<char>,
    pub hash: Seq<u8>,
}

impl View for Identity {
    type V = IdentityView;

    open spec fn view(&self) -> IdentityView {
        IdentityView { name: self.name@, hash: self.hash@ }
    }
}

/// One binding held by the registry.
struct Binding {
    owner: u64,
    name: String,
    hash: Vec<u8>,
}

/// The mathematical value of one binding: the owning principal, the bound
/// name and the content hash.
#[verifier::ext_equal]
pub ghost struct BindingView {
    pub owner: u64,
    pub name: Seq<char>,
    pub hash: Seq<u8>,
}

impl View for Binding {
    type V = BindingView;

    closed spec fn view(&self) -> BindingView {
        BindingView { owner: self.owner, name: self.name@, hash: self.hash@ }
    }
}

/// Some binding carries this name.
pub open spec fn name_taken(s: Seq<BindingView>, name: Seq<char>) -> bool {
    exists|i: int| 0 <= i < s.len() && s[i].name == name
}

/// Some binding belongs to this principal.
pub open spec fn owner_registered(s: Seq<BindingView>, owner: u64) -> bool {
    exists|i: int| 0 <= i < s.len() && s[i].owner == owner
}

/// The position of the principal's binding; meaningful when
/// `owner_registered(s, owner)` holds and the owners of `s` are distinct.
pub open spec fn owner_index(s: Seq<BindingView>, owner: u64) -> int {
    choose|i: int| 0 <= i < s.len() && s[i].owner == owner
}

/// The principal's binding itself.
pub open spec fn binding_of(s: Seq<BindingView>, owner: u64) -> BindingView {
    s[owner_index(s, owner)]
}

/// Well-formedness of the registry's value: owners are pairwise distinct — a
/// principal owns at most one binding — and names are pairwise distinct — a
/// name maps to at most one principal — and every hash is 32 bytes.
pub open spec fn bindings_wf(s: Seq<BindingView>) -> bool {
    &&& forall|i: int, j: int|
        0 <= i < j < s.len() ==> s[i].owner != s[j].owner && s[i].name != s[j].name
    &&& forall|i: int| 0 <= i < s.len() ==> (#[trigger] s[i].hash).len() == HASH_LEN
}

/// Transition of [`IdentityRegistry::register`]: the state after the call
/// together with its outcome. `caller_ok` is the verdict of the authorization
/// collaborator on `caller`. Name collisions are reported before ownership
/// collisions; on success the new binding is appended.
pub open spec fn register_step(
    s: Seq<BindingView>,
    caller: u64,
    name: Seq<char>,
    hash: Seq<u8>,
    caller_ok: bool,
) -> (Seq<BindingView>, Result<(), Error>) {
    if !caller_ok {
        (s, Err(Error::NotAuthorized))
    } else if name_taken(s, name) {
        (s, Err(Error::NameTaken))
    } else if owner_registered(s, caller) {
        (s, Err(Error::AlreadyRegistered))
    } else {
        (s.push(BindingView { owner: caller, name, hash }), Ok(()))
    }
}

/// Transition of [`IdentityRegistry::update_hash`]: replaces the hash of the
/// caller's binding in place; the name and every other binding are untouched.
pub open spec fn update_hash_step(
    s: Seq<BindingView>,
    caller: u64,
    hash: Seq<u8>,
    caller_ok: bool,
) -> (Seq<BindingView>, Result<(), Error>) {
    if !caller_ok {
        (s, Err(Error::NotAuthorized))
    } else if !owner_registered(s, caller) {
        (s, Err(Error::NotRegistered))
    } else {
        let at = owner_index(s, caller);
        (s.update(at, BindingView { hash, ..s[at] }), Ok(()))
    }
}

/// The name registry: bindings in registration order.
pub struct IdentityRegistry {
    bindings: Vec<Binding>,
}

impl View for IdentityRegistry {
    type V = Seq<BindingView>;

    closed spec fn view(&self) -> Seq<BindingView> {
        self.bindings@.map_values(|b: Binding| b@)
    }
}

impl IdentityRegistry {
    /// A registry with no bindings.
    pub fn new() -> (out: IdentityRegistry)
        ensures
            out@ == Seq::<BindingView>::empty(),
            bindings_wf(out@),
    {
        let out = IdentityRegistry { bindings: Vec::new() };
        proof {
            assert(out@ =~= Seq::<BindingView>::empty());
        }
        out
    }

    /// The position of the caller's binding, if any.
    fn find_owner(&self, owner: u64) -> (out: Option<usize>)
        ensures
            match out {
                Some(at) => 0 <= at < self@.len() && self@[at as int].owner == owner,
                None => !owner_registered(self@, owner),
            },
    {
        let mut i: usize = 0;
        while i < self.bindings.len()
            invariant
                i <= self.bindings.len(),
                forall|j: int| 0 <= j < i ==> self@[j].owner != owner,
            decreases self.bindings.len() - i,
        {
            if self.bindings[i].owner == owner {
                return Some(i);
            }
            i = i + 1;
        }
        None
    }

    /// Whether some binding carries this name.
    fn name_in_use(&self, name: &String) -> (out: bool)
        ensures
            out == name_taken(self@, name@),
    {
        let mut i: usize = 0;
        while i < self.bindings.len()
            invariant
                i <= self.bindings.len(),
                forall|j: int| 0 <= j < i ==> self@[j].name != name@,
            decreases self.bindings.len() - i,
        {
            if self.bindings[i].name == *name {
                proof {
                    assert(self@[i as int].name == name@);
                }
                return true;
            }
            i = i + 1;
        }
        false
    }

    /// Bind `name` to `caller` with the given content hash. Fails if the
    /// collaborator does not vouch for `caller`, if the name is already bound
    /// to anyone, or if `caller` already owns a binding — a principal owns at
    /// most one name at a time.
    pub fn register(&mut self, auth: &Auth, caller: u64, name: String, hash: Vec<u8>) -> (out:
        Result<(), Error>)
        requires
            bindings_wf(old(self)@),
            hash@.len() == HASH_LEN,
        ensures
            ({
                let (next, verdict) = register_step(
                    old(self)@,
                    caller,
                    name@,
                    hash@,
                    auth@.contains(caller),
                );
                final(self)@ == next && out == verdict
            }),
            bindings_wf(final(self)@),
    {
        if !auth.allows(caller) {
            return Err(Error::NotAuthorized);
        }
        if self.name_in_use(&name) {
            return Err(Error::NameTaken);
        }
        if let Some(_) = self.find_owner(caller) {
            return Err(Error::AlreadyRegistered);
        }
        let binding = Binding { owner: caller, name, hash };
        self.bindings.push(binding);
        proof {
            let appended = old(self)@.push(binding@);
            assert(self@ =~= appended);
        }
        Ok(())
    }

    /// Replace the hash of the caller's binding; the name is immutable and
    /// every other binding is untouched. Fails if the collaborator does not
    /// vouch for `caller` or if `caller` owns no binding.
    pub fn update_hash(&mut self, auth: &Auth, caller: u64, hash: Vec<u8>) -> (out: Result<
        (),
        Error,
    >)
        requires
            bindings_wf(old(self)@),
            hash@.len() == HASH_LEN,
        ensures
            ({
                let (next, verdict) = update_hash_step(
                    old(self)@,
                    caller,
                    hash@,
                    auth@.contains(caller),
                );
                final(self)@ == next && out == verdict
            }),
            bindings_wf(final(self)@),
    {
        if !auth.allows(caller) {
            return Err(Error::NotAuthorized);
        }
        let at = match self.find_owner(caller) {
            None => {
                return Err(Error::NotRegistered);
            },
            Some(at) => at,
        };
        let name = self.bindings[at].name.clone();
        let replacement = Binding { owner: caller, name, hash };
        self.bindings.set(at, replacement);
        proof {
            assert(owner_index(old(self)@, caller) == at) by {
                let chosen = owner_index(old(self)@, caller);
                assert(old(self)@[at as int].owner == caller);
                assert(0 <= chosen < old(self)@.len() && old(self)@[chosen].owner == caller);
            }
            let (next, verdict) = update_hash_step(old(self)@, caller, hash@, true);
            assert(self@ =~= next);
        }
        Ok(())
    }

    /// Look the caller's binding up; a principal with no binding gets
    /// [`Error::NotRegistered`]. Read-only: the registry is unchanged.
    pub fn get_identity(&self, address: u64) -> (out: Result<Identity, Error>)
        requires
            bindings_wf(self@),
        ensures
            match out {
                Ok(record) => owner_registered(self@, address) && record@.name == binding_of(
                    self@,
                    address,
                ).name && record@.hash == binding_of(self@, address).hash,
                Err(e) => e == Error::NotRegistered && !owner_registered(self@, address),
            },
    {
        match self.find_owner(address) {
            None => Err(Error::NotRegistered),
            Some(at) => {
                proof {
                    let chosen = owner_index(self@, address);
                    assert(self@[at as int].owner == address);
                    assert(0 <= chosen < self@.len() && self@[chosen].owner == address);
                    assert(chosen == at);
                }
                Ok(
                    Identity {
                        name: self.bindings[at].name.clone(),
                        hash: duplicate_values(&self.bindings[at].hash),
                    },
                )
            },
        }
    }
}

/// Law: a principal owns at most one binding. In a well-formed registry, any
/// two positions bound to the same owner are the same position; the same
/// holds of two positions carrying the same name.
pub proof fn lemma_at_most_one_binding(s: Seq<BindingView>, i: int, j: int)
    requires
        bindings_wf(s),
        0 <= i < s.len(),
        0 <= j < s.len(),
        s[i].owner == s[j].owner || s[i].name == s[j].name,
    ensures
        i == j,
{
}

/// Law: registration keeps the registry well-formed, so owners and names
/// stay pairwise distinct in every state the registry can reach.
pub proof fn lemma_register_preserves_wf(
    s: Seq<BindingView>,
    caller: u64,
    name: Seq<char>,
    hash: Seq<u8>,
    caller_ok: bool,
)
    requires
        bindings_wf(s),
        hash.len() == HASH_LEN,
    ensures
        bindings_wf(register_step(s, caller, name, hash, caller_ok).0),
{
    let next = register_step(s, caller, name, hash, caller_ok).0;
    if caller_ok && !name_taken(s, name) && !owner_registered(s, caller) {
        assert forall|i: int, j: int| 0 <= i < j < next.len() implies next[i].owner
            != next[j].owner && next[i].name != next[j].name by {
            if j == next.len() - 1 {
                assert(next[i] == s[i]);
            }
        }
    }
}

/// Law: a bound principal cannot acquire a second name. However fresh the
/// requested name, registration by a principal that already owns a binding
/// fails and leaves the registry unchanged.
pub proof fn lemma_second_name_refused(
    s: Seq<BindingView>,
    caller: u64,
    name: Seq<char>,
    hash: Seq<u8>,
)
    requires
        owner_registered(s, caller),
        !name_taken(s, name),
    ensures
        register_step(s, caller, name, hash, true) == (s, Err::<(), Error>(Error::AlreadyRegistered)),
{
}

/// Law: a bound name cannot be taken again, by anyone. Registration under a
/// name that some binding already carries fails and leaves the registry
/// unchanged.
pub proof fn lemma_name_taken_refused(
    s: Seq<BindingView>,
    caller: u64,
    name: Seq<char>,
    hash: Seq<u8>,
)
    requires
        name_taken(s, name),
    ensures
        register_step(s, caller, name, hash, true) == (s, Err::<(), Error>(Error::NameTaken)),
{
}

/// Law: rotating the hash changes the hash and nothing else. The caller's
/// binding keeps its owner and its name, every other binding is untouched,
/// and the registry stays well-formed.
pub proof fn lemma_update_hash_changes_only_hash(
    s: Seq<BindingView>,
    caller: u64,
    hash: Seq<u8>,
)
    requires
        bindings_wf(s),
        owner_registered(s, caller),
        hash.len() == HASH_LEN,
    ensures
        ({
            let next = update_hash_step(s, caller, hash, true).0;
            &&& update_hash_step(s, caller, hash, true).1 == Ok::<(), Error>(())
            &&& next.len() == s.len()
            &&& bindings_wf(next)
            &&& owner_registered(next, caller)
            &&& binding_of(next, caller) == (BindingView {
                owner: binding_of(s, caller).owner,
                name: binding_of(s, caller).name,
                hash,
            })
            &&& binding_of(s, caller).owner == caller
            &&& forall|k: int|
                0 <= k < s.len() && (#[trigger] s[k]).owner != caller ==> next[k] == s[k]
        }),
{
    let at = owner_index(s, caller);
    assert(0 <= at < s.len() && s[at].owner == caller);
    let next = update_hash_step(s, caller, hash, true).0;
    assert(bindings_wf(next)) by {
        assert forall|i: int, j: int| 0 <= i < j < next.len() implies next[i].owner
            != next[j].owner && next[i].name != next[j].name by {
            assert(next[i].owner == s[i].owner && next[i].name == s[i].name);
            assert(next[j].owner == s[j].owner && next[j].name == s[j].name);
        }
    }
    let chosen = owner_index(next, caller);
    assert(next[at].owner == caller);
    assert(0 <= chosen < next.len() && next[chosen].owner == caller);
    if chosen != at {
        if chosen < at {
            assert(next[chosen].owner != next[at].owner);
        } else {
            assert(next[at].owner != next[chosen].owner);
        }
    }
}

} // verus!
