use digital_identity::auth::Auth;
use digital_identity::identity::DigitalIdentityContract;
use digital_identity::Error;

fn vouch(principals: &[u64]) -> Auth {
    let mut auth = Auth::new();
    for p in principals {
        auth.grant(*p);
    }
    auth
}

#[test]
fn test_register_identity_and_get() {
    let mut service = DigitalIdentityContract::new();
    let owner: u64 = 1;
    let auth = vouch(&[owner]);

    let outcome = service.register_identity(
        &auth,
        10,
        owner,
        String::from("person"),
        String::from("meta"),
    );
    assert_eq!(outcome, Ok(()));

    let record = service.get_identity(10).unwrap();
    assert_eq!(record.owner, owner);
    assert_eq!(record.identity_type, String::from("person"));
    assert_eq!(record.metadata, String::from("meta"));
    assert_eq!(record.credentials, Vec::<u64>::new());
}

#[test]
fn test_register_identity_twice() {
    let mut service = DigitalIdentityContract::new();
    let auth = vouch(&[1, 2]);

    assert_eq!(
        service.register_identity(&auth, 10, 1, String::from("person"), String::from("m1")),
        Ok(())
    );
    // The same identifier again, even for another owner: refused, first record
    // untouched.
    assert_eq!(
        service.register_identity(&auth, 10, 2, String::from("device"), String::from("m2")),
        Err(Error::IdentityExists)
    );

    let record = service.get_identity(10).unwrap();
    assert_eq!(record.owner, 1);
    assert_eq!(record.identity_type, String::from("person"));
    assert_eq!(record.metadata, String::from("m1"));
}

#[test]
fn test_register_identity_requires_auth() {
    let mut service = DigitalIdentityContract::new();
    let auth = Auth::new();
    let outcome = service.register_identity(&auth, 10, 1, String::from("t"), String::from("m"));
    assert_eq!(outcome, Err(Error::NotAuthorized));
    assert!(service.get_identity(10).is_none());
}

#[test]
fn test_identity_lookup_absent() {
    let service = DigitalIdentityContract::new();
    assert!(service.get_identity(77).is_none());
}

#[test]
fn test_transfer_identity() {
    let mut service = DigitalIdentityContract::new();
    let a: u64 = 1;
    let b: u64 = 2;
    let issuer: u64 = 3;
    let auth = vouch(&[a, b, issuer]);

    assert_eq!(
        service.register_identity(&auth, 10, a, String::from("person"), String::from("meta")),
        Ok(())
    );
    assert_eq!(
        service.issue_credential(&auth, 50, 10, issuer, String::from("degree"), 100, 200),
        Ok(())
    );
    assert_eq!(service.transfer_identity(&auth, a, 10, b), Ok(()));

    // Only the owner changed; type, metadata and credential sequence are
    // identical before and after.
    let record = service.get_identity(10).unwrap();
    assert_eq!(record.owner, b);
    assert_eq!(record.identity_type, String::from("person"));
    assert_eq!(record.metadata, String::from("meta"));
    assert_eq!(record.credentials, vec![50u64]);
}

#[test]
fn test_transfer_not_owner() {
    let mut service = DigitalIdentityContract::new();
    let a: u64 = 1;
    let b: u64 = 2;
    let d: u64 = 4;
    let auth = vouch(&[a, b, d]);

    assert_eq!(
        service.register_identity(&auth, 10, a, String::from("t"), String::from("m")),
        Ok(())
    );
    // Both d and b pass the capability check; d still is not the owner.
    assert_eq!(service.transfer_identity(&auth, d, 10, b), Err(Error::NotOwner));
    assert_eq!(service.get_identity(10).unwrap().owner, a);
}

#[test]
fn test_transfer_unknown_identity() {
    let mut service = DigitalIdentityContract::new();
    let auth = vouch(&[1, 2]);
    assert_eq!(service.transfer_identity(&auth, 1, 99, 2), Err(Error::NotFound));
}

#[test]
fn test_transfer_needs_both_authorizations() {
    let mut service = DigitalIdentityContract::new();
    let a: u64 = 1;
    let b: u64 = 2;
    let auth = vouch(&[a]);

    assert_eq!(
        service.register_identity(&auth, 10, a, String::from("t"), String::from("m")),
        Ok(())
    );
    // The destination never proved control: the transfer is refused.
    assert_eq!(service.transfer_identity(&auth, a, 10, b), Err(Error::NotAuthorized));
    assert_eq!(service.get_identity(10).unwrap().owner, a);
}

#[test]
fn test_issue_and_verify_credential() {
    let mut service = DigitalIdentityContract::new();
    let owner: u64 = 1;
    let issuer: u64 = 2;
    let auth = vouch(&[owner, issuer]);

    assert_eq!(
        service.register_identity(&auth, 10, owner, String::from("person"), String::from("m")),
        Ok(())
    );
    assert_eq!(
        service.issue_credential(&auth, 50, 10, issuer, String::from("degree"), 100, 200),
        Ok(())
    );

    let credential = service.verify_credential(50).unwrap();
    assert_eq!(credential.issuer, issuer);
    assert_eq!(credential.credential_type, String::from("degree"));
    assert_eq!(credential.issue_date, 100);
    assert_eq!(credential.expiry_date, 200);
    assert!(!credential.revoked);

    let record = service.get_identity(10).unwrap();
    assert_eq!(record.credentials, vec![50u64]);
}

#[test]
fn test_issue_duplicate_credential() {
    let mut service = DigitalIdentityContract::new();
    let auth = vouch(&[1, 2]);

    assert_eq!(
        service.register_identity(&auth, 10, 1, String::from("t"), String::from("m")),
        Ok(())
    );
    assert_eq!(
        service.issue_credential(&auth, 50, 10, 2, String::from("a"), 1, 2),
        Ok(())
    );
    assert_eq!(
        service.issue_credential(&auth, 50, 10, 2, String::from("b"), 3, 4),
        Err(Error::CredentialExists)
    );

    // The first credential is untouched.
    let credential = service.verify_credential(50).unwrap();
    assert_eq!(credential.credential_type, String::from("a"));
    assert_eq!(service.get_identity(10).unwrap().credentials, vec![50u64]);
}

#[test]
fn test_issue_against_unknown_identity() {
    let mut service = DigitalIdentityContract::new();
    let auth = vouch(&[2]);

    assert_eq!(
        service.issue_credential(&auth, 50, 99, 2, String::from("degree"), 100, 200),
        Err(Error::NotFound)
    );
    // No orphan credential was created.
    assert!(service.verify_credential(50).is_none());
}

#[test]
fn test_issue_requires_auth() {
    let mut service = DigitalIdentityContract::new();
    let auth = vouch(&[1]);
    assert_eq!(
        service.register_identity(&auth, 10, 1, String::from("t"), String::from("m")),
        Ok(())
    );
    assert_eq!(
        service.issue_credential(&auth, 50, 10, 2, String::from("degree"), 100, 200),
        Err(Error::NotAuthorized)
    );
    assert!(service.verify_credential(50).is_none());
}

#[test]
fn test_revoke_credential() {
    let mut service = DigitalIdentityContract::new();
    let issuer: u64 = 2;
    let auth = vouch(&[1, issuer]);

    assert_eq!(
        service.register_identity(&auth, 10, 1, String::from("t"), String::from("m")),
        Ok(())
    );
    assert_eq!(
        service.issue_credential(&auth, 50, 10, issuer, String::from("degree"), 100, 200),
        Ok(())
    );
    assert_eq!(service.revoke_credential(&auth, issuer, 50), Ok(()));
    assert!(service.verify_credential(50).unwrap().revoked);

    // Revoking again is not an error, and the flag never clears.
    assert_eq!(service.revoke_credential(&auth, issuer, 50), Ok(()));
    assert!(service.verify_credential(50).unwrap().revoked);
}

#[test]
fn test_revoke_not_issuer() {
    let mut service = DigitalIdentityContract::new();
    let issuer: u64 = 2;
    let d: u64 = 4;
    let auth = vouch(&[1, issuer, d]);

    assert_eq!(
        service.register_identity(&auth, 10, 1, String::from("t"), String::from("m")),
        Ok(())
    );
    assert_eq!(
        service.issue_credential(&auth, 50, 10, issuer, String::from("degree"), 100, 200),
        Ok(())
    );
    assert_eq!(service.revoke_credential(&auth, d, 50), Err(Error::NotIssuer));
    assert!(!service.verify_credential(50).unwrap().revoked);
}

#[test]
fn test_revoke_unknown_credential() {
    let mut service = DigitalIdentityContract::new();
    let auth = vouch(&[2]);
    assert_eq!(service.revoke_credential(&auth, 2, 50), Err(Error::NotFound));
}

#[test]
fn test_credential_lifecycle() {
    let mut service = DigitalIdentityContract::new();
    let a: u64 = 1;
    let b: u64 = 2;
    let d: u64 = 4;
    let auth = vouch(&[a, b, d]);

    assert_eq!(
        service.register_identity(&auth, 10, a, String::from("person"), String::from("m")),
        Ok(())
    );
    assert_eq!(
        service.issue_credential(&auth, 51, 10, b, String::from("license"), 100, 200),
        Ok(())
    );

    let credential = service.verify_credential(51).unwrap();
    assert_eq!(credential.issuer, b);
    assert_eq!(credential.credential_type, String::from("license"));
    assert_eq!(credential.issue_date, 100);
    assert_eq!(credential.expiry_date, 200);
    assert!(!credential.revoked);

    // A third principal cannot revoke, even though authorized.
    assert_eq!(service.revoke_credential(&auth, d, 51), Err(Error::NotIssuer));
    assert_eq!(service.revoke_credential(&auth, b, 51), Ok(()));
    assert!(service.verify_credential(51).unwrap().revoked);
}

#[test]
fn test_auth_allows() {
    let mut auth = Auth::new();
    assert!(!auth.allows(1));
    auth.grant(1);
    auth.grant(2);
    assert!(auth.allows(1));
    assert!(auth.allows(2));
    assert!(!auth.allows(3));
}
