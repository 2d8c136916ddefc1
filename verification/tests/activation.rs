use guest_integrity::activation::{
    activate_and_seal, continue_activation, sign_policy, take_signed_policy, ActivationAction,
    ActivationError, ActivationEvent, ActivationState,
};
use guest_integrity::policy::{policy_for_cmdline, PolicyError};
use openssl::asn1::{Asn1Integer, Asn1Time};
use openssl::bn::BigNum;
use openssl::hash::MessageDigest;
use openssl::pkcs7::{Pkcs7, Pkcs7Flags};
use openssl::pkey::{PKey, Private};
use openssl::rsa::Rsa;
use openssl::stack::Stack;
use openssl::x509::store::X509StoreBuilder;
use openssl::x509::{X509NameBuilder, X509};

const CMDLINE: &str = "quiet a.root_hash=abcd b.root_hash=0123,salt=-";

fn key_and_certificate() -> (PKey<Private>, X509) {
    let key = PKey::from_rsa(Rsa::generate(2048).unwrap()).unwrap();
    let mut name = X509NameBuilder::new().unwrap();
    name.append_entry_by_text("CN", "policy signer").unwrap();
    let name = name.build();
    let mut certificate = X509::builder().unwrap();
    certificate.set_version(2).unwrap();
    let serial = Asn1Integer::from_bn(&BigNum::from_u32(5).unwrap()).unwrap();
    certificate.set_serial_number(&serial).unwrap();
    certificate.set_subject_name(&name).unwrap();
    certificate.set_issuer_name(&name).unwrap();
    certificate.set_pubkey(&key).unwrap();
    certificate.set_not_before(&Asn1Time::days_from_now(0).unwrap()).unwrap();
    certificate.set_not_after(&Asn1Time::days_from_now(1).unwrap()).unwrap();
    certificate.sign(&key, MessageDigest::sha256()).unwrap();
    (key, certificate.build())
}

fn content(signature: &[u8], certificate: &X509) -> Vec<u8> {
    let mut certificates = Stack::new().unwrap();
    certificates.push(certificate.clone()).unwrap();
    let store = X509StoreBuilder::new().unwrap().build();
    let mut held = Vec::new();
    Pkcs7::from_der(signature)
        .unwrap()
        .verify(
            &certificates,
            &store,
            None,
            Some(&mut held),
            Pkcs7Flags::BINARY | Pkcs7Flags::NOVERIFY,
        )
        .unwrap();
    held
}

fn read(bytes: Vec<u8>) -> ActivationEvent {
    ActivationEvent::BytesRead(Ok(bytes))
}

fn done() -> ActivationEvent {
    ActivationEvent::Done(Ok(()))
}

fn failed() -> ActivationEvent {
    ActivationEvent::Done(Err("denied".to_string()))
}

/// Takes the events one after another; gives the last state and every action.
fn run(events: Vec<ActivationEvent>) -> (ActivationState, Vec<ActivationAction>) {
    let (mut state, action) = activate_and_seal();
    let mut actions = vec![action];
    for event in events {
        let (next, action) = continue_activation(state, event);
        state = next;
        actions.push(action);
    }
    (state, actions)
}

/// The events up to a signed policy.
fn signing() -> Vec<ActivationEvent> {
    let (key, certificate) = key_and_certificate();
    vec![
        ActivationEvent::TextRead(Ok(CMDLINE.to_string())),
        read(key.private_key_to_pem_pkcs8().unwrap()),
        read(certificate.to_pem().unwrap()),
    ]
}

fn outcome(more: Vec<ActivationEvent>) -> ActivationAction {
    let mut events = signing();
    events.extend(more);
    run(events).1.pop().unwrap()
}

#[test]
fn policy_signature_holds_the_policy() {
    let (key, certificate) = key_and_certificate();
    let pem_key = key.private_key_to_pem_pkcs8().unwrap();
    let policy = b"policy_name=x\nDEFAULT action=ALLOW\n";
    for encoded in [certificate.to_pem().unwrap(), certificate.to_der().unwrap()] {
        let signature = sign_policy(policy, &pem_key, &encoded).unwrap();
        assert_ne!(signature, policy);
        assert_eq!(content(&signature, &certificate), policy);
    }
}

#[test]
fn policy_signing_failures_are_told_apart() {
    let (key, certificate) = key_and_certificate();
    let (other, _) = key_and_certificate();
    let pem_key = key.private_key_to_pem_pkcs8().unwrap();
    let pem = certificate.to_pem().unwrap();
    let context = |key: &[u8], certificate: &[u8]| {
        sign_policy(b"policy", key, certificate).unwrap_err().context
    };
    assert_eq!(context(b"no key", &pem), "parse prototype IPE private key");
    assert_eq!(context(&pem_key, b"no certificate"), "parse prototype IPE certificate");
    assert_eq!(
        context(&other.private_key_to_pem_pkcs8().unwrap(), &pem),
        "sign prototype IPE policy"
    );
}

#[test]
fn activation_deploys_activates_enforces_and_seals() {
    let (key, certificate) = key_and_certificate();
    let (state, actions) = run(vec![
        ActivationEvent::TextRead(Ok(CMDLINE.to_string())),
        read(key.private_key_to_pem_pkcs8().unwrap()),
        read(certificate.to_pem().unwrap()),
        ActivationEvent::Found(true),
        done(),
        done(),
        done(),
        ActivationEvent::Found(true),
        done(),
    ]);
    assert!(matches!(state, ActivationState::Closed));
    assert!(matches!(actions[0], ActivationAction::ReadText { path: "/proc/cmdline" }));
    assert!(matches!(
        actions[1],
        ActivationAction::ReadBytes { path: "/etc/kata-containers/ipe-prototype/private-key.pem" }
    ));
    assert!(matches!(
        actions[2],
        ActivationAction::ReadBytes { path: "/etc/kata-containers/ipe-prototype/certificate.pem" }
    ));
    assert!(matches!(
        actions[3],
        ActivationAction::Find { path: "/sys/kernel/security/ipe/new_policy" }
    ));
    match &actions[4] {
        ActivationAction::Write { path, data } => {
            assert_eq!(*path, "/sys/kernel/security/ipe/new_policy");
            let (policy, _) = policy_for_cmdline(CMDLINE).unwrap();
            assert_eq!(content(data, &certificate), policy.as_bytes());
        }
        _ => panic!("no policy"),
    }
    let switches = [
        (5, "/sys/kernel/security/ipe/policies/kata_verity/active"),
        (6, "/sys/kernel/security/ipe/enforce"),
        (8, "/sys/kernel/security/ipe/seal"),
    ];
    for (at, file) in switches {
        match &actions[at] {
            ActivationAction::Write { path, data } => {
                assert_eq!(*path, file);
                assert_eq!(data, b"1");
            }
            _ => panic!("no switch"),
        }
    }
    assert!(matches!(
        actions[7],
        ActivationAction::Find { path: "/sys/kernel/security/ipe/seal" }
    ));
    assert!(matches!(actions[9], ActivationAction::Complete { hashes: 2 }));
}

#[test]
fn securityfs_is_mounted_if_need_be() {
    let mut events = signing();
    events.extend(vec![ActivationEvent::Found(false), done(), done(), ActivationEvent::Found(true)]);
    let (state, actions) = run(events);
    assert!(matches!(state, ActivationState::Deploying { hashes: 2 }));
    assert!(matches!(
        actions[4],
        ActivationAction::CreateDirectory { path: "/sys/kernel/security" }
    ));
    assert!(matches!(
        actions[5],
        ActivationAction::MountSecurityfs { path: "/sys/kernel/security" }
    ));
    assert!(matches!(
        actions[6],
        ActivationAction::Find { path: "/sys/kernel/security/ipe/new_policy" }
    ));
    assert!(matches!(
        actions[7],
        ActivationAction::Write { path: "/sys/kernel/security/ipe/new_policy", .. }
    ));
}

#[test]
fn reading_failures_are_told_apart() {
    let failure = |events: Vec<ActivationEvent>| match run(events).1.pop().unwrap() {
        ActivationAction::Fail(error) => error,
        _ => panic!("no failure"),
    };
    let cmdline = || ActivationEvent::TextRead(Ok(CMDLINE.to_string()));
    assert!(matches!(
        failure(vec![ActivationEvent::TextRead(Err("x".to_string()))]),
        ActivationError::CommandLineUnreadable(reason) if reason == "x"
    ));
    assert!(matches!(
        failure(vec![ActivationEvent::TextRead(Ok("quiet".to_string()))]),
        ActivationError::Policy(PolicyError::NoRootHash)
    ));
    assert!(matches!(
        failure(vec![cmdline(), ActivationEvent::BytesRead(Err("y".to_string()))]),
        ActivationError::KeyUnreadable(reason) if reason == "y"
    ));
    assert!(matches!(
        failure(vec![cmdline(), read(vec![]), ActivationEvent::BytesRead(Err("z".to_string()))]),
        ActivationError::CertificateUnreadable(reason) if reason == "z"
    ));
    assert!(matches!(
        failure(vec![cmdline(), read(vec![]), read(vec![])]),
        ActivationError::Crypto(error) if error.context == "parse prototype IPE private key"
    ));
}

#[test]
fn later_failures_are_told_apart() {
    let found = || ActivationEvent::Found(true);
    let missing = || ActivationEvent::Found(false);
    assert!(matches!(
        outcome(vec![missing(), failed()]),
        ActivationAction::Fail(ActivationError::MountPointNotCreated(reason)) if reason == "denied"
    ));
    assert!(matches!(
        outcome(vec![missing(), done(), failed()]),
        ActivationAction::Fail(ActivationError::NotMounted(_))
    ));
    assert!(matches!(
        outcome(vec![missing(), done(), done(), missing()]),
        ActivationAction::Fail(ActivationError::InterfaceUnavailable)
    ));
    assert!(matches!(
        outcome(vec![found(), failed()]),
        ActivationAction::Fail(ActivationError::NotDeployed(_))
    ));
    assert!(matches!(
        outcome(vec![found(), done(), failed()]),
        ActivationAction::Fail(ActivationError::NotActivated(_))
    ));
    assert!(matches!(
        outcome(vec![found(), done(), done(), failed()]),
        ActivationAction::Fail(ActivationError::NotEnforced(_))
    ));
    assert!(matches!(
        outcome(vec![found(), done(), done(), done(), missing()]),
        ActivationAction::Fail(ActivationError::SealUnavailable)
    ));
    assert!(matches!(
        outcome(vec![found(), done(), done(), done(), found(), failed()]),
        ActivationAction::Fail(ActivationError::NotSealed(_))
    ));
}

#[test]
fn signed_policy_is_what_gets_deployed() {
    let (state, _) = take_signed_policy(Ok(vec![7, 8, 9]), 4);
    let (_, action) = continue_activation(state, ActivationEvent::Found(true));
    assert!(matches!(action, ActivationAction::Write { data, .. } if data == [7, 8, 9]));
    let failure = sign_policy(b"", b"", b"");
    let (_, action) = take_signed_policy(failure, 4);
    assert!(matches!(action, ActivationAction::Fail(ActivationError::Crypto(_))));
}

#[test]
fn nothing_is_done_after_a_failure() {
    let (state, actions) = run(vec![
        ActivationEvent::TextRead(Err("x".to_string())),
        ActivationEvent::TextRead(Ok(CMDLINE.to_string())),
        done(),
    ]);
    assert!(matches!(state, ActivationState::Closed));
    for action in &actions[2..] {
        assert!(matches!(action, ActivationAction::Fail(ActivationError::OutOfOrder)));
    }
}
