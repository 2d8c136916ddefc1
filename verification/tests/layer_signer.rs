use guest_integrity::crypto::{DETACHED_SIGNATURE, EMBEDDED_SIGNATURE};
use guest_integrity::layer_signer::{
    certificate_request, continue_provisioning, generate_layer_signer, new_layer_signer,
    FinalizeStep, LayerSignerState, ProvisionAction, ProvisionEvent, ProvisionedSigner,
    RootHashSignature, SignatureStep, SignerError,
};
use openssl::asn1::Asn1Time;
use openssl::nid::Nid;
use openssl::pkcs7::{Pkcs7, Pkcs7Flags};
use openssl::stack::Stack;
use openssl::x509::store::X509StoreBuilder;
use openssl::x509::X509;

const KEYS: &str = "1a2b3c4d I------ 1 perm 3f010000 0 0 keyring .dm-verity: empty\n";

fn verifies(certificate: &X509, signature: &[u8], content: &[u8]) -> bool {
    let signature = Pkcs7::from_der(signature).unwrap();
    let mut certificates = Stack::new().unwrap();
    certificates.push(certificate.clone()).unwrap();
    let store = X509StoreBuilder::new().unwrap().build();
    signature
        .verify(
            &certificates,
            &store,
            Some(content),
            None,
            Pkcs7Flags::BINARY | Pkcs7Flags::NOVERIFY,
        )
        .is_ok()
}

/// Provisions a signer against a keyring that takes every key; the signer and
/// the certificate that was added.
fn provisioned() -> (ProvisionedSigner, X509) {
    let state = new_layer_signer().unwrap();
    let (state, action) =
        continue_provisioning(state, ProvisionEvent::KeysRead(Ok(KEYS.to_string())));
    let certificate = match action {
        ProvisionAction::AddKey(request) => X509::from_der(&request.payload).unwrap(),
        _ => panic!("no key"),
    };
    let (state, _) = continue_provisioning(state, ProvisionEvent::KeyAdded(Ok(7)));
    match continue_provisioning(state, ProvisionEvent::KeyringSealed(Ok(()))) {
        (_, ProvisionAction::Ready(signer)) => (signer, certificate),
        _ => panic!("not ready"),
    }
}

#[test]
fn layer_signature_verifies_as_detached_pkcs7() {
    let signer = generate_layer_signer().unwrap();
    let root_hash = "ab".repeat(32);
    let signature = signer.sign(&root_hash).unwrap();
    let signature = Pkcs7::from_der(&signature).unwrap();
    let mut certificates = Stack::new().unwrap();
    certificates.push(signer.certificate().clone()).unwrap();
    let store = X509StoreBuilder::new().unwrap().build();

    signature
        .verify(
            &certificates,
            &store,
            Some(root_hash.as_bytes()),
            None,
            Pkcs7Flags::BINARY | Pkcs7Flags::NOVERIFY,
        )
        .unwrap();
    assert!(signature
        .verify(
            &certificates,
            &store,
            Some(b"wrong-root-hash"),
            None,
            Pkcs7Flags::BINARY | Pkcs7Flags::NOVERIFY,
        )
        .is_err());
}

#[test]
fn signature_flags_are_those_of_openssl() {
    let detached = Pkcs7Flags::BINARY
        | Pkcs7Flags::DETACHED
        | Pkcs7Flags::NOCERTS
        | Pkcs7Flags::NOATTR
        | Pkcs7Flags::NOSMIMECAP;
    assert_eq!(detached.bits(), DETACHED_SIGNATURE);
    let embedded = Pkcs7Flags::BINARY | Pkcs7Flags::NOATTR | Pkcs7Flags::NOSMIMECAP;
    assert_eq!(embedded.bits(), EMBEDDED_SIGNATURE);
}

#[test]
fn detached_signature_holds_neither_content_nor_certificate() {
    let signer = generate_layer_signer().unwrap();
    let root_hash = "cd".repeat(32);
    let signature = signer.sign(&root_hash).unwrap();
    let holds = |part: &[u8]| signature.windows(part.len()).any(|window| window == part);
    assert!(!holds(root_hash.as_bytes()));
    assert!(!holds(&signer.certificate().public_key().unwrap().rsa().unwrap().n().to_vec()));
}

#[test]
fn signer_certificate_has_the_stated_fields() {
    let signer = generate_layer_signer().unwrap();
    let certificate = signer.certificate();
    assert_eq!(certificate.version(), 2);
    assert_eq!(certificate.serial_number().to_bn().unwrap().to_dec_str().unwrap().to_string(), "1");
    for name in [certificate.subject_name(), certificate.issuer_name()] {
        assert_eq!(name.entries().count(), 1);
        let entry = name.entries_by_nid(Nid::COMMONNAME).next().unwrap();
        assert_eq!(entry.data().as_utf8().unwrap().to_string(), "Kata ephemeral EROFS signer");
    }
    let key = certificate.public_key().unwrap();
    assert_eq!(key.bits(), 2048);
    assert!(certificate.verify(&key).unwrap());
    assert_eq!(
        certificate.signature_algorithm().object().nid(),
        Nid::SHA256WITHRSAENCRYPTION
    );
    let valid = certificate.not_before().diff(certificate.not_after()).unwrap();
    assert_eq!((valid.days, valid.secs), (1, 0));
    let since_start = certificate.not_before().diff(&Asn1Time::days_from_now(0).unwrap()).unwrap();
    assert_eq!(since_start.days, 0);
    assert!((0..60).contains(&since_start.secs));
    let subject_key_id = certificate.subject_key_id().unwrap().as_slice();
    assert_eq!(subject_key_id.len(), 20);
    let authority_key_id = certificate.authority_key_id().map(|id| id.as_slice().to_vec());
    assert!(authority_key_id.map_or(true, |id| id == subject_key_id));
    let text = String::from_utf8(certificate.to_text().unwrap()).unwrap();
    let words: Vec<&str> = text.split_whitespace().collect();
    let text = words.join(" ");
    assert!(text.contains("X509v3 Basic Constraints: critical CA:FALSE"));
    assert!(text.contains("X509v3 Key Usage: critical Digital Signature X509v3"));
    assert!(text.contains("X509v3 Authority Key Identifier:"));
}

#[test]
fn fresh_signers_differ() {
    let first = generate_layer_signer().unwrap();
    let second = generate_layer_signer().unwrap();
    let root_hash = "01";
    let signature = first.sign(root_hash).unwrap();
    assert!(verifies(first.certificate(), &signature, root_hash.as_bytes()));
    let a = first.certificate().public_key().unwrap().public_key_to_der().unwrap();
    let b = second.certificate().public_key().unwrap().public_key_to_der().unwrap();
    assert_ne!(a, b);
}

#[test]
fn only_root_hashes_are_signed() {
    let signer = generate_layer_signer().unwrap();
    for text in ["", "abc", "xy", "ab cd"] {
        assert!(matches!(signer.sign(text), Err(SignerError::InvalidRootHash)));
    }
}

#[test]
fn provisioning_adds_the_certificate_and_seals() {
    let state = new_layer_signer().unwrap();
    let (state, action) =
        continue_provisioning(state, ProvisionEvent::KeysRead(Ok(KEYS.to_string())));
    let certificate = match action {
        ProvisionAction::AddKey(request) => {
            assert_eq!(request.key_type, "asymmetric");
            assert_eq!(request.description, "kata-erofs-ephemeral");
            assert_eq!(request.keyring, 0x1a2b3c4d);
            X509::from_der(&request.payload).unwrap()
        }
        _ => panic!("no key"),
    };
    let (state, action) = continue_provisioning(state, ProvisionEvent::KeyAdded(Ok(99)));
    assert!(matches!(action, ProvisionAction::SealKeyring { keyring: 0x1a2b3c4d }));
    let (state, action) = continue_provisioning(state, ProvisionEvent::KeyringSealed(Ok(())));
    let mut signing = LayerSignerState::new();
    match action {
        ProvisionAction::Ready(signer) => signing.install(signer),
        _ => panic!("not ready"),
    }
    match signing.sign_layer_root_hash("abcd", 1) {
        Ok(SignatureStep::Signed(signature)) => {
            assert!(verifies(&certificate, signature.payload(), b"abcd"))
        }
        _ => panic!("not signed"),
    }
    let (_, action) = continue_provisioning(state, ProvisionEvent::KeyringSealed(Ok(())));
    assert!(matches!(action, ProvisionAction::Fail(SignerError::OutOfOrder)));
}

#[test]
fn signer_is_not_ready_before_the_keyring_is_sealed() {
    let sealed = || ProvisionEvent::KeyringSealed(Ok(()));
    let (_, action) = continue_provisioning(new_layer_signer().unwrap(), sealed());
    assert!(matches!(action, ProvisionAction::Fail(SignerError::OutOfOrder)));
    let (state, _) = continue_provisioning(
        new_layer_signer().unwrap(),
        ProvisionEvent::KeysRead(Ok(KEYS.to_string())),
    );
    let (_, action) = continue_provisioning(state, sealed());
    assert!(matches!(action, ProvisionAction::Fail(SignerError::OutOfOrder)));
}

#[test]
fn unsealed_keyring_loses_the_certificate() {
    let state = new_layer_signer().unwrap();
    let (state, _) = continue_provisioning(state, ProvisionEvent::KeysRead(Ok(KEYS.to_string())));
    let (state, _) = continue_provisioning(state, ProvisionEvent::KeyAdded(Ok(99)));
    let (state, action) =
        continue_provisioning(state, ProvisionEvent::KeyringSealed(Err("denied".to_string())));
    assert!(matches!(action, ProvisionAction::RemoveKey { key: 99, keyring: 0x1a2b3c4d }));
    let (state, action) = continue_provisioning(state, ProvisionEvent::KeyRemoved);
    assert!(matches!(
        action,
        ProvisionAction::Fail(SignerError::KeyringNotSealed(reason)) if reason == "denied"
    ));
    let (_, action) = continue_provisioning(state, ProvisionEvent::KeyringSealed(Ok(())));
    assert!(matches!(action, ProvisionAction::Fail(SignerError::OutOfOrder)));
}

#[test]
fn provisioning_failures_are_told_apart() {
    let state = new_layer_signer().unwrap();
    let (_, action) = continue_provisioning(state, ProvisionEvent::KeysRead(Err("x".to_string())));
    assert!(matches!(
        action,
        ProvisionAction::Fail(SignerError::KeysUnreadable(reason)) if reason == "x"
    ));
    let state = new_layer_signer().unwrap();
    let (_, action) = continue_provisioning(state, ProvisionEvent::KeysRead(Ok(String::new())));
    assert!(matches!(action, ProvisionAction::Fail(SignerError::KeyringUnavailable)));
    let state = new_layer_signer().unwrap();
    let (state, _) = continue_provisioning(state, ProvisionEvent::KeysRead(Ok(KEYS.to_string())));
    let (_, action) = continue_provisioning(state, ProvisionEvent::KeyAdded(Err("y".to_string())));
    assert!(matches!(
        action,
        ProvisionAction::Fail(SignerError::KeyNotAdded(reason)) if reason == "y"
    ));
}

#[test]
fn requests_wait_for_a_signer_and_count_up() {
    let mut state = LayerSignerState::new();
    let root_hash = "ef".repeat(32);
    assert!(matches!(
        state.sign_layer_root_hash(&root_hash, 42),
        Ok(SignatureStep::Provision)
    ));
    let (signer, certificate) = provisioned();
    state.install(signer);
    for sequence in 0..12 {
        match state.sign_layer_root_hash(&root_hash, 42) {
            Ok(SignatureStep::Signed(signature)) => {
                assert_eq!(signature.key_description(), format!("kata-erofs-42-{sequence}"));
                assert!(verifies(&certificate, signature.payload(), root_hash.as_bytes()));
            }
            _ => panic!("not signed"),
        }
    }
    assert!(matches!(
        state.sign_layer_root_hash("nothing", 42),
        Err(SignerError::InvalidRootHash)
    ));
}

#[test]
fn signatures_of_one_history_have_their_own_keys() {
    let mut state = LayerSignerState::new();
    state.install(provisioned().0);
    let mut described = Vec::new();
    for process_id in [1, 11, 1, 4294967295] {
        match state.sign_layer_root_hash("ab", process_id) {
            Ok(SignatureStep::Signed(signature)) => {
                described.push(signature.key_description().to_string())
            }
            _ => panic!("not signed"),
        }
    }
    assert_eq!(
        described,
        vec!["kata-erofs-1-0", "kata-erofs-11-1", "kata-erofs-1-2", "kata-erofs-4294967295-3"]
    );
}

#[test]
fn signatures_are_described_by_process_and_number() {
    let signature = RootHashSignature::new(7, u64::MAX, vec![1, 2, 3]);
    assert_eq!(signature.key_description(), "kata-erofs-7-18446744073709551615");
    assert_eq!(signature.payload(), [1, 2, 3]);
}

#[test]
fn certificate_that_is_not_encoded_is_not_added() {
    let failure = X509::from_der(b"nothing").unwrap_err();
    assert!(matches!(
        certificate_request(Err(failure), 5),
        Err(SignerError::Crypto(error)) if error.context == "encode ephemeral EROFS certificate"
    ));
    let request = certificate_request(Ok(vec![4, 5]), 5).unwrap();
    assert_eq!((request.payload, request.keyring), (vec![4, 5], 5));
}

#[test]
fn finalization_waits_for_signatures_and_destroys_the_key() {
    let mut state = LayerSignerState::new();
    assert!(!state.is_signing());
    assert_eq!(state.begin_finalize(), FinalizeStep::Provision);
    state.install(provisioned().0);
    assert!(state.is_signing());
    assert!(matches!(state.sign_layer_root_hash("ab", 1), Ok(SignatureStep::Signed(_))));
    assert!(matches!(state.sign_layer_root_hash("cd", 1), Ok(SignatureStep::Signed(_))));
    assert_eq!(state.active(), 2);
    assert_eq!(state.begin_finalize(), FinalizeStep::Closed);
    assert!(!state.is_signing());
    assert!(matches!(state.sign_layer_root_hash("ab", 1), Err(SignerError::Finalized)));
    assert!(!state.finish_finalize());
    assert!(!state.release());
    assert!(!state.finish_finalize());
    assert!(state.release());
    assert!(state.release());
    assert!(state.finish_finalize());
    assert_eq!(state.active(), 0);
    assert!(matches!(state.sign_layer_root_hash("ab", 1), Err(SignerError::Finalized)));
    assert!(matches!(state.sign_layer_root_hash("none", 1), Err(SignerError::Finalized)));
    assert_eq!(state.begin_finalize(), FinalizeStep::Provision);
}

#[test]
fn signatures_of_one_history_share_a_certificate() {
    let mut state = LayerSignerState::new();
    let (signer, certificate) = provisioned();
    state.install(signer);
    for root_hash in ["ab", "cdef", "0123456789"] {
        match state.sign_layer_root_hash(root_hash, 3) {
            Ok(SignatureStep::Signed(signature)) => {
                assert!(verifies(&certificate, signature.payload(), root_hash.as_bytes()))
            }
            _ => panic!("not signed"),
        }
        state.release();
    }
}
