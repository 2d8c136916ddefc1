//! Putting the execution policy into force: it is signed, deployed, activated,
//! enforced and then sealed, in this order and never without the step before.

use crate::crypto::{
    der_certificate_parses, in_context, is_signature_encoding, key_parses, parse_der_certificate,
    parse_pem_certificate, parse_private_key, pem_certificate_parses, pkcs7_der, pkcs7_encodes,
    sign_and_encode, signing_outcome, signs, stack_made, with_context, CryptoError, SigningContext,
    EMBEDDED_SIGNATURE,
};
use crate::policy::{
    is_policy_for, law_policy_lists_what_the_cmdline_names, policy_for_cmdline, PolicyError,
};
use crate::root_hash::{cmdline_hashes, RootHashText};
use crate::text::lines;
use openssl::error::ErrorStack;
use openssl::pkcs7::Pkcs7;
use openssl::pkey::{PKey, Private};
use openssl::x509::X509;
use vstd::prelude::*;
use vstd::utf8::encode_utf8;

verus! {

// ---------------------------------------------------------------------------
// Signing the policy
// ---------------------------------------------------------------------------

/// OpenSSL failed with `source` at the step `context`.
pub open spec fn fails_in<T>(
    r: Result<T, CryptoError>,
    context: Seq<char>,
    source: ErrorStack,
) -> bool {
    r matches Err(error) && error.context@ == context && error.source == source
}

/// What the steps of signing a policy are for.
pub open spec fn is_policy_context(context: SigningContext) -> bool {
    &&& context.stack@ == "create PKCS#7 certificate stack"@
    &&& context.sign@ == "sign prototype IPE policy"@
    &&& context.encode@ == "encode prototype IPE policy"@
}

/// What signing a policy with this certificate and key comes to: OpenSSL's
/// signature of it, or OpenSSL's failure.
pub open spec fn signs_policy(
    certificate: X509,
    key: PKey<Private>,
    policy: Seq<u8>,
    r: Result<Vec<u8>, CryptoError>,
) -> bool {
    exists|context: SigningContext|
        is_policy_context(context) && #[trigger] signing_outcome(
            certificate,
            key,
            policy,
            EMBEDDED_SIGNATURE,
            context,
            r,
        )
}

/// What signing a policy with a certificate as it was parsed comes to.
pub open spec fn signs_policy_if_parsed(
    certificate: Result<X509, ErrorStack>,
    key: PKey<Private>,
    policy: Seq<u8>,
    r: Result<Vec<u8>, CryptoError>,
) -> bool {
    match certificate {
        Ok(certificate) => signs_policy(certificate, key, policy, r),
        Err(e) => fails_in(r, "parse prototype IPE certificate"@, e),
    }
}

/// What signing a policy with this key and the certificate in a file comes to.
/// The certificate is in PEM or, failing that, in DER.
pub open spec fn signs_policy_with(
    certificate_data: Seq<u8>,
    key: PKey<Private>,
    policy: Seq<u8>,
    r: Result<Vec<u8>, CryptoError>,
) -> bool {
    exists|pem: Result<X509, ErrorStack>|
        {
            &&& #[trigger] pem_certificate_parses(certificate_data, pem)
            &&& if pem is Ok {
                signs_policy_if_parsed(pem, key, policy, r)
            } else {
                exists|der: Result<X509, ErrorStack>|
                    {
                        &&& #[trigger] der_certificate_parses(certificate_data, der)
                        &&& signs_policy_if_parsed(der, key, policy, r)
                    }
            }
        }
}

/// What signing a policy with the key and the certificate in these files comes
/// to.
pub open spec fn policy_signing(
    policy: Seq<u8>,
    key_data: Seq<u8>,
    certificate_data: Seq<u8>,
    r: Result<Vec<u8>, CryptoError>,
) -> bool {
    exists|key: Result<PKey<Private>, ErrorStack>|
        {
            &&& #[trigger] key_parses(key_data, key)
            &&& match key {
                Ok(key) => signs_policy_with(certificate_data, key, policy, r),
                Err(e) => fails_in(r, "parse prototype IPE private key"@, e),
            }
        }
}

/// A PKCS#7 signature that embeds `policy`, DER-encoded, with the key and the
/// certificate in these files. That the signature verifies is not stated: the
/// two halves of a key from a file need not belong together.
pub fn sign_policy(policy: &[u8], key_data: &[u8], certificate_data: &[u8]) -> (r: Result<
    Vec<u8>,
    CryptoError,
>)
    requires
        policy@.len() <= i32::MAX,
        key_data@.len() <= i32::MAX,
        certificate_data@.len() <= i32::MAX,
    ensures
        policy_signing(policy@, key_data@, certificate_data@, r),
{
    let parsed_key: Result<PKey<Private>, ErrorStack> = parse_private_key(key_data);
    assert(key_parses(key_data@, parsed_key));
    let key: PKey<Private> = match with_context(parsed_key, "parse prototype IPE private key") {
        Ok(key) => key,
        Err(e) => {
            return Err(e);
        },
    };
    let pem: Result<X509, ErrorStack> = parse_pem_certificate(certificate_data);
    assert(pem_certificate_parses(certificate_data@, pem));
    let parsed: Result<X509, ErrorStack> = match pem {
        Ok(certificate) => Ok(certificate),
        Err(_) => {
            let der: Result<X509, ErrorStack> = parse_der_certificate(certificate_data);
            assert(der_certificate_parses(certificate_data@, der));
            der
        },
    };
    let certificate: X509 = match with_context(parsed, "parse prototype IPE certificate") {
        Ok(certificate) => certificate,
        Err(e) => {
            assert(signs_policy_if_parsed(
                parsed,
                key,
                policy@,
                Err::<Vec<u8>, CryptoError>(e),
            ));
            return Err(e);
        },
    };
    let context = SigningContext {
        stack: "create PKCS#7 certificate stack",
        sign: "sign prototype IPE policy",
        encode: "encode prototype IPE policy",
    };
    let r: Result<Vec<u8>, CryptoError> = sign_and_encode(
        &certificate,
        &key,
        policy,
        EMBEDDED_SIGNATURE,
        context,
    );
    assert(signs_policy(certificate, key, policy@, r));
    assert(signs_policy_if_parsed(parsed, key, policy@, r));
    r
}

// ---------------------------------------------------------------------------
// Activation
// ---------------------------------------------------------------------------

/// The kernel command line.
pub const COMMAND_LINE_PATH: &'static str = "/proc/cmdline";

/// The key that signs the policy.
pub const PRIVATE_KEY_PATH: &'static str = "/etc/kata-containers/ipe-prototype/private-key.pem";

/// The certificate of that key.
pub const CERTIFICATE_PATH: &'static str = "/etc/kata-containers/ipe-prototype/certificate.pem";

/// Where securityfs is mounted.
pub const SECURITYFS_PATH: &'static str = "/sys/kernel/security";

/// Takes a new signed policy.
pub const NEW_POLICY_PATH: &'static str = "/sys/kernel/security/ipe/new_policy";

/// Makes the policy the active one.
pub const ACTIVE_PATH: &'static str = "/sys/kernel/security/ipe/policies/kata_verity/active";

/// Turns enforcement on.
pub const ENFORCE_PATH: &'static str = "/sys/kernel/security/ipe/enforce";

/// Forbids any further change.
pub const SEAL_PATH: &'static str = "/sys/kernel/security/ipe/seal";

/// Why the policy is not in force, or not sealed.
#[derive(Debug)]
pub enum ActivationError {
    /// The kernel command line could not be read; with the reason.
    CommandLineUnreadable(String),
    /// There is no policy for the command line.
    Policy(PolicyError),
    /// The private key could not be read; with the reason.
    KeyUnreadable(String),
    /// The certificate could not be read; with the reason.
    CertificateUnreadable(String),
    /// The policy, the key or the certificate is longer than OpenSSL takes.
    TooLong,
    /// OpenSSL failed.
    Crypto(CryptoError),
    /// The mount point could not be created; with the reason.
    MountPointNotCreated(String),
    /// securityfs could not be mounted; with the reason.
    NotMounted(String),
    /// The kernel takes no policies.
    InterfaceUnavailable,
    /// The policy was not deployed; with the reason.
    NotDeployed(String),
    /// The policy was not activated; with the reason.
    NotActivated(String),
    /// Enforcement was not turned on; with the reason.
    NotEnforced(String),
    /// The kernel cannot be sealed.
    SealUnavailable,
    /// The kernel was not sealed; with the reason.
    NotSealed(String),
    /// An event that the state does not wait for.
    OutOfOrder,
}

/// How far activation has come. `hashes` is the number of root hashes that the
/// policy lists.
pub enum ActivationState {
    /// The kernel command line is being read.
    ReadingCommandLine,
    /// The policy is rendered; the key is being read.
    ReadingKey { policy: String, hashes: usize },
    /// The certificate is being read.
    ReadingCertificate { policy: String, hashes: usize, key: Vec<u8> },
    /// The policy is signed; the kernel's interface is being looked for.
    FindingInterface { signed: Vec<u8>, hashes: usize },
    /// It was not found; the mount point is being created.
    CreatingMountPoint { signed: Vec<u8>, hashes: usize },
    /// securityfs is being mounted.
    Mounting { signed: Vec<u8>, hashes: usize },
    /// The interface is being looked for again.
    FindingMountedInterface { signed: Vec<u8>, hashes: usize },
    /// The policy is being deployed.
    Deploying { hashes: usize },
    /// The policy is being activated.
    Activating { hashes: usize },
    /// Enforcement is being turned on.
    Enforcing { hashes: usize },
    /// The interface for sealing is being looked for.
    FindingSeal { hashes: usize },
    /// The kernel is being sealed.
    Sealing { hashes: usize },
    /// Nothing is awaited any more.
    Closed,
}

/// What happened outside.
pub enum ActivationEvent {
    /// The text of a file, or why it could not be read.
    TextRead(Result<String, String>),
    /// The bytes of a file, or why it could not be read.
    BytesRead(Result<Vec<u8>, String>),
    /// Whether a file exists.
    Found(bool),
    /// Something was done, or why not.
    Done(Result<(), String>),
}

/// What is to be done outside.
pub enum ActivationAction {
    /// Read this file as text.
    ReadText { path: &'static str },
    /// Read this file as bytes.
    ReadBytes { path: &'static str },
    /// Look whether this file exists.
    Find { path: &'static str },
    /// Create this directory and those above it.
    CreateDirectory { path: &'static str },
    /// Mount securityfs here, without set-user-id, devices and execution.
    MountSecurityfs { path: &'static str },
    /// Write these bytes into this file, which exists.
    Write { path: &'static str, data: Vec<u8> },
    /// The policy is in force and sealed.
    Complete { hashes: usize },
    /// The policy is not in force, or not sealed.
    Fail(ActivationError),
}

/// OpenSSL takes this many bytes.
pub open spec fn fits(data: Seq<u8>) -> bool {
    data.len() <= i32::MAX
}

/// What is written to switch something on.
pub open spec fn switched_on() -> Seq<u8> {
    seq![0x31u8]
}

/// Activation ends with this error.
pub open spec fn gives_up(
    to: ActivationState,
    action: ActivationAction,
    error: ActivationError,
) -> bool {
    to is Closed && action == ActivationAction::Fail(error)
}

/// `action` reads this file as bytes.
pub open spec fn reads_bytes(action: ActivationAction, file: Seq<char>) -> bool {
    action matches ActivationAction::ReadBytes { path } && path@ == file
}

/// `action` looks for this file.
pub open spec fn finds(action: ActivationAction, file: Seq<char>) -> bool {
    action matches ActivationAction::Find { path } && path@ == file
}

/// `action` writes these bytes into this file.
pub open spec fn writes(action: ActivationAction, file: Seq<char>, content: Seq<u8>) -> bool {
    action matches ActivationAction::Write { path, data } && path@ == file && data@ == content
}

/// The step after the policy was signed, or not.
pub open spec fn signed_step(
    outcome: Result<Vec<u8>, CryptoError>,
    hashes: usize,
    to: ActivationState,
    action: ActivationAction,
) -> bool {
    match outcome {
        Ok(signed) => {
            &&& to == (ActivationState::FindingInterface { signed, hashes })
            &&& finds(action, NEW_POLICY_PATH@)
        },
        Err(e) => gives_up(to, action, ActivationError::Crypto(e)),
    }
}

/// One step of activation.
pub open spec fn activation_step(
    from: ActivationState,
    event: ActivationEvent,
    to: ActivationState,
    action: ActivationAction,
) -> bool {
    match (from, event) {
        (ActivationState::ReadingCommandLine, ActivationEvent::TextRead(Err(reason))) => gives_up(
            to,
            action,
            ActivationError::CommandLineUnreadable(reason),
        ),
        (ActivationState::ReadingCommandLine, ActivationEvent::TextRead(Ok(cmdline))) => {
            if cmdline_hashes(cmdline@).len() == 0 {
                gives_up(to, action, ActivationError::Policy(PolicyError::NoRootHash))
            } else {
                &&& to matches ActivationState::ReadingKey { policy, hashes }
                &&& is_policy_for(cmdline@, policy@, hashes as int)
                &&& reads_bytes(action, PRIVATE_KEY_PATH@)
            }
        },
        (ActivationState::ReadingKey { .. }, ActivationEvent::BytesRead(Err(reason))) => gives_up(
            to,
            action,
            ActivationError::KeyUnreadable(reason),
        ),
        (
            ActivationState::ReadingKey { policy, hashes },
            ActivationEvent::BytesRead(Ok(key)),
        ) => {
            &&& to == (ActivationState::ReadingCertificate { policy, hashes, key })
            &&& reads_bytes(action, CERTIFICATE_PATH@)
        },
        (
            ActivationState::ReadingCertificate { .. },
            ActivationEvent::BytesRead(Err(reason)),
        ) => gives_up(to, action, ActivationError::CertificateUnreadable(reason)),
        (
            ActivationState::ReadingCertificate { policy, hashes, key },
            ActivationEvent::BytesRead(Ok(certificate)),
        ) => {
            let content = encode_utf8(policy@);
            if !fits(content) || !fits(key@) || !fits(certificate@) {
                gives_up(to, action, ActivationError::TooLong)
            } else {
                exists|outcome: Result<Vec<u8>, CryptoError>|
                    {
                        &&& #[trigger] policy_signing(content, key@, certificate@, outcome)
                        &&& signed_step(outcome, hashes, to, action)
                    }
            }
        },
        (
            ActivationState::FindingInterface { signed, hashes },
            ActivationEvent::Found(true),
        ) => {
            &&& to == (ActivationState::Deploying { hashes })
            &&& writes(action, NEW_POLICY_PATH@, signed@)
        },
        (
            ActivationState::FindingInterface { signed, hashes },
            ActivationEvent::Found(false),
        ) => {
            &&& to == (ActivationState::CreatingMountPoint { signed, hashes })
            &&& action matches ActivationAction::CreateDirectory { path }
            &&& path@ == SECURITYFS_PATH@
        },
        (ActivationState::CreatingMountPoint { .. }, ActivationEvent::Done(Err(reason))) => gives_up(
            to,
            action,
            ActivationError::MountPointNotCreated(reason),
        ),
        (
            ActivationState::CreatingMountPoint { signed, hashes },
            ActivationEvent::Done(Ok(_)),
        ) => {
            &&& to == (ActivationState::Mounting { signed, hashes })
            &&& action matches ActivationAction::MountSecurityfs { path }
            &&& path@ == SECURITYFS_PATH@
        },
        (ActivationState::Mounting { .. }, ActivationEvent::Done(Err(reason))) => gives_up(
            to,
            action,
            ActivationError::NotMounted(reason),
        ),
        (ActivationState::Mounting { signed, hashes }, ActivationEvent::Done(Ok(_))) => {
            &&& to == (ActivationState::FindingMountedInterface { signed, hashes })
            &&& finds(action, NEW_POLICY_PATH@)
        },
        (
            ActivationState::FindingMountedInterface { .. },
            ActivationEvent::Found(false),
        ) => gives_up(to, action, ActivationError::InterfaceUnavailable),
        (
            ActivationState::FindingMountedInterface { signed, hashes },
            ActivationEvent::Found(true),
        ) => {
            &&& to == (ActivationState::Deploying { hashes })
            &&& writes(action, NEW_POLICY_PATH@, signed@)
        },
        (ActivationState::Deploying { .. }, ActivationEvent::Done(Err(reason))) => gives_up(
            to,
            action,
            ActivationError::NotDeployed(reason),
        ),
        (ActivationState::Deploying { hashes }, ActivationEvent::Done(Ok(_))) => {
            &&& to == (ActivationState::Activating { hashes })
            &&& writes(action, ACTIVE_PATH@, switched_on())
        },
        (ActivationState::Activating { .. }, ActivationEvent::Done(Err(reason))) => gives_up(
            to,
            action,
            ActivationError::NotActivated(reason),
        ),
        (ActivationState::Activating { hashes }, ActivationEvent::Done(Ok(_))) => {
            &&& to == (ActivationState::Enforcing { hashes })
            &&& writes(action, ENFORCE_PATH@, switched_on())
        },
        (ActivationState::Enforcing { .. }, ActivationEvent::Done(Err(reason))) => gives_up(
            to,
            action,
            ActivationError::NotEnforced(reason),
        ),
        (ActivationState::Enforcing { hashes }, ActivationEvent::Done(Ok(_))) => {
            &&& to == (ActivationState::FindingSeal { hashes })
            &&& finds(action, SEAL_PATH@)
        },
        (ActivationState::FindingSeal { .. }, ActivationEvent::Found(false)) => gives_up(
            to,
            action,
            ActivationError::SealUnavailable,
        ),
        (ActivationState::FindingSeal { hashes }, ActivationEvent::Found(true)) => {
            &&& to == (ActivationState::Sealing { hashes })
            &&& writes(action, SEAL_PATH@, switched_on())
        },
        (ActivationState::Sealing { .. }, ActivationEvent::Done(Err(reason))) => gives_up(
            to,
            action,
            ActivationError::NotSealed(reason),
        ),
        (ActivationState::Sealing { hashes }, ActivationEvent::Done(Ok(_))) => {
            &&& to is Closed
            &&& action == (ActivationAction::Complete { hashes })
        },
        _ => gives_up(to, action, ActivationError::OutOfOrder),
    }
}

/// Starts activation, with the kernel command line.
pub fn activate_and_seal() -> (r: (ActivationState, ActivationAction))
    ensures
        r.0 is ReadingCommandLine,
        r.1 matches ActivationAction::ReadText { path } && path@ == "/proc/cmdline"@,
{
    (ActivationState::ReadingCommandLine, ActivationAction::ReadText { path: COMMAND_LINE_PATH })
}

fn give_up(error: ActivationError) -> (r: (ActivationState, ActivationAction))
    ensures
        gives_up(r.0, r.1, error),
{
    (ActivationState::Closed, ActivationAction::Fail(error))
}

fn switch_on(path: &'static str) -> (r: ActivationAction)
    ensures
        writes(r, path@, switched_on()),
{
    let data: Vec<u8> = vec![0x31u8];
    assert(data@ =~= switched_on());
    ActivationAction::Write { path, data }
}

/// Takes the signed policy, if it could be signed, and looks for the interface
/// that takes it next.
pub fn take_signed_policy(outcome: Result<Vec<u8>, CryptoError>, hashes: usize) -> (r: (
    ActivationState,
    ActivationAction,
))
    ensures
        signed_step(outcome, hashes, r.0, r.1),
{
    match outcome {
        Ok(signed) => (
            ActivationState::FindingInterface { signed, hashes },
            ActivationAction::Find { path: NEW_POLICY_PATH },
        ),
        Err(e) => give_up(ActivationError::Crypto(e)),
    }
}

/// Carries activation one step further.
pub fn continue_activation(state: ActivationState, event: ActivationEvent) -> (r: (
    ActivationState,
    ActivationAction,
))
    ensures
        activation_step(state, event, r.0, r.1),
{
    match (state, event) {
        (
            ActivationState::ReadingCommandLine,
            ActivationEvent::TextRead(Err(reason)),
        ) => give_up(ActivationError::CommandLineUnreadable(reason)),
        (ActivationState::ReadingCommandLine, ActivationEvent::TextRead(Ok(cmdline))) => {
            match policy_for_cmdline(cmdline.as_str()) {
                Err(e) => give_up(ActivationError::Policy(e)),
                Ok((policy, hashes)) => (
                    ActivationState::ReadingKey { policy, hashes },
                    ActivationAction::ReadBytes { path: PRIVATE_KEY_PATH },
                ),
            }
        },
        (
            ActivationState::ReadingKey { policy: _, hashes: _ },
            ActivationEvent::BytesRead(Err(reason)),
        ) => give_up(ActivationError::KeyUnreadable(reason)),
        (
            ActivationState::ReadingKey { policy, hashes },
            ActivationEvent::BytesRead(Ok(key)),
        ) => (
            ActivationState::ReadingCertificate { policy, hashes, key },
            ActivationAction::ReadBytes { path: CERTIFICATE_PATH },
        ),
        (
            ActivationState::ReadingCertificate { policy: _, hashes: _, key: _ },
            ActivationEvent::BytesRead(Err(reason)),
        ) => give_up(ActivationError::CertificateUnreadable(reason)),
        (
            ActivationState::ReadingCertificate { policy, hashes, key },
            ActivationEvent::BytesRead(Ok(certificate)),
        ) => {
            let content: &[u8] = policy.as_str().as_bytes();
            let limit: usize = 0x7fff_ffff;
            if content.len() > limit || key.len() > limit || certificate.len() > limit {
                return give_up(ActivationError::TooLong);
            }
            let outcome: Result<Vec<u8>, CryptoError> = sign_policy(
                content,
                key.as_slice(),
                certificate.as_slice(),
            );
            assert(policy_signing(encode_utf8(policy@), key@, certificate@, outcome));
            take_signed_policy(outcome, hashes)
        },
        (
            ActivationState::FindingInterface { signed, hashes },
            ActivationEvent::Found(found),
        ) => {
            if found {
                (
                    ActivationState::Deploying { hashes },
                    ActivationAction::Write { path: NEW_POLICY_PATH, data: signed },
                )
            } else {
                (
                    ActivationState::CreatingMountPoint { signed, hashes },
                    ActivationAction::CreateDirectory { path: SECURITYFS_PATH },
                )
            }
        },
        (
            ActivationState::CreatingMountPoint { signed: _, hashes: _ },
            ActivationEvent::Done(Err(reason)),
        ) => give_up(ActivationError::MountPointNotCreated(reason)),
        (
            ActivationState::CreatingMountPoint { signed, hashes },
            ActivationEvent::Done(Ok(_)),
        ) => (
            ActivationState::Mounting { signed, hashes },
            ActivationAction::MountSecurityfs { path: SECURITYFS_PATH },
        ),
        (
            ActivationState::Mounting { signed: _, hashes: _ },
            ActivationEvent::Done(Err(reason)),
        ) => give_up(ActivationError::NotMounted(reason)),
        (ActivationState::Mounting { signed, hashes }, ActivationEvent::Done(Ok(_))) => (
            ActivationState::FindingMountedInterface { signed, hashes },
            ActivationAction::Find { path: NEW_POLICY_PATH },
        ),
        (
            ActivationState::FindingMountedInterface { signed, hashes },
            ActivationEvent::Found(found),
        ) => {
            if found {
                (
                    ActivationState::Deploying { hashes },
                    ActivationAction::Write { path: NEW_POLICY_PATH, data: signed },
                )
            } else {
                give_up(ActivationError::InterfaceUnavailable)
            }
        },
        (ActivationState::Deploying { hashes: _ }, ActivationEvent::Done(Err(reason))) => give_up(
            ActivationError::NotDeployed(reason),
        ),
        (ActivationState::Deploying { hashes }, ActivationEvent::Done(Ok(_))) => (
            ActivationState::Activating { hashes },
            switch_on(ACTIVE_PATH),
        ),
        (ActivationState::Activating { hashes: _ }, ActivationEvent::Done(Err(reason))) => give_up(
            ActivationError::NotActivated(reason),
        ),
        (ActivationState::Activating { hashes }, ActivationEvent::Done(Ok(_))) => (
            ActivationState::Enforcing { hashes },
            switch_on(ENFORCE_PATH),
        ),
        (ActivationState::Enforcing { hashes: _ }, ActivationEvent::Done(Err(reason))) => give_up(
            ActivationError::NotEnforced(reason),
        ),
        (ActivationState::Enforcing { hashes }, ActivationEvent::Done(Ok(_))) => (
            ActivationState::FindingSeal { hashes },
            ActivationAction::Find { path: SEAL_PATH },
        ),
        (ActivationState::FindingSeal { hashes }, ActivationEvent::Found(found)) => {
            if found {
                (ActivationState::Sealing { hashes }, switch_on(SEAL_PATH))
            } else {
                give_up(ActivationError::SealUnavailable)
            }
        },
        (ActivationState::Sealing { hashes: _ }, ActivationEvent::Done(Err(reason))) => give_up(
            ActivationError::NotSealed(reason),
        ),
        (ActivationState::Sealing { hashes }, ActivationEvent::Done(Ok(_))) => (
            ActivationState::Closed,
            ActivationAction::Complete { hashes },
        ),
        _ => give_up(ActivationError::OutOfOrder),
    }
}

// ---------------------------------------------------------------------------
// Laws of activation
// ---------------------------------------------------------------------------

/// A step of activation that was taken.
pub struct ActivationTransition {
    pub from: ActivationState,
    pub event: ActivationEvent,
    pub to: ActivationState,
    pub action: ActivationAction,
}

/// Steps that were taken one after another, from the start of activation.
pub open spec fn activation_run(run: Seq<ActivationTransition>) -> bool {
    &&& run.len() > 0
    &&& run[0].from is ReadingCommandLine
    &&& forall|i: int|
        #![trigger run[i]]
        0 <= i < run.len() ==> activation_step(run[i].from, run[i].event, run[i].to, run[i].action)
    &&& forall|i: int| #![trigger run[i]] 0 < i < run.len() ==> run[i].from == run[i - 1].to
}

/// The command line that was read at the start of `run`.
pub open spec fn command_line(run: Seq<ActivationTransition>) -> Seq<char> {
    match run[0].event {
        ActivationEvent::TextRead(Ok(cmdline)) => cmdline@,
        _ => seq![],
    }
}

/// What `run` wrote, and where, in this order.
pub open spec fn written(run: Seq<ActivationTransition>) -> Seq<(Seq<char>, Seq<u8>)>
    decreases run.len(),
{
    if run.len() == 0 {
        seq![]
    } else {
        match run.last().action {
            ActivationAction::Write { path, data } => written(run.drop_last()).push(
                (path@, data@),
            ),
            _ => written(run.drop_last()),
        }
    }
}

/// The files that activation writes, in this order.
pub open spec fn write_order() -> Seq<Seq<char>> {
    seq![NEW_POLICY_PATH@, ACTIVE_PATH@, ENFORCE_PATH@, SEAL_PATH@]
}

/// The key file that was read in `run`, after the command line.
pub open spec fn key_file(run: Seq<ActivationTransition>) -> Seq<u8> {
    match run[1].event {
        ActivationEvent::BytesRead(Ok(key)) => key@,
        _ => seq![],
    }
}

/// The certificate file that was read in `run`, after the key.
pub open spec fn certificate_file(run: Seq<ActivationTransition>) -> Seq<u8> {
    match run[2].event {
        ActivationEvent::BytesRead(Ok(certificate)) => certificate@,
        _ => seq![],
    }
}

/// `data` is what OpenSSL gave as the signature of the policy for this command
/// line, with the key and the certificate in these files.
pub open spec fn is_signed_policy(
    cmdline: Seq<char>,
    key: Seq<u8>,
    certificate: Seq<u8>,
    data: Seq<u8>,
) -> bool {
    exists|policy: Seq<char>, signed: Vec<u8>|
        {
            &&& is_policy_for(cmdline, policy, cmdline_hashes(cmdline).len() as int)
            &&& #[trigger] policy_signing(encode_utf8(policy), key, certificate, Ok(signed))
            &&& signed@ == data
        }
}

/// These writes deploy the signed policy for the command line, activate it, turn
/// enforcement on and seal the kernel, in this order, as far as they go.
pub open spec fn in_order(
    content: Seq<(Seq<char>, Seq<u8>)>,
    cmdline: Seq<char>,
    key: Seq<u8>,
    certificate: Seq<u8>,
) -> bool {
    &&& content.len() <= write_order().len()
    &&& forall|i: int|
        0 <= i < content.len() ==> (#[trigger] content[i]).0 == write_order()[i]
    &&& content.len() > 0 ==> is_signed_policy(cmdline, key, certificate, content[0].1)
    &&& forall|i: int| 0 < i < content.len() ==> (#[trigger] content[i]).1 == switched_on()
}

spec fn reached(
    state: ActivationState,
    steps: nat,
    cmdline: Seq<char>,
    key: Seq<u8>,
    certificate: Seq<u8>,
    content: Seq<(Seq<char>, Seq<u8>)>,
) -> bool {
    let count = cmdline_hashes(cmdline).len();
    &&& in_order(content, cmdline, key, certificate)
    &&& content.len() > 0 ==> steps > 3
    &&& match state {
        ActivationState::ReadingCommandLine => false,
        ActivationState::ReadingKey { policy, hashes } => {
            &&& steps == 1
            &&& content.len() == 0
            &&& hashes == count
            &&& is_policy_for(cmdline, policy@, hashes as int)
        },
        ActivationState::ReadingCertificate { policy, hashes, key: read } => {
            &&& steps == 2
            &&& content.len() == 0
            &&& hashes == count
            &&& is_policy_for(cmdline, policy@, hashes as int)
            &&& read@ == key
        },
        ActivationState::FindingInterface { signed, hashes } => {
            &&& steps >= 3
            &&& content.len() == 0
            &&& hashes == count
            &&& is_signed_policy(cmdline, key, certificate, signed@)
        },
        ActivationState::CreatingMountPoint { signed, hashes } => {
            &&& steps >= 3
            &&& content.len() == 0
            &&& hashes == count
            &&& is_signed_policy(cmdline, key, certificate, signed@)
        },
        ActivationState::Mounting { signed, hashes } => {
            &&& steps >= 3
            &&& content.len() == 0
            &&& hashes == count
            &&& is_signed_policy(cmdline, key, certificate, signed@)
        },
        ActivationState::FindingMountedInterface { signed, hashes } => {
            &&& steps >= 3
            &&& content.len() == 0
            &&& hashes == count
            &&& is_signed_policy(cmdline, key, certificate, signed@)
        },
        ActivationState::Deploying { hashes } => content.len() == 1 && hashes == count,
        ActivationState::Activating { hashes } => content.len() == 2 && hashes == count,
        ActivationState::Enforcing { hashes } => content.len() == 3 && hashes == count,
        ActivationState::FindingSeal { hashes } => content.len() == 3 && hashes == count,
        ActivationState::Sealing { hashes } => content.len() == 4 && hashes == count,
        ActivationState::Closed => true,
    }
}

proof fn lemma_step_reaches(
    run: Seq<ActivationTransition>,
    before: Seq<(Seq<char>, Seq<u8>)>,
    after: Seq<(Seq<char>, Seq<u8>)>,
)
    requires
        run.len() > 1,
        reached(
            run.last().from,
            (run.len() - 1) as nat,
            command_line(run),
            key_file(run),
            certificate_file(run),
            before,
        ),
        activation_step(run.last().from, run.last().event, run.last().to, run.last().action),
        after == (match run.last().action {
            ActivationAction::Write { path, data } => before.push((path@, data@)),
            _ => before,
        }),
    ensures
        reached(
            run.last().to,
            run.len(),
            command_line(run),
            key_file(run),
            certificate_file(run),
            after,
        ),
        run.last().action matches ActivationAction::Complete { hashes } ==> {
            &&& after.len() == 4
            &&& hashes == cmdline_hashes(command_line(run)).len()
            &&& run.last().event matches ActivationEvent::Done(Ok(_))
        },
{
    let step = run.last();
    match (step.from, step.event) {
        (
            ActivationState::ReadingCertificate { policy, hashes, key },
            ActivationEvent::BytesRead(Ok(certificate)),
        ) => {
            if step.to is FindingInterface {
                let signed = step.to->FindingInterface_signed;
                assert(policy_signing(encode_utf8(policy@), key@, certificate@, Ok(signed)));
                assert(certificate@ == certificate_file(run));
                assert(is_signed_policy(
                    command_line(run),
                    key_file(run),
                    certificate_file(run),
                    signed@,
                ));
            }
        },
        _ => {},
    }
}

proof fn lemma_run_reaches(run: Seq<ActivationTransition>)
    requires
        activation_run(run),
    ensures
        reached(
            run.last().to,
            run.len(),
            command_line(run),
            key_file(run),
            certificate_file(run),
            written(run),
        ),
        run.last().action matches ActivationAction::Complete { hashes } ==> {
            &&& written(run).len() == 4
            &&& hashes == cmdline_hashes(command_line(run)).len()
            &&& run.last().event matches ActivationEvent::Done(Ok(_))
        },
    decreases run.len(),
{
    let n = run.len() as int;
    let earlier = run.drop_last();
    assert(activation_step(run[n - 1].from, run[n - 1].event, run[n - 1].to, run[n - 1].action));
    if n == 1 {
        assert(written(earlier) =~= seq![]);
    } else {
        assert(run[n - 1].from == run[n - 2].to);
        assert forall|i: int| #![trigger earlier[i]] 0 <= i < earlier.len() implies activation_step(
            earlier[i].from,
            earlier[i].event,
            earlier[i].to,
            earlier[i].action,
        ) by {
            assert(earlier[i] == run[i]);
        }
        assert forall|i: int| #![trigger earlier[i]] 0 < i < earlier.len() implies earlier[i].from
            == earlier[i - 1].to by {
            assert(earlier[i] == run[i]);
        }
        lemma_run_reaches(earlier);
        assert(command_line(earlier) == command_line(run));
        if n > 2 {
            assert(earlier[1] == run[1]);
        }
        if n > 3 {
            assert(earlier[2] == run[2]);
        }
        lemma_step_reaches(run, written(earlier), written(run));
    }
}

/// However activation runs, it writes the policy for the command line that it
/// read, signed with the key and the certificate that it read, before it
/// activates it, activates it before it turns enforcement on, and seals the
/// kernel last; and it completes only when all of this was done.
pub proof fn law_activation_writes_in_order(run: Seq<ActivationTransition>)
    requires
        activation_run(run),
    ensures
        in_order(written(run), command_line(run), key_file(run), certificate_file(run)),
        run.last().action matches ActivationAction::Complete { hashes } ==> {
            &&& written(run).len() == write_order().len()
            &&& hashes == cmdline_hashes(command_line(run)).len()
            &&& run.last().event matches ActivationEvent::Done(Ok(_))
        },
{
    lemma_run_reaches(run);
}

/// A write comes only after every write before it was done, and so does
/// completion: the answer to each earlier write was success.
pub proof fn law_each_write_follows_a_success(run: Seq<ActivationTransition>, i: int, j: int)
    requires
        activation_run(run),
        0 <= i < j < run.len(),
        run[i].action is Write,
        run[j].action is Write || run[j].action is Complete,
    ensures
        run[i + 1].event matches ActivationEvent::Done(Ok(_)),
{
    assert(activation_step(run[i].from, run[i].event, run[i].to, run[i].action));
    assert(run[i + 1].from == run[i].to);
    assert(activation_step(
        run[i + 1].from,
        run[i + 1].event,
        run[i + 1].to,
        run[i + 1].action,
    ));
    if run[i + 1].action is Fail && i + 1 < j {
        law_nothing_is_done_after_the_end(run, i + 1, j);
    }
}

/// After a failure, and after completion, nothing is done any more.
pub proof fn law_nothing_is_done_after_the_end(run: Seq<ActivationTransition>, i: int, j: int)
    requires
        activation_run(run),
        0 <= i < j < run.len(),
        run[i].action is Fail || run[i].action is Complete,
    ensures
        run[j].to is Closed,
        run[j].action == ActivationAction::Fail(ActivationError::OutOfOrder),
    decreases j - i,
{
    assert(activation_step(run[i].from, run[i].event, run[i].to, run[i].action));
    assert(activation_step(run[j].from, run[j].event, run[j].to, run[j].action));
    assert(run[j].from == run[j - 1].to);
    if i < j - 1 {
        law_nothing_is_done_after_the_end(run, i, j - 1);
    }
}

// ---------------------------------------------------------------------------
// Laws, written out
// ---------------------------------------------------------------------------

/// In `run` the command line was read and names root hashes, and a key and a
/// certificate were read and served to sign the policy.
pub open spec fn has_signed(
    run: Seq<ActivationTransition>,
    cmdline: String,
    key: Vec<u8>,
    certificate: Vec<u8>,
) -> bool {
    &&& activation_run(run)
    &&& run.len() >= 3
    &&& run[0].event == ActivationEvent::TextRead(Ok(cmdline))
    &&& cmdline_hashes(cmdline@).len() > 0
    &&& run[1].event == ActivationEvent::BytesRead(Ok(key))
    &&& run[2].event == ActivationEvent::BytesRead(Ok(certificate))
    &&& !(run[2].action is Fail)
}

/// `event` reports a success.
pub open spec fn done(event: ActivationEvent) -> bool {
    event matches ActivationEvent::Done(Ok(_))
}

proof fn lemma_signed(
    run: Seq<ActivationTransition>,
    cmdline: String,
    key: Vec<u8>,
    certificate: Vec<u8>,
)
    requires
        has_signed(run, cmdline, key, certificate),
    ensures
        run[0].action matches ActivationAction::ReadBytes { path } && path@
            == "/etc/kata-containers/ipe-prototype/private-key.pem"@,
        run[1].action matches ActivationAction::ReadBytes { path } && path@
            == "/etc/kata-containers/ipe-prototype/certificate.pem"@,
        run[2].action matches ActivationAction::Find { path } && path@
            == "/sys/kernel/security/ipe/new_policy"@,
        run[2].to matches ActivationState::FindingInterface { signed, hashes } && hashes
            == cmdline_hashes(cmdline@).len() && is_signed_policy(
            cmdline@,
            key@,
            certificate@,
            signed@,
        ),
{
    assert(activation_step(run[0].from, run[0].event, run[0].to, run[0].action));
    assert(run[1].from == run[0].to);
    assert(activation_step(run[1].from, run[1].event, run[1].to, run[1].action));
    assert(run[2].from == run[1].to);
    assert(activation_step(run[2].from, run[2].event, run[2].to, run[2].action));
    let short = run.take(3);
    assert(activation_run(short)) by {
        assert forall|i: int| #![trigger short[i]] 0 <= i < short.len() implies activation_step(
            short[i].from,
            short[i].event,
            short[i].to,
            short[i].action,
        ) by {
            assert(short[i] == run[i]);
        }
        assert forall|i: int| #![trigger short[i]] 0 < i < short.len() implies short[i].from
            == short[i - 1].to by {
            assert(short[i] == run[i]);
        }
    }
    lemma_run_reaches(short);
    assert(short.last() == run[2]);
}

/// Where everything that is asked for is done, activation writes the signed
/// policy, then a `1` each to activate it, to enforce it and, once the seal is
/// found, to seal the kernel; and it completes with the number of root hashes.
pub proof fn law_activation_goes_through(
    run: Seq<ActivationTransition>,
    cmdline: String,
    key: Vec<u8>,
    certificate: Vec<u8>,
)
    requires
        has_signed(run, cmdline, key, certificate),
        run.len() == 9,
        run[3].event == ActivationEvent::Found(true),
        done(run[4].event),
        done(run[5].event),
        done(run[6].event),
        run[7].event == ActivationEvent::Found(true),
        done(run[8].event),
    ensures
        run[0].action matches ActivationAction::ReadBytes { path } && path@
            == "/etc/kata-containers/ipe-prototype/private-key.pem"@,
        run[1].action matches ActivationAction::ReadBytes { path } && path@
            == "/etc/kata-containers/ipe-prototype/certificate.pem"@,
        run[2].action matches ActivationAction::Find { path } && path@
            == "/sys/kernel/security/ipe/new_policy"@,
        run[3].action matches ActivationAction::Write { path, data } && path@
            == "/sys/kernel/security/ipe/new_policy"@ && is_signed_policy(
            cmdline@,
            key@,
            certificate@,
            data@,
        ),
        run[4].action matches ActivationAction::Write { path, data } && path@
            == "/sys/kernel/security/ipe/policies/kata_verity/active"@ && data@ == seq![0x31u8],
        run[5].action matches ActivationAction::Write { path, data } && path@
            == "/sys/kernel/security/ipe/enforce"@ && data@ == seq![0x31u8],
        run[6].action matches ActivationAction::Find { path } && path@
            == "/sys/kernel/security/ipe/seal"@,
        run[7].action matches ActivationAction::Write { path, data } && path@
            == "/sys/kernel/security/ipe/seal"@ && data@ == seq![0x31u8],
        run[8].action matches ActivationAction::Complete { hashes } && hashes == cmdline_hashes(
            cmdline@,
        ).len(),
{
    lemma_signed(run, cmdline, key, certificate);
    assert(run[3].from == run[2].to);
    assert(activation_step(run[3].from, run[3].event, run[3].to, run[3].action));
    assert(run[4].from == run[3].to);
    assert(activation_step(run[4].from, run[4].event, run[4].to, run[4].action));
    assert(run[5].from == run[4].to);
    assert(activation_step(run[5].from, run[5].event, run[5].to, run[5].action));
    assert(run[6].from == run[5].to);
    assert(activation_step(run[6].from, run[6].event, run[6].to, run[6].action));
    assert(run[7].from == run[6].to);
    assert(activation_step(run[7].from, run[7].event, run[7].to, run[7].action));
    assert(run[8].from == run[7].to);
    assert(activation_step(run[8].from, run[8].event, run[8].to, run[8].action));
}

/// Where the interface is missing, the mount point is created, securityfs is
/// mounted there, and the interface is looked for again; if it is there then,
/// activation goes on as if it had been there before.
pub proof fn law_missing_interface_is_mounted(
    run: Seq<ActivationTransition>,
    cmdline: String,
    key: Vec<u8>,
    certificate: Vec<u8>,
)
    requires
        has_signed(run, cmdline, key, certificate),
        run.len() == 7,
        run[3].event == ActivationEvent::Found(false),
        done(run[4].event),
        done(run[5].event),
        run[6].event == ActivationEvent::Found(true),
    ensures
        run[3].action matches ActivationAction::CreateDirectory { path } && path@
            == "/sys/kernel/security"@,
        run[4].action matches ActivationAction::MountSecurityfs { path } && path@
            == "/sys/kernel/security"@,
        run[5].action matches ActivationAction::Find { path } && path@
            == "/sys/kernel/security/ipe/new_policy"@,
        run[6].action matches ActivationAction::Write { path, data } && path@
            == "/sys/kernel/security/ipe/new_policy"@ && is_signed_policy(
            cmdline@,
            key@,
            certificate@,
            data@,
        ),
        run[6].to matches ActivationState::Deploying { hashes } && hashes == cmdline_hashes(
            cmdline@,
        ).len(),
{
    lemma_signed(run, cmdline, key, certificate);
    assert(run[3].from == run[2].to);
    assert(activation_step(run[3].from, run[3].event, run[3].to, run[3].action));
    assert(run[4].from == run[3].to);
    assert(activation_step(run[4].from, run[4].event, run[4].to, run[4].action));
    assert(run[5].from == run[4].to);
    assert(activation_step(run[5].from, run[5].event, run[5].to, run[5].action));
    assert(run[6].from == run[5].to);
    assert(activation_step(run[6].from, run[6].event, run[6].to, run[6].action));
}

/// What is not done outside ends activation, with the error of that step and the
/// reason that was given; so does an interface that is missing, and an answer to
/// what was not asked.
pub proof fn law_activation_failures(step: ActivationTransition, reason: String)
    requires
        activation_step(step.from, step.event, step.to, step.action),
    ensures
        step.action is Fail ==> step.to is Closed,
        ({
            ||| step.from is ReadingCommandLine && step.event is TextRead
            ||| (step.from is ReadingKey || step.from is ReadingCertificate)
                && step.event is BytesRead
            ||| (step.from is FindingInterface || step.from is FindingMountedInterface
                || step.from is FindingSeal) && step.event is Found
            ||| (step.from is CreatingMountPoint || step.from is Mounting || step.from is Deploying
                || step.from is Activating || step.from is Enforcing || step.from is Sealing)
                && step.event is Done
            ||| step.action == ActivationAction::Fail(ActivationError::OutOfOrder)
        }),
        step.from is ReadingCommandLine && step.event == ActivationEvent::TextRead(Err(reason))
            ==> step.action == ActivationAction::Fail(
            ActivationError::CommandLineUnreadable(reason),
        ),
        step.event matches ActivationEvent::TextRead(Ok(cmdline)) ==> (step.from
            is ReadingCommandLine && cmdline_hashes(cmdline@).len() == 0 ==> step.action
            == ActivationAction::Fail(ActivationError::Policy(PolicyError::NoRootHash))),
        step.from is ReadingKey && step.event == ActivationEvent::BytesRead(Err(reason))
            ==> step.action == ActivationAction::Fail(ActivationError::KeyUnreadable(reason)),
        step.from is ReadingCertificate && step.event == ActivationEvent::BytesRead(Err(reason))
            ==> step.action == ActivationAction::Fail(
            ActivationError::CertificateUnreadable(reason),
        ),
        step.from is CreatingMountPoint && step.event == ActivationEvent::Done(Err(reason))
            ==> step.action == ActivationAction::Fail(
            ActivationError::MountPointNotCreated(reason),
        ),
        step.from is Mounting && step.event == ActivationEvent::Done(Err(reason)) ==> step.action
            == ActivationAction::Fail(ActivationError::NotMounted(reason)),
        step.from is FindingMountedInterface && step.event == ActivationEvent::Found(false)
            ==> step.action == ActivationAction::Fail(ActivationError::InterfaceUnavailable),
        step.from is Deploying && step.event == ActivationEvent::Done(Err(reason)) ==> step.action
            == ActivationAction::Fail(ActivationError::NotDeployed(reason)),
        step.from is Activating && step.event == ActivationEvent::Done(Err(reason)) ==> step.action
            == ActivationAction::Fail(ActivationError::NotActivated(reason)),
        step.from is Enforcing && step.event == ActivationEvent::Done(Err(reason)) ==> step.action
            == ActivationAction::Fail(ActivationError::NotEnforced(reason)),
        step.from is FindingSeal && step.event == ActivationEvent::Found(false) ==> step.action
            == ActivationAction::Fail(ActivationError::SealUnavailable),
        step.from is Sealing && step.event == ActivationEvent::Done(Err(reason)) ==> step.action
            == ActivationAction::Fail(ActivationError::NotSealed(reason)),
{
}

/// With key and certificate read, activation fails only because one of the texts
/// is longer than 2147483647 bytes, or because OpenSSL fails; otherwise it goes
/// on with the signed policy.
pub proof fn law_signing_decides(
    policy: String,
    hashes: usize,
    key: Vec<u8>,
    certificate: Vec<u8>,
    to: ActivationState,
    action: ActivationAction,
)
    requires
        activation_step(
            ActivationState::ReadingCertificate { policy, hashes, key },
            ActivationEvent::BytesRead(Ok(certificate)),
            to,
            action,
        ),
    ensures
        ({
            let content = encode_utf8(policy@);
            let too_long = content.len() > 2147483647 || key@.len() > 2147483647
                || certificate@.len() > 2147483647;
            &&& too_long ==> action == ActivationAction::Fail(ActivationError::TooLong)
            &&& !too_long ==> {
                ||| {
                    &&& to matches ActivationState::FindingInterface { signed, hashes: count }
                    &&& count == hashes
                    &&& policy_signing(content, key@, certificate@, Ok(signed))
                }
                ||| {
                    &&& action matches ActivationAction::Fail(ActivationError::Crypto(e))
                    &&& policy_signing(content, key@, certificate@, Err(e))
                }
            }
        }),
{
}

/// A signed policy is the encoding of OpenSSL's signature, with the content in
/// it, of the policy, with the key in the key file and the certificate in the
/// certificate file: the one in PEM there or, if there is none, the one in DER.
pub proof fn law_signed_policies_are_made_by_openssl(
    policy: Seq<u8>,
    key_data: Seq<u8>,
    certificate_data: Seq<u8>,
    signed: Vec<u8>,
)
    requires
        policy_signing(policy, key_data, certificate_data, Ok(signed)),
    ensures
        exists|key: PKey<Private>, certificate: X509, structure: Pkcs7|
            {
                &&& key_parses(key_data, Ok(key))
                &&& {
                    ||| pem_certificate_parses(certificate_data, Ok(certificate))
                    ||| {
                        &&& exists|e: ErrorStack| #[trigger]
                            pem_certificate_parses(certificate_data, Err(e))
                        &&& der_certificate_parses(certificate_data, Ok(certificate))
                    }
                }
                &&& #[trigger] signs(certificate, key, seq![], policy, 0x380, Ok(structure))
                &&& signed@ == pkcs7_der(structure)
            },
{
    let r: Result<Vec<u8>, CryptoError> = Ok(signed);
    let key = choose|key: PKey<Private>|
        key_parses(key_data, Ok(key)) && #[trigger] signs_policy_with(
            certificate_data,
            key,
            policy,
            r,
        );
    let pem = choose|pem: Result<X509, ErrorStack>|
        {
            &&& #[trigger] pem_certificate_parses(certificate_data, pem)
            &&& if pem is Ok {
                signs_policy_if_parsed(pem, key, policy, r)
            } else {
                exists|der: Result<X509, ErrorStack>|
                    {
                        &&& #[trigger] der_certificate_parses(certificate_data, der)
                        &&& signs_policy_if_parsed(der, key, policy, r)
                    }
            }
        };
    let parsed = if pem is Ok {
        pem
    } else {
        choose|der: Result<X509, ErrorStack>|
            {
                &&& #[trigger] der_certificate_parses(certificate_data, der)
                &&& signs_policy_if_parsed(der, key, policy, r)
            }
    };
    let certificate = parsed->Ok_0;
    assert(parsed == Ok::<X509, ErrorStack>(certificate));
    if pem is Err {
        assert(pem_certificate_parses(certificate_data, Err(pem->Err_0)));
    }
    assert(signs_policy(certificate, key, policy, r));
    let context = choose|context: SigningContext|
        is_policy_context(context) && #[trigger] signing_outcome(
            certificate,
            key,
            policy,
            EMBEDDED_SIGNATURE,
            context,
            r,
        );
    assert(signing_outcome(certificate, key, policy, EMBEDDED_SIGNATURE, context, r));
    let made = choose|made: Result<Pkcs7, ErrorStack>|
        {
            &&& #[trigger] signs(certificate, key, seq![], policy, EMBEDDED_SIGNATURE, made)
            &&& match made {
                Err(e) => in_context(Err::<Vec<u8>, ErrorStack>(e), context.sign@, r),
                Ok(structure) => exists|encoded: Result<Vec<u8>, ErrorStack>|
                    {
                        &&& #[trigger] is_signature_encoding(encoded, structure)
                        &&& in_context(encoded, context.encode@, r)
                    },
            }
        };
    let structure = made->Ok_0;
    assert(made == Ok::<Pkcs7, ErrorStack>(structure));
    assert(signs(certificate, key, seq![], policy, 0x380, Ok(structure)));
}

/// What is deployed for a command line is OpenSSL's signature, with the content in
/// it and with the key in the key file, of a policy that allows execution from
/// every root hash which the command line names, in lines of its own beside four
/// others.
pub proof fn law_signed_policy_is_for_the_command_line(
    cmdline: Seq<char>,
    key_data: Seq<u8>,
    certificate_data: Seq<u8>,
    data: Seq<u8>,
)
    requires
        is_signed_policy(cmdline, key_data, certificate_data, data),
    ensures
        exists|policy: Seq<char>, key: PKey<Private>, certificate: X509, structure: Pkcs7|
            {
                &&& lines(policy).len() == cmdline_hashes(cmdline).len() + 4
                &&& forall|hash: RootHashText| #[trigger]
                    cmdline_hashes(cmdline).contains(hash) ==> lines(policy).contains(
                        "op=EXECUTE dmverity_roothash="@ + hash.0 + ":"@ + hash.1
                            + " action=ALLOW"@,
                    )
                &&& key_parses(key_data, Ok(key))
                &&& #[trigger] signs(
                    certificate,
                    key,
                    seq![],
                    encode_utf8(policy),
                    0x380,
                    Ok(structure),
                )
                &&& data == pkcs7_der(structure)
            },
{
    let count = cmdline_hashes(cmdline).len() as int;
    let (policy, signed) = choose|policy: Seq<char>, signed: Vec<u8>|
        {
            &&& is_policy_for(cmdline, policy, count)
            &&& #[trigger] policy_signing(
                encode_utf8(policy),
                key_data,
                certificate_data,
                Ok(signed),
            )
            &&& signed@ == data
        };
    law_policy_lists_what_the_cmdline_names(cmdline, policy, count);
    law_signed_policies_are_made_by_openssl(
        encode_utf8(policy),
        key_data,
        certificate_data,
        signed,
    );
}

/// Where activation finds its files.
pub proof fn law_files()
    ensures
        COMMAND_LINE_PATH@ == "/proc/cmdline"@,
        PRIVATE_KEY_PATH@ == "/etc/kata-containers/ipe-prototype/private-key.pem"@,
        CERTIFICATE_PATH@ == "/etc/kata-containers/ipe-prototype/certificate.pem"@,
        SECURITYFS_PATH@ == "/sys/kernel/security"@,
        NEW_POLICY_PATH@ == "/sys/kernel/security/ipe/new_policy"@,
        ACTIVE_PATH@ == "/sys/kernel/security/ipe/policies/kata_verity/active"@,
        ENFORCE_PATH@ == "/sys/kernel/security/ipe/enforce"@,
        SEAL_PATH@ == "/sys/kernel/security/ipe/seal"@,
{
}

/// Signing a policy fails only where OpenSSL does, and the error says at which
/// step and with what.
pub proof fn law_policy_signing_failures(
    policy: Seq<u8>,
    key_data: Seq<u8>,
    certificate_data: Seq<u8>,
    e: CryptoError,
)
    requires
        policy_signing(policy, key_data, certificate_data, Err(e)),
    ensures
        ({
            ||| e.context@ == "parse prototype IPE private key"@ && key_parses(
                key_data,
                Err(e.source),
            )
            ||| e.context@ == "parse prototype IPE certificate"@ && der_certificate_parses(
                certificate_data,
                Err(e.source),
            )
            ||| e.context@ == "create PKCS#7 certificate stack"@ && stack_made(Err(e.source))
            ||| e.context@ == "sign prototype IPE policy"@ && exists|
                certificate: X509,
                key: PKey<Private>,
            | #[trigger] signs(certificate, key, seq![], policy, 0x380, Err(e.source))
            ||| e.context@ == "encode prototype IPE policy"@ && exists|structure: Pkcs7| #[trigger]
                pkcs7_encodes(structure, Err(e.source))
        }),
{
    let r: Result<Vec<u8>, CryptoError> = Err(e);
    let parsed_key = choose|key: Result<PKey<Private>, ErrorStack>|
        {
            &&& #[trigger] key_parses(key_data, key)
            &&& match key {
                Ok(key) => signs_policy_with(certificate_data, key, policy, r),
                Err(x) => fails_in(r, "parse prototype IPE private key"@, x),
            }
        };
    if parsed_key is Err {
        assert(parsed_key == Err::<PKey<Private>, ErrorStack>(e.source));
    } else {
        let key = parsed_key->Ok_0;
        assert(signs_policy_with(certificate_data, key, policy, r));
        let pem = choose|pem: Result<X509, ErrorStack>|
            {
                &&& #[trigger] pem_certificate_parses(certificate_data, pem)
                &&& if pem is Ok {
                    signs_policy_if_parsed(pem, key, policy, r)
                } else {
                    exists|der: Result<X509, ErrorStack>|
                        {
                            &&& #[trigger] der_certificate_parses(certificate_data, der)
                            &&& signs_policy_if_parsed(der, key, policy, r)
                        }
                }
            };
        let parsed = if pem is Ok {
            pem
        } else {
            choose|der: Result<X509, ErrorStack>|
                {
                    &&& #[trigger] der_certificate_parses(certificate_data, der)
                    &&& signs_policy_if_parsed(der, key, policy, r)
                }
        };
        assert(signs_policy_if_parsed(parsed, key, policy, r));
        if parsed is Err {
            assert(parsed == Err::<X509, ErrorStack>(e.source));
        } else {
            let certificate = parsed->Ok_0;
            let context = choose|context: SigningContext|
                is_policy_context(context) && #[trigger] signing_outcome(
                    certificate,
                    key,
                    policy,
                    EMBEDDED_SIGNATURE,
                    context,
                    r,
                );
            assert(signing_outcome(certificate, key, policy, EMBEDDED_SIGNATURE, context, r));
            if !(e.context@ == context.stack@ && stack_made(Err(e.source))) {
                let made = choose|made: Result<Pkcs7, ErrorStack>|
                    {
                        &&& #[trigger] signs(
                            certificate,
                            key,
                            seq![],
                            policy,
                            EMBEDDED_SIGNATURE,
                            made,
                        )
                        &&& match made {
                            Err(x) => in_context(Err::<Vec<u8>, ErrorStack>(x), context.sign@, r),
                            Ok(structure) => exists|encoded: Result<Vec<u8>, ErrorStack>|
                                {
                                    &&& #[trigger] is_signature_encoding(encoded, structure)
                                    &&& in_context(encoded, context.encode@, r)
                                },
                        }
                    };
                if made is Err {
                    assert(made == Err::<Pkcs7, ErrorStack>(e.source));
                    assert(signs(certificate, key, seq![], policy, 0x380, Err(e.source)));
                } else {
                    let structure = made->Ok_0;
                    let encoded = choose|encoded: Result<Vec<u8>, ErrorStack>|
                        {
                            &&& #[trigger] is_signature_encoding(encoded, structure)
                            &&& in_context(encoded, context.encode@, r)
                        };
                    assert(pkcs7_encodes(structure, Err(e.source)));
                }
            }
        }
    }
}

} // verus!
