//! The signer of image layers: a key that exists only in memory, whose
//! certificate is put into the dm-verity keyring before that keyring is sealed,
//! and which is destroyed before the first workload starts.

use crate::crypto::{
    append_extension, append_name_entry, authority_key_identifier, big_number, build_certificate,
    build_name, builder_entries, builder_fields, bytes_of, certificate_der, certificate_encodes,
    certificate_fields, certificate_started, critical_basic_constraints,
    critical_signature_key_usage, days_from_now, encode_certificate, entry_appended, extension_made,
    extension_name, field_set, generate_rsa, generated_key, in_context, integer_from_number,
    integer_made, is_own_certificate, is_signature_encoding, key_bits, key_from_rsa, key_wraps,
    name_entries, name_started, new_certificate, new_name, no_fields, number_made, pkcs7_der,
    pkcs7_encodes, rsa_generates, set_issuer_name, set_not_after, set_not_before, set_pubkey,
    set_serial_number, set_subject_name, set_version, sha256, sign_and_encode, sign_certificate,
    signing_outcome, signs, stack_made, subject_key_identifier, time_made, verifies_detached,
    with_context, CertificateField, CertificateValue, CryptoError, SigningContext,
    DETACHED_SIGNATURE,
};
use crate::keyring::{find_dm_verity_keyring, keyring_id};
use crate::root_hash::{hex_digest, is_hex_digest, law_validity, whole_bytes};
use crate::text::{append_decimal, decimal, lemma_decimal_digits, lemma_decimal_is_injective};
use openssl::asn1::{Asn1Integer, Asn1Time};
use openssl::bn::BigNum;
use openssl::error::ErrorStack;
use openssl::pkcs7::Pkcs7;
use openssl::pkey::{PKey, Private};
use openssl::rsa::Rsa;
use openssl::x509::{X509Builder, X509Extension, X509Name, X509NameBuilder, X509};
use vstd::prelude::*;
use vstd::string::*;
use vstd::utf8::{encode_utf8, is_ascii_chars_encode_utf8};

verus! {

/// Why a layer is not signed.
#[derive(Debug)]
pub enum SignerError {
    /// The signer was destroyed before this layer was attached.
    Finalized,
    /// What is to be signed is not a root hash.
    InvalidRootHash,
    /// OpenSSL failed.
    Crypto(CryptoError),
    /// The listing of keys could not be read; with the reason.
    KeysUnreadable(String),
    /// The kernel has no dm-verity keyring.
    KeyringUnavailable,
    /// The certificate could not be added to the keyring; with the reason.
    KeyNotAdded(String),
    /// The keyring could not be sealed; with the reason.
    KeyringNotSealed(String),
    /// An event that the state does not wait for.
    OutOfOrder,
}

// ---------------------------------------------------------------------------
// The signer
// ---------------------------------------------------------------------------

/// A signing key and its self-signed certificate.
pub struct LayerSigner {
    private_key: PKey<Private>,
    certificate: X509,
}

/// The size of the signing key in bits.
pub const SIGNING_KEY_BITS: u32 = 2048;

/// The distinguished name of the signer.
pub open spec fn signer_name() -> Seq<(Seq<char>, Seq<char>)> {
    seq![("CN"@, "Kata ephemeral EROFS signer"@)]
}

/// `fields` with this extension.
pub open spec fn with_extension(
    fields: Map<CertificateField, CertificateValue>,
    extension: X509Extension,
) -> Map<CertificateField, CertificateValue> {
    fields.insert(
        CertificateField::Extension(extension_name(extension)),
        CertificateValue::Extension(extension),
    )
}

/// `key` is an RSA key of the signer's size that was generated.
pub open spec fn is_signing_key(key: PKey<Private>) -> bool {
    exists|rsa: Rsa<Private>|
        #[trigger] rsa_generates(SIGNING_KEY_BITS, Ok(rsa)) && key_wraps(rsa, Ok(key))
}

/// The fields of a certificate of version 3.
pub open spec fn versioned_fields() -> Map<CertificateField, CertificateValue> {
    no_fields().insert(CertificateField::Version, CertificateValue::Number(2))
}

/// These, with serial number 1.
pub open spec fn numbered_fields() -> Map<CertificateField, CertificateValue> {
    versioned_fields().insert(CertificateField::SerialNumber, CertificateValue::Number(1))
}

/// These, with the signer as subject.
pub open spec fn titled_fields() -> Map<CertificateField, CertificateValue> {
    numbered_fields().insert(CertificateField::Subject, CertificateValue::Name(signer_name()))
}

/// These, with the signer as issuer.
pub open spec fn issued_fields() -> Map<CertificateField, CertificateValue> {
    titled_fields().insert(CertificateField::Issuer, CertificateValue::Name(signer_name()))
}

/// These, with the public half of `key`.
pub open spec fn keyed_fields(key: PKey<Private>) -> Map<CertificateField, CertificateValue> {
    issued_fields().insert(CertificateField::PublicKey, CertificateValue::KeyOf(key))
}

/// These, with the start of the validity.
pub open spec fn started_fields(key: PKey<Private>, not_before: Asn1Time) -> Map<
    CertificateField,
    CertificateValue,
> {
    keyed_fields(key).insert(CertificateField::NotBefore, CertificateValue::Time(not_before))
}

/// These, with the end of the validity.
pub open spec fn dated_fields(
    key: PKey<Private>,
    not_before: Asn1Time,
    not_after: Asn1Time,
) -> Map<CertificateField, CertificateValue> {
    started_fields(key, not_before).insert(
        CertificateField::NotAfter,
        CertificateValue::Time(not_after),
    )
}

/// A key for the signer, and a validity from now for one day.
pub open spec fn is_dated(key: PKey<Private>, not_before: Asn1Time, not_after: Asn1Time) -> bool {
    &&& is_signing_key(key)
    &&& time_made(0, Ok(not_before))
    &&& time_made(1, Ok(not_after))
}

/// An extension of this name, made from this value.
pub open spec fn is_extension(
    extension: X509Extension,
    name: Seq<char>,
    value: Seq<char>,
    about: Option<X509Builder>,
) -> bool {
    &&& extension_name(extension) == name
    &&& extension_made(name, value, about, Ok(extension))
}

/// Not a certificate authority, and critical.
pub open spec fn is_constraints(extension: X509Extension) -> bool {
    is_extension(extension, "basicConstraints"@, "critical,CA:FALSE"@, None)
}

/// For digital signatures only, and critical.
pub open spec fn is_usage(extension: X509Extension) -> bool {
    is_extension(extension, "keyUsage"@, "critical,digitalSignature"@, None)
}

/// The key identifier of the subject of `plain`.
pub open spec fn is_subject_key_id(extension: X509Extension, plain: X509Builder) -> bool {
    is_extension(extension, "subjectKeyIdentifier"@, "hash"@, Some(plain))
}

/// The key identifier of the issuer of `plain`, if it has one.
pub open spec fn is_authority_key_id(extension: X509Extension, plain: X509Builder) -> bool {
    is_extension(extension, "authorityKeyIdentifier"@, "keyid"@, Some(plain))
}

/// `plain` is the signer's certificate before the key identifiers are added.
pub open spec fn is_plain(plain: X509Builder, key: PKey<Private>) -> bool {
    exists|
        not_before: Asn1Time,
        not_after: Asn1Time,
        constraints: X509Extension,
        usage: X509Extension,
    |
        {
            &&& #[trigger] is_dated(key, not_before, not_after)
            &&& #[trigger] is_constraints(constraints)
            &&& #[trigger] is_usage(usage)
            &&& builder_fields(plain) == with_extension(
                with_extension(dated_fields(key, not_before, not_after), constraints),
                usage,
            )
        }
}

/// The fields of `plain` with the key identifiers of subject and issuer.
pub open spec fn identified_fields(
    plain: X509Builder,
    subject_key_id: X509Extension,
    authority_key_id: X509Extension,
) -> Map<CertificateField, CertificateValue> {
    with_extension(with_extension(builder_fields(plain), subject_key_id), authority_key_id)
}

/// `fields` with a signature over all of them with `key`.
pub open spec fn signed_fields(
    fields: Map<CertificateField, CertificateValue>,
    key: PKey<Private>,
) -> Map<CertificateField, CertificateValue> {
    fields.insert(
        CertificateField::Signature,
        CertificateValue::SignedWith(key, "sha256"@, fields),
    )
}

/// The fields of the signer's certificate, and a signature over all of them with
/// `key` itself.
pub open spec fn is_signer_certificate(
    fields: Map<CertificateField, CertificateValue>,
    key: PKey<Private>,
) -> bool {
    exists|plain: X509Builder, subject_key_id: X509Extension, authority_key_id: X509Extension|
        {
            &&& is_plain(plain, key)
            &&& #[trigger] is_subject_key_id(subject_key_id, plain)
            &&& #[trigger] is_authority_key_id(authority_key_id, plain)
            &&& fields == signed_fields(
                identified_fields(plain, subject_key_id, authority_key_id),
                key,
            )
        }
}

/// Setting a field of a certificate that has these fields to `value` fails with
/// this error.
pub open spec fn setting_fails(
    fields: Map<CertificateField, CertificateValue>,
    field: CertificateField,
    value: CertificateValue,
    e: ErrorStack,
) -> bool {
    exists|builder: X509Builder|
        builder_fields(builder) == fields && #[trigger] field_set(builder, field, value, Err(e))
}

/// Adding an extension to a certificate that has these fields fails with this
/// error.
pub open spec fn adding_fails(
    fields: Map<CertificateField, CertificateValue>,
    extension: X509Extension,
    e: ErrorStack,
) -> bool {
    setting_fails(
        fields,
        CertificateField::Extension(extension_name(extension)),
        CertificateValue::Extension(extension),
        e,
    )
}

/// Starting a certificate, or setting its plain fields, fails with this error at
/// the step that `context` names.
pub open spec fn plain_step_fails(context: Seq<char>, e: ErrorStack) -> bool {
    ||| context == "create layer certificate"@ && certificate_started(Err(e))
    ||| {
        &&& context == "set certificate version"@
        &&& setting_fails(no_fields(), CertificateField::Version, CertificateValue::Number(2), e)
    }
    ||| context == "create serial number"@ && number_made(1, Err(e))
    ||| {
        &&& context == "encode serial number"@
        &&& exists|number: BigNum|
            #[trigger] number_made(1, Ok(number)) && integer_made(number, Err(e))
    }
    ||| {
        &&& context == "set certificate serial number"@
        &&& setting_fails(
            versioned_fields(),
            CertificateField::SerialNumber,
            CertificateValue::Number(1),
            e,
        )
    }
    ||| {
        &&& context == "set certificate subject"@
        &&& setting_fails(
            numbered_fields(),
            CertificateField::Subject,
            CertificateValue::Name(signer_name()),
            e,
        )
    }
    ||| {
        &&& context == "set certificate issuer"@
        &&& setting_fails(
            titled_fields(),
            CertificateField::Issuer,
            CertificateValue::Name(signer_name()),
            e,
        )
    }
    ||| {
        &&& context == "set certificate public key"@
        &&& exists|key: PKey<Private>|
            #[trigger] is_signing_key(key) && setting_fails(
                issued_fields(),
                CertificateField::PublicKey,
                CertificateValue::KeyOf(key),
                e,
            )
    }
    ||| context == "set certificate start time"@ && time_made(0, Err(e))
    ||| context == "set certificate expiry"@ && time_made(1, Err(e))
    ||| {
        &&& context == "apply certificate start time"@
        &&& exists|key: PKey<Private>, not_before: Asn1Time, not_after: Asn1Time|
            #[trigger] is_dated(key, not_before, not_after) && setting_fails(
                keyed_fields(key),
                CertificateField::NotBefore,
                CertificateValue::Time(not_before),
                e,
            )
    }
    ||| {
        &&& context == "apply certificate expiry"@
        &&& exists|key: PKey<Private>, not_before: Asn1Time, not_after: Asn1Time|
            #[trigger] is_dated(key, not_before, not_after) && setting_fails(
                started_fields(key, not_before),
                CertificateField::NotAfter,
                CertificateValue::Time(not_after),
                e,
            )
    }
}

/// Making or adding an extension, or signing, fails with this error at the step
/// that `context` names.
pub open spec fn extension_step_fails(context: Seq<char>, e: ErrorStack) -> bool {
    ||| {
        &&& context == "build certificate constraints"@
        &&& extension_made("basicConstraints"@, "critical,CA:FALSE"@, None, Err(e))
    }
    ||| {
        &&& context == "add certificate constraints"@
        &&& exists|
            key: PKey<Private>,
            not_before: Asn1Time,
            not_after: Asn1Time,
            constraints: X509Extension,
        |
            {
                &&& #[trigger] is_dated(key, not_before, not_after)
                &&& #[trigger] is_constraints(constraints)
                &&& adding_fails(dated_fields(key, not_before, not_after), constraints, e)
            }
    }
    ||| {
        &&& context == "build certificate key usage"@
        &&& extension_made("keyUsage"@, "critical,digitalSignature"@, None, Err(e))
    }
    ||| {
        &&& context == "add certificate key usage"@
        &&& exists|
            key: PKey<Private>,
            not_before: Asn1Time,
            not_after: Asn1Time,
            constraints: X509Extension,
            usage: X509Extension,
        |
            {
                &&& #[trigger] is_dated(key, not_before, not_after)
                &&& #[trigger] is_constraints(constraints)
                &&& #[trigger] is_usage(usage)
                &&& adding_fails(
                    with_extension(dated_fields(key, not_before, not_after), constraints),
                    usage,
                    e,
                )
            }
    }
    ||| {
        &&& context == "build subject key identifier"@
        &&& exists|plain: X509Builder, key: PKey<Private>|
            #[trigger] is_plain(plain, key) && extension_made(
                "subjectKeyIdentifier"@,
                "hash"@,
                Some(plain),
                Err(e),
            )
    }
    ||| {
        &&& context == "build authority key identifier"@
        &&& exists|plain: X509Builder, key: PKey<Private>|
            #[trigger] is_plain(plain, key) && extension_made(
                "authorityKeyIdentifier"@,
                "keyid"@,
                Some(plain),
                Err(e),
            )
    }
    ||| {
        &&& context == "add subject key identifier"@
        &&& exists|plain: X509Builder, key: PKey<Private>, subject_key_id: X509Extension|
            {
                &&& #[trigger] is_plain(plain, key)
                &&& #[trigger] is_subject_key_id(subject_key_id, plain)
                &&& adding_fails(builder_fields(plain), subject_key_id, e)
            }
    }
    ||| {
        &&& context == "add authority key identifier"@
        &&& exists|
            plain: X509Builder,
            key: PKey<Private>,
            subject_key_id: X509Extension,
            authority_key_id: X509Extension,
        |
            {
                &&& #[trigger] is_plain(plain, key)
                &&& #[trigger] is_subject_key_id(subject_key_id, plain)
                &&& #[trigger] is_authority_key_id(authority_key_id, plain)
                &&& adding_fails(
                    with_extension(builder_fields(plain), subject_key_id),
                    authority_key_id,
                    e,
                )
            }
    }
    ||| {
        &&& context == "self-sign layer certificate"@
        &&& exists|
            plain: X509Builder,
            key: PKey<Private>,
            subject_key_id: X509Extension,
            authority_key_id: X509Extension,
        |
            {
                &&& #[trigger] is_plain(plain, key)
                &&& #[trigger] is_subject_key_id(subject_key_id, plain)
                &&& #[trigger] is_authority_key_id(authority_key_id, plain)
                &&& setting_fails(
                    identified_fields(plain, subject_key_id, authority_key_id),
                    CertificateField::Signature,
                    CertificateValue::SignedWith(
                        key,
                        "sha256"@,
                        identified_fields(plain, subject_key_id, authority_key_id),
                    ),
                    e,
                )
            }
    }
}

/// The step of making a signer that `context` names fails with this error, on
/// what the steps before it have made.
pub open spec fn signer_step_fails(context: Seq<char>, e: ErrorStack) -> bool {
    ||| {
        &&& context == "generate ephemeral EROFS signing key"@
        &&& rsa_generates(SIGNING_KEY_BITS, Err(e))
    }
    ||| {
        &&& context == "create ephemeral EROFS signing key"@
        &&& exists|rsa: Rsa<Private>|
            #[trigger] rsa_generates(SIGNING_KEY_BITS, Ok(rsa)) && key_wraps(rsa, Err(e))
    }
    ||| context == "create layer certificate subject"@ && name_started(Err(e))
    ||| {
        &&& context == "set layer certificate subject"@
        &&& exists|builder: X509NameBuilder|
            builder_entries(builder).len() == 0 && #[trigger] entry_appended(
                builder,
                "CN"@,
                "Kata ephemeral EROFS signer"@,
                Err(e),
            )
    }
    ||| plain_step_fails(context, e)
    ||| extension_step_fails(context, e)
}

/// A fresh signer: a random RSA key and a certificate for it, signed with it.
/// An error is that of the step which it names; when OpenSSL carries out a step,
/// and when not, is not stated.
pub fn generate_layer_signer() -> (r: Result<LayerSigner, CryptoError>)
    ensures
        match r {
            Ok(signer) => {
                &&& key_bits(signer.signing_key()) == SIGNING_KEY_BITS
                &&& is_signer_certificate(
                    certificate_fields(signer.signing_certificate()),
                    signer.signing_key(),
                )
            },
            Err(e) => signer_step_fails(e.context@, e.source),
        },
{
    proof {
        reveal_strlit("CN");
        reveal_strlit("Kata ephemeral EROFS signer");
        reveal_strlit("basicConstraints");
        reveal_strlit("keyUsage");
        reveal_strlit("subjectKeyIdentifier");
        reveal_strlit("authorityKeyIdentifier");
        assert("keyUsage"@.len() == 8);
        assert("basicConstraints"@.len() == 16);
        assert("subjectKeyIdentifier"@.len() == 20);
        assert("authorityKeyIdentifier"@.len() == 22);
    }
    let rsa: Rsa<Private> = with_context(
        generate_rsa(SIGNING_KEY_BITS),
        "generate ephemeral EROFS signing key",
    )?;
    let private_key: PKey<Private> = with_context(
        key_from_rsa(rsa),
        "create ephemeral EROFS signing key",
    )?;
    assert(is_signing_key(private_key));
    assert(generated_key(private_key));
    let mut name: X509NameBuilder = with_context(new_name(), "create layer certificate subject")?;
    with_context(
        append_name_entry(&mut name, "CN", "Kata ephemeral EROFS signer"),
        "set layer certificate subject",
    )?;
    let name: X509Name = build_name(name);
    assert(name_entries(name) =~= signer_name());
    let mut certificate: X509Builder = with_context(new_certificate(), "create layer certificate")?;
    with_context(set_version(&mut certificate, 2), "set certificate version")?;
    let serial_number: BigNum = with_context(big_number(1), "create serial number")?;
    let serial: Asn1Integer = with_context(
        integer_from_number(&serial_number),
        "encode serial number",
    )?;
    with_context(set_serial_number(&mut certificate, &serial), "set certificate serial number")?;
    with_context(set_subject_name(&mut certificate, &name), "set certificate subject")?;
    with_context(set_issuer_name(&mut certificate, &name), "set certificate issuer")?;
    with_context(set_pubkey(&mut certificate, &private_key), "set certificate public key")?;
    let not_before: Asn1Time = with_context(days_from_now(0), "set certificate start time")?;
    let not_after: Asn1Time = with_context(days_from_now(1), "set certificate expiry")?;
    assert(is_dated(private_key, not_before, not_after));
    with_context(set_not_before(&mut certificate, &not_before), "apply certificate start time")?;
    with_context(set_not_after(&mut certificate, &not_after), "apply certificate expiry")?;
    let constraints: X509Extension = with_context(
        critical_basic_constraints(),
        "build certificate constraints",
    )?;
    let ghost added_constraints = constraints;
    assert(is_constraints(constraints));
    with_context(append_extension(&mut certificate, constraints), "add certificate constraints")?;
    let usage: X509Extension = with_context(
        critical_signature_key_usage(),
        "build certificate key usage",
    )?;
    let ghost added_usage = usage;
    assert(is_usage(usage));
    with_context(append_extension(&mut certificate, usage), "add certificate key usage")?;
    let ghost plain = certificate;
    assert(is_plain(plain, private_key)) by {
        assert(builder_fields(plain) == with_extension(
            with_extension(dated_fields(private_key, not_before, not_after), added_constraints),
            added_usage,
        ));
    }
    let subject_key_id: X509Extension = with_context(
        subject_key_identifier(&certificate),
        "build subject key identifier",
    )?;
    let authority_key_id: X509Extension = with_context(
        authority_key_identifier(&certificate, false),
        "build authority key identifier",
    )?;
    let ghost added_subject = subject_key_id;
    let ghost added_authority = authority_key_id;
    assert(is_subject_key_id(added_subject, plain));
    assert(is_authority_key_id(added_authority, plain));
    with_context(append_extension(&mut certificate, subject_key_id), "add subject key identifier")?;
    with_context(
        append_extension(&mut certificate, authority_key_id),
        "add authority key identifier",
    )?;
    let ghost fields = identified_fields(plain, added_subject, added_authority);
    assert(builder_fields(certificate) == fields);
    with_context(
        sign_certificate(&mut certificate, &private_key, sha256()),
        "self-sign layer certificate",
    )?;
    let certificate: X509 = build_certificate(certificate);
    assert(is_own_certificate(certificate, private_key)) by {
        assert(certificate_fields(certificate) == signed_fields(fields, private_key));
        assert(certificate_fields(certificate).remove(CertificateField::Signature) =~= fields);
    }
    Ok(LayerSigner { private_key, certificate })
}

/// What the steps of signing a root hash are for.
pub open spec fn is_root_hash_context(context: SigningContext) -> bool {
    &&& context.stack@ == "create layer certificate stack"@
    &&& context.sign@ == "sign EROFS dm-verity root hash"@
    &&& context.encode@ == "encode EROFS dm-verity root hash signature"@
}

/// What signing a root hash comes to: a refusal, if it is none; otherwise what
/// OpenSSL's detached signature of its text comes to, which verifies.
pub open spec fn signs_root_hash(
    signer: LayerSigner,
    root_hash: Seq<char>,
    r: Result<Vec<u8>, SignerError>,
) -> bool {
    let content = encode_utf8(root_hash);
    if !hex_digest(root_hash) {
        r matches Err(SignerError::InvalidRootHash)
    } else {
        exists|context: SigningContext, outcome: Result<Vec<u8>, CryptoError>|
            {
                &&& is_root_hash_context(context)
                &&& #[trigger] signing_outcome(
                    signer.signing_certificate(),
                    signer.signing_key(),
                    content,
                    DETACHED_SIGNATURE,
                    context,
                    outcome,
                )
                &&& match outcome {
                    Ok(signature) => {
                        &&& r == Ok::<Vec<u8>, SignerError>(signature)
                        &&& verifies_detached(signature@, signer.signing_certificate(), content)
                    },
                    Err(e) => r == Err::<Vec<u8>, SignerError>(SignerError::Crypto(e)),
                }
            }
    }
}

impl LayerSigner {
    /// The key was generated, and the certificate is its own.
    #[verifier::type_invariant]
    spec fn key_has_its_certificate(self) -> bool {
        is_own_certificate(self.certificate, self.private_key)
    }

    /// The key that signs.
    pub closed spec fn signing_key(&self) -> PKey<Private> {
        self.private_key
    }

    /// The certificate of the key.
    pub closed spec fn signing_certificate(&self) -> X509 {
        self.certificate
    }

    /// The certificate of the key.
    pub fn certificate(&self) -> (certificate: &X509)
        ensures
            *certificate == self.signing_certificate(),
    {
        &self.certificate
    }

    /// A detached PKCS#7 signature of a dm-verity root hash, DER-encoded.
    pub fn sign(&self, root_hash: &str) -> (r: Result<Vec<u8>, SignerError>)
        requires
            hex_digest(root_hash@) ==> root_hash@.len() <= i32::MAX,
        ensures
            signs_root_hash(*self, root_hash@, r),
    {
        if !is_hex_digest(root_hash) {
            return Err(SignerError::InvalidRootHash);
        }
        proof {
            is_ascii_chars_encode_utf8(root_hash@);
            use_type_invariant(self);
        }
        let context = SigningContext {
            stack: "create layer certificate stack",
            sign: "sign EROFS dm-verity root hash",
            encode: "encode EROFS dm-verity root hash signature",
        };
        let outcome: Result<Vec<u8>, CryptoError> = sign_and_encode(
            &self.certificate,
            &self.private_key,
            root_hash.as_bytes(),
            DETACHED_SIGNATURE,
            context,
        );
        assert(signing_outcome(
            self.signing_certificate(),
            self.signing_key(),
            encode_utf8(root_hash@),
            DETACHED_SIGNATURE,
            context,
            outcome,
        ));
        match outcome {
            Ok(signature) => Ok(signature),
            Err(e) => Err(SignerError::Crypto(e)),
        }
    }
}

// ---------------------------------------------------------------------------
// Provisioning
// ---------------------------------------------------------------------------

/// A key to add to a keyring.
#[derive(Debug)]
pub struct KeyRequest {
    pub key_type: &'static str,
    pub description: &'static str,
    pub payload: Vec<u8>,
    pub keyring: i64,
}

/// A signer that provisioning has handed out: its certificate is in a keyring
/// that was sealed afterwards.
pub struct ProvisionedSigner {
    inner: LayerSigner,
}

impl ProvisionedSigner {
    /// Provisioning has handed this signer out.
    #[verifier::type_invariant]
    spec fn comes_from_provisioning(self) -> bool {
        handed_out(self)
    }

    /// The signer.
    pub closed spec fn signer(&self) -> LayerSigner {
        self.inner
    }
}

/// How far the provisioning of a signer has come.
pub enum ProvisionState {
    /// The listing of keys is awaited.
    ReadingKeys(LayerSigner),
    /// The certificate is being added to the keyring.
    AddingCertificate { signer: LayerSigner, keyring: i64 },
    /// The keyring, which now holds the certificate, is being sealed.
    SealingKeyring { signer: LayerSigner, keyring: i64, key: i64 },
    /// The keyring was not sealed, for this reason; the certificate is being
    /// taken out again.
    RemovingCertificate { reason: String },
    /// Nothing is awaited any more.
    Closed,
}

/// A provisioning under way. It comes from [`new_layer_signer`] and goes on by
/// [`continue_provisioning`] alone, so that no step can be left out.
pub struct Provisioning {
    state: ProvisionState,
}

impl View for Provisioning {
    type V = ProvisionState;

    closed spec fn view(&self) -> ProvisionState {
        self.state
    }
}

impl Provisioning {
    /// The steps of provisioning lead to this state.
    #[verifier::type_invariant]
    spec fn has_been_reached(self) -> bool {
        provision_reaches(self.state)
    }
}

/// What happened outside.
pub enum ProvisionEvent {
    /// The text of `/proc/keys`, or why it could not be read.
    KeysRead(Result<String, String>),
    /// The serial number of the added key, or why it was not added.
    KeyAdded(Result<i64, String>),
    /// The keyring was sealed, or why not.
    KeyringSealed(Result<(), String>),
    /// The key was taken out, or not: either is accepted.
    KeyRemoved,
}

/// What is to be done outside.
pub enum ProvisionAction {
    /// Add this key.
    AddKey(KeyRequest),
    /// Forbid any further change of this keyring.
    SealKeyring { keyring: i64 },
    /// Take this key out of this keyring.
    RemoveKey { key: i64, keyring: i64 },
    /// The signer may be used.
    Ready(ProvisionedSigner),
    /// There is no signer.
    Fail(SignerError),
}

/// `encoded` is what encoding this certificate comes to.
pub open spec fn is_encoding(encoded: Result<Vec<u8>, ErrorStack>, certificate: X509) -> bool {
    &&& certificate_encodes(certificate, bytes_of(encoded))
    &&& encoded matches Ok(der) ==> der@ == certificate_der(certificate)
}

/// The request that adds a certificate, encoded like this, to a keyring.
pub open spec fn adds_certificate(request: KeyRequest, der: Seq<u8>, keyring: i64) -> bool {
    &&& request.key_type@ == "asymmetric"@
    &&& request.description@ == "kata-erofs-ephemeral"@
    &&& request.payload@ == der
    &&& request.keyring == keyring
}

/// What an encoded certificate leads to: a request that adds it to the keyring,
/// or the failure to encode it.
pub open spec fn requests_certificate(
    encoded: Result<Vec<u8>, ErrorStack>,
    keyring: i64,
    r: Result<KeyRequest, SignerError>,
) -> bool {
    match encoded {
        Ok(der) => r matches Ok(request) && adds_certificate(request, der@, keyring),
        Err(e) => {
            &&& r matches Err(SignerError::Crypto(error))
            &&& error.source == e
            &&& error.context@ == "encode ephemeral EROFS certificate"@
        },
    }
}

/// The step after the keyring was found: the signer's certificate is added to
/// it, if it could be encoded.
pub open spec fn certificate_step(
    signer: LayerSigner,
    keyring: i64,
    encoded: Result<Vec<u8>, ErrorStack>,
    to: ProvisionState,
    action: ProvisionAction,
) -> bool {
    exists|r: Result<KeyRequest, SignerError>|
        {
            &&& #[trigger] requests_certificate(encoded, keyring, r)
            &&& match r {
                Ok(request) => {
                    &&& to == (ProvisionState::AddingCertificate { signer, keyring })
                    &&& action == ProvisionAction::AddKey(request)
                },
                Err(e) => {
                    &&& to == ProvisionState::Closed
                    &&& action == ProvisionAction::Fail(e)
                },
            }
        }
}

/// One step of provisioning.
pub open spec fn provision_step(
    from: ProvisionState,
    event: ProvisionEvent,
    to: ProvisionState,
    action: ProvisionAction,
) -> bool {
    match (from, event) {
        (
            ProvisionState::ReadingKeys(signer),
            ProvisionEvent::KeysRead(Ok(keys)),
        ) => match keyring_id(keys@) {
            None => {
                &&& to == ProvisionState::Closed
                &&& action == ProvisionAction::Fail(SignerError::KeyringUnavailable)
            },
            Some(keyring) => exists|encoded: Result<Vec<u8>, ErrorStack>|
                {
                    &&& #[trigger] is_encoding(encoded, signer.signing_certificate())
                    &&& certificate_step(signer, keyring, encoded, to, action)
                },
        },
        (ProvisionState::ReadingKeys(_), ProvisionEvent::KeysRead(Err(reason))) => {
            &&& to == ProvisionState::Closed
            &&& action == ProvisionAction::Fail(SignerError::KeysUnreadable(reason))
        },
        (
            ProvisionState::AddingCertificate { signer, keyring },
            ProvisionEvent::KeyAdded(Ok(key)),
        ) => {
            &&& to == (ProvisionState::SealingKeyring { signer, keyring, key })
            &&& action == (ProvisionAction::SealKeyring { keyring })
        },
        (
            ProvisionState::AddingCertificate { signer, keyring },
            ProvisionEvent::KeyAdded(Err(reason)),
        ) => {
            &&& to == ProvisionState::Closed
            &&& action == ProvisionAction::Fail(SignerError::KeyNotAdded(reason))
        },
        (
            ProvisionState::SealingKeyring { signer, keyring, key },
            ProvisionEvent::KeyringSealed(Ok(_)),
        ) => {
            &&& to == ProvisionState::Closed
            &&& action matches ProvisionAction::Ready(provisioned)
            &&& provisioned.signer() == signer
        },
        (
            ProvisionState::SealingKeyring { signer, keyring, key },
            ProvisionEvent::KeyringSealed(Err(reason)),
        ) => {
            &&& to == (ProvisionState::RemovingCertificate { reason })
            &&& action == (ProvisionAction::RemoveKey { key, keyring })
        },
        (ProvisionState::RemovingCertificate { reason }, ProvisionEvent::KeyRemoved) => {
            &&& to == ProvisionState::Closed
            &&& action == ProvisionAction::Fail(SignerError::KeyringNotSealed(reason))
        },
        _ => {
            &&& to == ProvisionState::Closed
            &&& action == ProvisionAction::Fail(SignerError::OutOfOrder)
        },
    }
}

/// A step of provisioning that was taken.
pub struct ProvisionTransition {
    pub from: ProvisionState,
    pub event: ProvisionEvent,
    pub to: ProvisionState,
    pub action: ProvisionAction,
}

/// Steps that were taken one after another, from the start of provisioning.
pub open spec fn provision_run(run: Seq<ProvisionTransition>) -> bool {
    &&& run.len() > 0
    &&& run[0].from is ReadingKeys
    &&& forall|i: int|
        #![trigger run[i]]
        0 <= i < run.len() ==> provision_step(run[i].from, run[i].event, run[i].to, run[i].action)
    &&& forall|i: int| #![trigger run[i]] 0 < i < run.len() ==> run[i].from == run[i - 1].to
}

/// Some run of provisioning hands this signer out.
pub open spec fn handed_out(provisioned: ProvisionedSigner) -> bool {
    exists|run: Seq<ProvisionTransition>| #[trigger]
        provision_run(run) && run.last().action == ProvisionAction::Ready(provisioned)
}

/// Provisioning starts in this state, or some run of it ends there.
pub open spec fn provision_reaches(state: ProvisionState) -> bool {
    ||| state is ReadingKeys
    ||| exists|run: Seq<ProvisionTransition>| #[trigger] provision_run(run) && run.last().to == state
}

proof fn lemma_run_goes_on(step: ProvisionTransition)
    requires
        provision_reaches(step.from),
        provision_step(step.from, step.event, step.to, step.action),
    ensures
        exists|run: Seq<ProvisionTransition>| #[trigger] provision_run(run) && run.last() == step,
{
    if exists|run: Seq<ProvisionTransition>| #[trigger]
        provision_run(run) && run.last().to == step.from {
        let run = choose|run: Seq<ProvisionTransition>| #[trigger]
            provision_run(run) && run.last().to == step.from;
        let longer = run.push(step);
        assert forall|i: int| #![trigger longer[i]] 0 <= i < longer.len() implies provision_step(
            longer[i].from,
            longer[i].event,
            longer[i].to,
            longer[i].action,
        ) by {
            if i < run.len() {
                assert(longer[i] == run[i]);
            }
        }
        assert forall|i: int| #![trigger longer[i]] 0 < i < longer.len() implies longer[i].from
            == longer[i - 1].to by {
            assert(longer[i - 1] == run[i - 1]);
            if i < run.len() {
                assert(longer[i] == run[i]);
            }
        }
        assert(longer[0] == run[0]);
        assert(provision_run(longer));
        assert(longer.last() == step);
    } else {
        let run = seq![step];
        assert(provision_run(run));
        assert(run.last() == step);
    }
}

/// Starts provisioning with a fresh signer; the listing of keys is awaited.
pub fn new_layer_signer() -> (r: Result<Provisioning, SignerError>)
    ensures
        match r {
            Ok(provisioning) => {
                &&& provisioning@ matches ProvisionState::ReadingKeys(signer)
                &&& key_bits(signer.signing_key()) == SIGNING_KEY_BITS
                &&& is_signer_certificate(
                    certificate_fields(signer.signing_certificate()),
                    signer.signing_key(),
                )
            },
            Err(e) => {
                &&& e matches SignerError::Crypto(error)
                &&& signer_step_fails(error.context@, error.source)
            },
        },
{
    match generate_layer_signer() {
        Ok(signer) => Ok(Provisioning { state: ProvisionState::ReadingKeys(signer) }),
        Err(e) => Err(SignerError::Crypto(e)),
    }
}

/// The request that adds a certificate, as it was encoded, to the keyring.
pub fn certificate_request(encoded: Result<Vec<u8>, ErrorStack>, keyring: i64) -> (r: Result<
    KeyRequest,
    SignerError,
>)
    ensures
        requests_certificate(encoded, keyring, r),
{
    match with_context(encoded, "encode ephemeral EROFS certificate") {
        Ok(payload) => Ok(
            KeyRequest {
                key_type: "asymmetric",
                description: "kata-erofs-ephemeral",
                payload,
                keyring,
            },
        ),
        Err(e) => Err(SignerError::Crypto(e)),
    }
}

/// Carries provisioning one step further.
pub fn continue_provisioning(provisioning: Provisioning, event: ProvisionEvent) -> (r: (
    Provisioning,
    ProvisionAction,
))
    ensures
        provision_step(provisioning@, event, r.0@, r.1),
{
    proof {
        use_type_invariant(&provisioning);
    }
    let ghost from = provisioning@;
    let ghost input = event;
    let (state, action) = match (provisioning.state, event) {
        (ProvisionState::ReadingKeys(signer), ProvisionEvent::KeysRead(Ok(keys))) => {
            match find_dm_verity_keyring(keys.as_str()) {
                Err(_) => (
                    ProvisionState::Closed,
                    ProvisionAction::Fail(SignerError::KeyringUnavailable),
                ),
                Ok(keyring) => {
                    let encoded: Result<Vec<u8>, ErrorStack> = encode_certificate(
                        signer.certificate(),
                    );
                    assert(is_encoding(encoded, signer.signing_certificate()));
                    let requested: Result<KeyRequest, SignerError> = certificate_request(
                        encoded,
                        keyring,
                    );
                    assert(requests_certificate(encoded, keyring, requested));
                    match requested {
                        Ok(request) => (
                            ProvisionState::AddingCertificate { signer, keyring },
                            ProvisionAction::AddKey(request),
                        ),
                        Err(e) => (ProvisionState::Closed, ProvisionAction::Fail(e)),
                    }
                },
            }
        },
        (ProvisionState::ReadingKeys(_), ProvisionEvent::KeysRead(Err(reason))) => (
            ProvisionState::Closed,
            ProvisionAction::Fail(SignerError::KeysUnreadable(reason)),
        ),
        (
            ProvisionState::AddingCertificate { signer, keyring },
            ProvisionEvent::KeyAdded(Ok(key)),
        ) => (
            ProvisionState::SealingKeyring { signer, keyring, key },
            ProvisionAction::SealKeyring { keyring },
        ),
        (
            ProvisionState::AddingCertificate { signer: _, keyring: _ },
            ProvisionEvent::KeyAdded(Err(reason)),
        ) => (
            ProvisionState::Closed,
            ProvisionAction::Fail(SignerError::KeyNotAdded(reason)),
        ),
        (
            ProvisionState::SealingKeyring { signer, keyring: _, key: _ },
            ProvisionEvent::KeyringSealed(Ok(_)),
        ) => {
            proof {
                let action = ProvisionAction::Ready(ProvisionedSigner { inner: signer });
                lemma_run_goes_on(
                    ProvisionTransition { from, event: input, to: ProvisionState::Closed, action },
                );
            }
            (ProvisionState::Closed, ProvisionAction::Ready(ProvisionedSigner { inner: signer }))
        },
        (
            ProvisionState::SealingKeyring { signer: _, keyring, key },
            ProvisionEvent::KeyringSealed(Err(reason)),
        ) => (
            ProvisionState::RemovingCertificate { reason },
            ProvisionAction::RemoveKey { key, keyring },
        ),
        (ProvisionState::RemovingCertificate { reason }, ProvisionEvent::KeyRemoved) => (
            ProvisionState::Closed,
            ProvisionAction::Fail(SignerError::KeyringNotSealed(reason)),
        ),
        _ => (ProvisionState::Closed, ProvisionAction::Fail(SignerError::OutOfOrder)),
    };
    proof {
        lemma_run_goes_on(ProvisionTransition { from, event: input, to: state, action });
    }
    (Provisioning { state }, action)
}

// ---------------------------------------------------------------------------
// Signatures
// ---------------------------------------------------------------------------

/// The description of the key for signature number `sequence` of a process.
pub open spec fn signature_description(process_id: u32, sequence: u64) -> Seq<char> {
    "kata-erofs-"@ + decimal(process_id as nat) + "-"@ + decimal(sequence as nat)
}

/// A detached signature of a root hash, and the description of the key under
/// which the kernel finds it while it loads the device's table.
pub struct RootHashSignature {
    key_description: String,
    signature: Vec<u8>,
}

impl RootHashSignature {
    /// The description, as text.
    pub closed spec fn description(&self) -> Seq<char> {
        self.key_description@
    }

    /// The signature, as bytes.
    pub closed spec fn bytes(&self) -> Seq<u8> {
        self.signature@
    }

    /// Signature number `sequence` of a process.
    pub fn new(process_id: u32, sequence: u64, signature: Vec<u8>) -> (r: Self)
        ensures
            r.description() == signature_description(process_id, sequence),
            r.bytes() == signature@,
    {
        let mut key_description: String = String::new();
        key_description.append("kata-erofs-");
        append_decimal(&mut key_description, process_id as u64);
        key_description.append("-");
        append_decimal(&mut key_description, sequence);
        assert(key_description@ =~= signature_description(process_id, sequence));
        RootHashSignature { key_description, signature }
    }

    /// The description of the key that holds the signature.
    pub fn key_description(&self) -> (r: &str)
        ensures
            r@ == self.description(),
    {
        self.key_description.as_str()
    }

    /// The signature.
    pub fn payload(&self) -> (r: &[u8])
        ensures
            r@ == self.bytes(),
    {
        self.signature.as_slice()
    }
}

// ---------------------------------------------------------------------------
// The state of the signer
// ---------------------------------------------------------------------------

/// The signer, as long as there is one, and what it has signed.
pub struct LayerSignerState {
    signer: Option<LayerSigner>,
    finalized: bool,
    active_signatures: usize,
    next_sequence: u64,
}

/// The contents of a [`LayerSignerState`].
pub struct SignerModel {
    /// The signer, between provisioning and destruction.
    pub signer: Option<LayerSigner>,
    /// No further signature is made.
    pub finalized: bool,
    /// How many signatures are in use.
    pub active: nat,
    /// The number of the next signature.
    pub sequence: u64,
}

impl View for LayerSignerState {
    type V = SignerModel;

    closed spec fn view(&self) -> SignerModel {
        SignerModel {
            signer: self.signer,
            finalized: self.finalized,
            active: self.active_signatures as nat,
            sequence: self.next_sequence,
        }
    }
}

/// What a request for a signature comes to.
pub enum SignatureStep {
    /// A signer must be provisioned and installed first.
    Provision,
    /// The signature, which is in use until it is released.
    Signed(RootHashSignature),
}

/// What the start of finalization comes to.
#[derive(Clone, Copy, Debug, PartialEq, Eq, Structural)]
pub enum FinalizeStep {
    /// A signer must be provisioned and installed first, so that the keyring
    /// does not stay open.
    Provision,
    /// No further signature is made.
    Closed,
}

/// The next number.
pub open spec fn next_sequence(sequence: u64) -> u64 {
    if sequence == u64::MAX {
        0
    } else {
        (sequence + 1) as u64
    }
}

impl SignerModel {
    /// No signer, nothing signed.
    pub open spec fn initial() -> SignerModel {
        SignerModel { signer: None, finalized: false, active: 0, sequence: 0 }
    }

    /// A request gets as far as to be signed.
    pub open spec fn signs(self) -> bool {
        !self.finalized && self.signer is Some
    }

    /// After a signer was installed.
    pub open spec fn installed(self, signer: LayerSigner) -> SignerModel {
        SignerModel { signer: Some(signer), ..self }
    }

    /// After a signature was made.
    pub open spec fn signed(self) -> SignerModel {
        SignerModel {
            active: self.active + 1,
            sequence: next_sequence(self.sequence),
            ..self
        }
    }

    /// After a signature was released.
    pub open spec fn released(self) -> SignerModel {
        SignerModel {
            active: if self.active == 0 {
                0
            } else {
                (self.active - 1) as nat
            },
            ..self
        }
    }

    /// After the start of finalization.
    pub open spec fn closed(self) -> SignerModel {
        if self.signer is Some {
            SignerModel { finalized: true, ..self }
        } else {
            self
        }
    }

    /// After an attempt to finish finalization.
    pub open spec fn destroyed(self) -> SignerModel {
        if self.active == 0 {
            SignerModel { signer: None, ..self }
        } else {
            self
        }
    }
}

/// What a request for a signature of `root_hash` comes to.
pub open spec fn sign_request(
    before: SignerModel,
    root_hash: Seq<char>,
    process_id: u32,
    r: Result<SignatureStep, SignerError>,
    after: SignerModel,
) -> bool {
    if before.finalized {
        &&& r matches Err(SignerError::Finalized)
        &&& after == before
    } else {
        match before.signer {
            None => {
                &&& r matches Ok(SignatureStep::Provision)
                &&& after == before
            },
            Some(signer) => exists|outcome: Result<Vec<u8>, SignerError>|
                {
                    &&& #[trigger] signs_root_hash(signer, root_hash, outcome)
                    &&& match outcome {
                        Ok(bytes) => {
                            &&& r matches Ok(SignatureStep::Signed(signature))
                            &&& signature.bytes() == bytes@
                            &&& signature.description() == signature_description(
                                process_id,
                                before.sequence,
                            )
                            &&& after == before.signed()
                        },
                        Err(e) => {
                            &&& r == Err::<SignatureStep, SignerError>(e)
                            &&& after == before
                        },
                    }
                },
        }
    }
}

impl LayerSignerState {
    /// No signer, nothing signed.
    pub fn new() -> (r: Self)
        ensures
            r@ == SignerModel::initial(),
    {
        LayerSignerState { signer: None, finalized: false, active_signatures: 0, next_sequence: 0 }
    }

    /// How many signatures are in use.
    pub fn active(&self) -> (n: usize)
        ensures
            n == self@.active,
    {
        self.active_signatures
    }

    /// Whether a request gets as far as to be signed.
    pub fn is_signing(&self) -> (r: bool)
        ensures
            r == self@.signs(),
    {
        !self.finalized && self.signer.is_some()
    }

    /// Takes a freshly provisioned signer.
    pub fn install(&mut self, provisioned: ProvisionedSigner)
        requires
            old(self)@.signer is None,
        ensures
            final(self)@ == old(self)@.installed(provisioned.signer()),
            handed_out(provisioned),
    {
        proof {
            use_type_invariant(&provisioned);
        }
        self.signer = Some(provisioned.inner);
    }

    /// A signature of a layer's root hash, which stays in use until it is
    /// released.
    pub fn sign_layer_root_hash(&mut self, root_hash: &str, process_id: u32) -> (r: Result<
        SignatureStep,
        SignerError,
    >)
        requires
            old(self)@.signs() && hex_digest(root_hash@) ==> old(self)@.active < usize::MAX,
            old(self)@.signs() && hex_digest(root_hash@) ==> root_hash@.len() <= i32::MAX,
        ensures
            sign_request(old(self)@, root_hash@, process_id, r, final(self)@),
    {
        if self.finalized {
            return Err(SignerError::Finalized);
        }
        let outcome: Result<Vec<u8>, SignerError> = match &self.signer {
            None => {
                return Ok(SignatureStep::Provision);
            },
            Some(signer) => signer.sign(root_hash),
        };
        assert(signs_root_hash(old(self)@.signer->0, root_hash@, outcome));
        match outcome {
            Err(e) => Err(e),
            Ok(signature) => {
                let sequence: u64 = self.next_sequence;
                self.next_sequence = if sequence == u64::MAX {
                    0
                } else {
                    sequence + 1
                };
                self.active_signatures = self.active_signatures + 1;
                Ok(SignatureStep::Signed(RootHashSignature::new(process_id, sequence, signature)))
            },
        }
    }

    /// Notes that a signature is no longer in use. Tells whether none is, so
    /// that whoever waits for that must be woken.
    pub fn release(&mut self) -> (idle: bool)
        ensures
            final(self)@ == old(self)@.released(),
            idle == (final(self)@.active == 0),
    {
        if self.active_signatures > 0 {
            self.active_signatures = self.active_signatures - 1;
        }
        self.active_signatures == 0
    }

    /// Starts finalization: from here on no layer is signed.
    pub fn begin_finalize(&mut self) -> (r: FinalizeStep)
        ensures
            final(self)@ == old(self)@.closed(),
            r == (if old(self)@.signer is Some {
                FinalizeStep::Closed
            } else {
                FinalizeStep::Provision
            }),
    {
        if self.signer.is_none() {
            return FinalizeStep::Provision;
        }
        self.finalized = true;
        FinalizeStep::Closed
    }

    /// Destroys the signer, if no signature is in use; tells whether it did.
    /// Finalization has begun.
    pub fn finish_finalize(&mut self) -> (done: bool)
        requires
            old(self)@.finalized,
        ensures
            final(self)@ == old(self)@.destroyed(),
            done == (old(self)@.active == 0),
    {
        if self.active_signatures != 0 {
            return false;
        }
        self.signer = None;
        true
    }
}

// ---------------------------------------------------------------------------
// Laws of provisioning
// ---------------------------------------------------------------------------

/// `run` adds the signer's certificate to a keyring, has that keyring sealed,
/// and then hands the signer out.
pub open spec fn seals_keyring_first(
    run: Seq<ProvisionTransition>,
    provisioned: ProvisionedSigner,
) -> bool {
    &&& provision_run(run)
    &&& run.len() == 3
    &&& run[0].from == ProvisionState::ReadingKeys(provisioned.signer())
    &&& run[0].action matches ProvisionAction::AddKey(request)
    &&& adds_certificate(
        request,
        certificate_der(provisioned.signer().signing_certificate()),
        request.keyring,
    )
    &&& run[1].event matches ProvisionEvent::KeyAdded(Ok(_))
    &&& run[1].action == (ProvisionAction::SealKeyring { keyring: request.keyring })
    &&& run[2].event matches ProvisionEvent::KeyringSealed(Ok(_))
    &&& run[2].action == ProvisionAction::Ready(provisioned)
}

/// A signer is handed out only behind a sealed keyring: its certificate was
/// added to a keyring, then that keyring was to be sealed, and then it was.
pub proof fn law_signer_is_ready_only_behind_a_sealed_keyring(
    run: Seq<ProvisionTransition>,
    provisioned: ProvisionedSigner,
)
    requires
        provision_run(run),
        run.last().action == ProvisionAction::Ready(provisioned),
    ensures
        seals_keyring_first(run, provisioned),
{
    let n = run.len();
    assert(run[n - 1] == run.last());
    assert(provision_step(run[0].from, run[0].event, run[0].to, run[0].action));
    if n > 1 {
        assert(run[1].from == run[0].to);
        assert(provision_step(run[1].from, run[1].event, run[1].to, run[1].action));
    }
    if n > 2 {
        assert(run[2].from == run[1].to);
        assert(provision_step(run[2].from, run[2].event, run[2].to, run[2].action));
    }
    if n > 3 {
        assert(run[3].from == run[2].to);
        lemma_late_states(run, (n - 1) as int);
        assert(provision_step(run.last().from, run.last().event, run.last().to, run.last().action));
    }
}

proof fn lemma_late_states(run: Seq<ProvisionTransition>, i: int)
    requires
        provision_run(run),
        3 <= i < run.len(),
    ensures
        run[i].from is Closed || run[i].from is RemovingCertificate,
    decreases i,
{
    assert(run[i].from == run[i - 1].to);
    assert(provision_step(run[i - 1].from, run[i - 1].event, run[i - 1].to, run[i - 1].action));
    if i > 3 {
        lemma_late_states(run, i - 1);
    } else {
        assert(run[2].from == run[1].to);
        assert(run[1].from == run[0].to);
        assert(provision_step(run[1].from, run[1].event, run[1].to, run[1].action));
        assert(provision_step(run[0].from, run[0].event, run[0].to, run[0].action));
    }
}

/// A keyring that was not sealed does not keep the certificate: the step after
/// the failure takes out the key that was added, and the signer is not handed
/// out afterwards.
pub proof fn law_unsealed_keyring_loses_the_certificate(
    run: Seq<ProvisionTransition>,
    i: int,
    reason: String,
)
    requires
        provision_run(run),
        0 < i < run.len(),
        run[i].from is SealingKeyring,
        run[i].event == ProvisionEvent::KeyringSealed(Err(reason)),
    ensures
        run[i - 1].event matches ProvisionEvent::KeyAdded(Ok(key)) && run[i - 1].action matches ProvisionAction::SealKeyring {
            keyring,
        } && run[i].action == (ProvisionAction::RemoveKey { key, keyring }),
        forall|j: int| i <= j < run.len() ==> !((#[trigger] run[j]).action is Ready),
{
    assert(run[i].from == run[i - 1].to);
    assert(provision_step(run[i].from, run[i].event, run[i].to, run[i].action));
    assert(provision_step(run[i - 1].from, run[i - 1].event, run[i - 1].to, run[i - 1].action));
    assert forall|j: int| i <= j < run.len() implies !((#[trigger] run[j]).action is Ready) by {
        lemma_never_ready(run, i, j);
    }
}

proof fn lemma_never_ready(run: Seq<ProvisionTransition>, i: int, j: int)
    requires
        provision_run(run),
        0 < i <= j < run.len(),
        run[i].to is RemovingCertificate,
        !(run[i].action is Ready),
    ensures
        !(run[j].action is Ready),
        run[j].to is RemovingCertificate || run[j].to is Closed,
    decreases j,
{
    if j > i {
        lemma_never_ready(run, i, j - 1);
        assert(run[j].from == run[j - 1].to);
        assert(provision_step(run[j].from, run[j].event, run[j].to, run[j].action));
    }
}

// ---------------------------------------------------------------------------
// Laws of signing
// ---------------------------------------------------------------------------

/// An operation on the state of the signer.
pub enum SignerOperation {
    Install(ProvisionedSigner),
    Request { root_hash: Seq<char>, process_id: u32, result: Result<SignatureStep, SignerError> },
    Release,
    BeginFinalize,
    FinishFinalize,
}

/// What an operation does to the state.
pub open spec fn operates(before: SignerModel, operation: SignerOperation, after: SignerModel) -> bool {
    match operation {
        SignerOperation::Install(provisioned) => {
            &&& before.signer is None
            &&& handed_out(provisioned)
            &&& after == before.installed(provisioned.signer())
        },
        SignerOperation::Request { root_hash, process_id, result } => sign_request(
            before,
            root_hash,
            process_id,
            result,
            after,
        ),
        SignerOperation::Release => after == before.released(),
        SignerOperation::BeginFinalize => after == before.closed(),
        SignerOperation::FinishFinalize => {
            &&& before.finalized
            &&& after == before.destroyed()
        },
    }
}

/// Operations one after another, and the states between them.
pub open spec fn signer_history(
    states: Seq<SignerModel>,
    operations: Seq<SignerOperation>,
) -> bool {
    &&& states.len() == operations.len() + 1
    &&& forall|i: int|
        #![trigger operations[i]]
        0 <= i < operations.len() ==> operates(states[i], operations[i], states[i + 1])
}

/// The operation made a signature.
pub open spec fn made_signature(operation: SignerOperation) -> bool {
    operation matches SignerOperation::Request { root_hash, process_id, result } && result matches Ok(
        SignatureStep::Signed(_),
    )
}

/// The signature that an operation made.
pub open spec fn signature_of(operation: SignerOperation) -> RootHashSignature {
    operation->result->Ok_0->Signed_0
}

proof fn lemma_finalized_stays(
    states: Seq<SignerModel>,
    operations: Seq<SignerOperation>,
    i: int,
    j: int,
)
    requires
        signer_history(states, operations),
        0 <= i <= j < states.len(),
        states[i].finalized,
    ensures
        states[j].finalized,
    decreases j - i,
{
    if i < j {
        lemma_finalized_stays(states, operations, i, j - 1);
        assert(operates(states[j - 1], operations[j - 1], states[j]));
    }
}

/// Once finalization has begun, every request is refused and changes nothing,
/// whatever else is done in between: no layer is authorized any more.
pub proof fn law_no_signature_after_finalization(
    states: Seq<SignerModel>,
    operations: Seq<SignerOperation>,
    i: int,
    j: int,
)
    requires
        signer_history(states, operations),
        0 <= i <= j < operations.len(),
        states[i].finalized,
    ensures
        states[j + 1].finalized,
        operations[j] matches SignerOperation::Request { root_hash, process_id, result }
            ==> result matches Err(SignerError::Finalized) && states[j + 1] == states[j],
        !made_signature(operations[j]),
{
    lemma_finalized_stays(states, operations, i, j);
    lemma_finalized_stays(states, operations, i, j + 1);
    assert(operates(states[j], operations[j], states[j + 1]));
}

/// The operation installs a signer that was handed out behind a sealed keyring.
pub open spec fn installs_behind_sealed_keyring(operation: SignerOperation) -> bool {
    operation matches SignerOperation::Install(provisioned) && exists|
        run: Seq<ProvisionTransition>,
    | #[trigger] seals_keyring_first(run, provisioned)
}

proof fn lemma_install_is_behind_sealed_keyring(
    states: Seq<SignerModel>,
    operations: Seq<SignerOperation>,
    i: int,
)
    requires
        signer_history(states, operations),
        0 <= i < operations.len(),
        operations[i] is Install,
    ensures
        installs_behind_sealed_keyring(operations[i]),
{
    assert(operates(states[i], operations[i], states[i + 1]));
    let provisioned = operations[i]->Install_0;
    let run = choose|run: Seq<ProvisionTransition>| #[trigger]
        provision_run(run) && run.last().action == ProvisionAction::Ready(provisioned);
    law_signer_is_ready_only_behind_a_sealed_keyring(run, provisioned);
}

proof fn lemma_signer_was_installed(
    states: Seq<SignerModel>,
    operations: Seq<SignerOperation>,
    j: int,
)
    requires
        signer_history(states, operations),
        states[0].signer is None,
        0 <= j < states.len(),
        states[j].signer is Some,
    ensures
        exists|i: int|
            {
                &&& 0 <= i < j
                &&& #[trigger] operations[i] matches SignerOperation::Install(provisioned)
                &&& states[j].signer == Some(provisioned.signer())
            },
    decreases j,
{
    if j > 0 {
        assert(operates(states[j - 1], operations[j - 1], states[j]));
        if !(operations[j - 1] is Install) {
            lemma_signer_was_installed(states, operations, j - 1);
        }
    }
}

proof fn lemma_finalized_after_install(
    states: Seq<SignerModel>,
    operations: Seq<SignerOperation>,
    j: int,
)
    requires
        signer_history(states, operations),
        states[0] == SignerModel::initial(),
        0 <= j < states.len(),
        states[j].finalized,
    ensures
        exists|i: int| 0 <= i < j && #[trigger] operations[i] is Install,
    decreases j,
{
    if j > 0 {
        assert(operates(states[j - 1], operations[j - 1], states[j]));
        if states[j - 1].finalized {
            lemma_finalized_after_install(states, operations, j - 1);
        } else {
            lemma_signer_was_installed(states, operations, j - 1);
        }
    }
}

/// Nothing is signed and nothing is finalized but behind a sealed keyring: what
/// signs is a signer whose certificate was added to a keyring that was sealed
/// before the signer was installed, and before finalization such a signer was
/// installed too, even if no layer was ever signed.
pub proof fn law_keyring_is_sealed_before_use(
    states: Seq<SignerModel>,
    operations: Seq<SignerOperation>,
    j: int,
)
    requires
        signer_history(states, operations),
        states[0] == SignerModel::initial(),
        0 <= j < operations.len(),
    ensures
        made_signature(operations[j]) ==> exists|i: int|
            {
                &&& 0 <= i < j
                &&& #[trigger] installs_behind_sealed_keyring(operations[i])
                &&& states[j].signer == Some(operations[i]->Install_0.signer())
            },
        states[j + 1].finalized ==> exists|i: int|
            0 <= i < j && #[trigger] installs_behind_sealed_keyring(operations[i]),
{
    assert(operates(states[j], operations[j], states[j + 1]));
    if made_signature(operations[j]) {
        lemma_signer_was_installed(states, operations, j);
        let i = choose|i: int|
            {
                &&& 0 <= i < j
                &&& #[trigger] operations[i] matches SignerOperation::Install(provisioned)
                &&& states[j].signer == Some(provisioned.signer())
            };
        lemma_install_is_behind_sealed_keyring(states, operations, i);
    }
    if states[j + 1].finalized {
        if states[j].finalized {
            lemma_finalized_after_install(states, operations, j);
        } else {
            lemma_signer_was_installed(states, operations, j);
        }
        let i = choose|i: int| 0 <= i < j && #[trigger] operations[i] is Install;
        lemma_install_is_behind_sealed_keyring(states, operations, i);
    }
}

/// Finalization that comes to its end leaves no key, no way to sign and no
/// signature in use, behind a keyring that was sealed.
pub proof fn law_finalization_destroys_the_key(
    states: Seq<SignerModel>,
    operations: Seq<SignerOperation>,
    j: int,
)
    requires
        signer_history(states, operations),
        states[0] == SignerModel::initial(),
        0 <= j < operations.len(),
        operations[j] is FinishFinalize,
        states[j].active == 0,
    ensures
        states[j + 1].finalized,
        states[j + 1].signer is None,
        states[j + 1].active == 0,
        exists|i: int| 0 <= i < j && #[trigger] installs_behind_sealed_keyring(operations[i]),
{
    assert(operates(states[j], operations[j], states[j + 1]));
    law_keyring_is_sealed_before_use(states, operations, j);
}

/// After finalization has come to its end, every request is refused, whatever
/// is to be signed, and leaves the state as it is: no signer is made again.
pub proof fn law_finalization_is_final(
    states: Seq<SignerModel>,
    operations: Seq<SignerOperation>,
    i: int,
    j: int,
)
    requires
        signer_history(states, operations),
        0 <= i < j < operations.len(),
        operations[i] is FinishFinalize,
        states[i].active == 0,
        operations[j] is Request,
    ensures
        operations[j]->result matches Err(SignerError::Finalized),
        states[j + 1] == states[j],
{
    assert(operates(states[i], operations[i], states[i + 1]));
    law_no_signature_after_finalization(states, operations, i + 1, j);
}

/// A signer stays the same until finalization begins, and a request that comes
/// in between asks for no other: keys are made, provisioned and sealed at most
/// once before finalization.
pub proof fn law_signer_stays_until_finalization(
    states: Seq<SignerModel>,
    operations: Seq<SignerOperation>,
    i: int,
    j: int,
)
    requires
        signer_history(states, operations),
        0 <= i <= j < operations.len(),
        states[i].signer is Some,
        !states[j].finalized,
    ensures
        states[j].signer == states[i].signer,
        !(operations[j] is Install),
        operations[j] matches SignerOperation::Request { root_hash, process_id, result } ==> !(
        result matches Ok(SignatureStep::Provision)),
{
    lemma_signer_stays(states, operations, i, j);
    assert(operates(states[j], operations[j], states[j + 1]));
}

proof fn lemma_signer_stays(
    states: Seq<SignerModel>,
    operations: Seq<SignerOperation>,
    i: int,
    j: int,
)
    requires
        signer_history(states, operations),
        0 <= i <= j < states.len(),
        states[i].signer is Some,
        !states[j].finalized,
    ensures
        states[j].signer == states[i].signer,
    decreases j - i,
{
    if i < j {
        if states[j - 1].finalized {
            lemma_finalized_stays(states, operations, j - 1, j);
        }
        lemma_signer_stays(states, operations, i, j - 1);
        assert(operates(states[j - 1], operations[j - 1], states[j]));
    }
}

/// A signature that was handed out consists, byte for byte, of what the signer
/// of that moment made of the root hash, and verifies under its certificate.
pub proof fn law_payload_is_the_signature(
    before: SignerModel,
    root_hash: Seq<char>,
    process_id: u32,
    signature: RootHashSignature,
    after: SignerModel,
)
    requires
        sign_request(before, root_hash, process_id, Ok(SignatureStep::Signed(signature)), after),
    ensures
        before.signer is Some,
        exists|made: Vec<u8>|
            made@ == signature.bytes() && #[trigger] signs_root_hash(
                before.signer->0,
                root_hash,
                Ok(made),
            ),
        verifies_detached(
            signature.bytes(),
            before.signer->0.signing_certificate(),
            encode_utf8(root_hash),
        ),
{
}

/// All signatures of a history verify under one certificate, each for its own
/// root hash.
pub proof fn law_signatures_share_a_certificate(
    states: Seq<SignerModel>,
    operations: Seq<SignerOperation>,
    i: int,
    j: int,
)
    requires
        signer_history(states, operations),
        0 <= i <= j < operations.len(),
        made_signature(operations[i]),
        made_signature(operations[j]),
    ensures
        states[i].signer is Some,
        states[j].signer == states[i].signer,
        verifies_detached(
            signature_of(operations[i]).bytes(),
            states[i].signer->0.signing_certificate(),
            encode_utf8(operations[i]->root_hash),
        ),
        verifies_detached(
            signature_of(operations[j]).bytes(),
            states[i].signer->0.signing_certificate(),
            encode_utf8(operations[j]->root_hash),
        ),
{
    assert(operates(states[i], operations[i], states[i + 1]));
    assert(operates(states[j], operations[j], states[j + 1]));
    lemma_signer_stays(states, operations, i, j);
}

/// How many signatures the operations made.
pub open spec fn signatures_made(operations: Seq<SignerOperation>) -> nat
    decreases operations.len(),
{
    if operations.len() == 0 {
        0
    } else {
        signatures_made(operations.drop_last()) + if made_signature(operations.last()) {
            1nat
        } else {
            0
        }
    }
}

/// How many signatures the operations released.
pub open spec fn signatures_released(operations: Seq<SignerOperation>) -> nat
    decreases operations.len(),
{
    if operations.len() == 0 {
        0
    } else {
        signatures_released(operations.drop_last()) + if operations.last() is Release {
            1nat
        } else {
            0
        }
    }
}

/// As long as no more signatures are released than were made, the number of
/// signatures in use is the difference; so the key is kept until every
/// signature has been released.
pub proof fn law_key_outlives_its_signatures(
    states: Seq<SignerModel>,
    operations: Seq<SignerOperation>,
)
    requires
        signer_history(states, operations),
        states[0].active == 0,
        forall|n: int|
            #![trigger operations.take(n)]
            0 <= n <= operations.len() ==> signatures_released(operations.take(n))
                <= signatures_made(operations.take(n)),
    ensures
        states.last().active == signatures_made(operations) - signatures_released(operations),
        states.last().signer is Some && signatures_released(operations) < signatures_made(
            operations,
        ) ==> states.last().destroyed().signer is Some,
    decreases operations.len(),
{
    let n = operations.len() as int;
    assert(operations.take(n) =~= operations);
    if n > 0 {
        let before = operations.drop_last();
        let earlier = states.drop_last();
        assert forall|i: int| #![trigger before[i]] 0 <= i < before.len() implies operates(
            earlier[i],
            before[i],
            earlier[i + 1],
        ) by {
            assert(operates(states[i], operations[i], states[i + 1]));
        }
        assert forall|m: int| #![trigger before.take(m)] 0 <= m <= before.len() implies signatures_released(
        before.take(m)) <= signatures_made(before.take(m)) by {
            assert(before.take(m) =~= operations.take(m));
        }
        law_key_outlives_its_signatures(earlier, before);
        assert(operates(states[n - 1], operations[n - 1], states[n]));
        assert(earlier.last() == states[n - 1]);
    }
}

/// Descriptions tell processes and sequence numbers apart.
pub proof fn law_descriptions_are_distinct(p: u32, m: u64, q: u32, n: u64)
    requires
        signature_description(p, m) == signature_description(q, n),
    ensures
        p == q,
        m == n,
{
    reveal_strlit("-");
    let head = "kata-erofs-"@;
    let k = head.len() as int;
    let x = signature_description(p, m);
    let y = signature_description(q, n);
    let a = decimal(p as nat);
    let b = decimal(q as nat);
    let c = decimal(m as nat);
    let d = decimal(n as nat);
    lemma_decimal_digits(p as nat);
    lemma_decimal_digits(q as nat);
    assert(x[k + a.len()] == '-');
    assert(y[k + b.len()] == '-');
    if a.len() < b.len() {
        assert(y[k + a.len()] == b[a.len() as int]);
    }
    if b.len() < a.len() {
        assert(x[k + b.len()] == a[b.len() as int]);
    }
    assert forall|i: int| 0 <= i < a.len() implies a[i] == b[i] by {
        assert(x[k + i] == a[i]);
        assert(y[k + i] == b[i]);
    }
    assert(a =~= b);
    lemma_decimal_is_injective(p as nat, q as nat);
    assert(x.len() == k + a.len() + 1 + c.len());
    assert(y.len() == k + b.len() + 1 + d.len());
    assert forall|i: int| 0 <= i < c.len() implies c[i] == d[i] by {
        assert(x[k + a.len() + 1 + i] == c[i]);
        assert(y[k + b.len() + 1 + i] == d[i]);
    }
    assert(c =~= d);
    lemma_decimal_is_injective(m as nat, n as nat);
}

proof fn lemma_sequence_grows(
    states: Seq<SignerModel>,
    operations: Seq<SignerOperation>,
    i: int,
    j: int,
)
    requires
        signer_history(states, operations),
        0 <= i <= j < states.len(),
        states[i].sequence + (j - i) <= u64::MAX,
    ensures
        states[i].sequence <= states[j].sequence <= states[i].sequence + (j - i),
    decreases j - i,
{
    if i < j {
        lemma_sequence_grows(states, operations, i, j - 1);
        assert(operates(states[j - 1], operations[j - 1], states[j]));
    }
}

/// No two signatures of one history, which starts at number zero and is not
/// longer than the numbers reach, have the same key description.
pub proof fn law_signatures_have_their_own_keys(
    states: Seq<SignerModel>,
    operations: Seq<SignerOperation>,
    i: int,
    j: int,
    a: RootHashSignature,
    b: RootHashSignature,
)
    requires
        signer_history(states, operations),
        states[0].sequence == 0,
        operations.len() <= u64::MAX,
        0 <= i < j < operations.len(),
        operations[i] matches SignerOperation::Request { root_hash, process_id, result } && result
            == Ok::<SignatureStep, SignerError>(SignatureStep::Signed(a)),
        operations[j] matches SignerOperation::Request { root_hash, process_id, result } && result
            == Ok::<SignatureStep, SignerError>(SignatureStep::Signed(b)),
    ensures
        a.description() != b.description(),
{
    lemma_sequence_grows(states, operations, 0, i);
    lemma_sequence_grows(states, operations, i + 1, j);
    assert(operates(states[i], operations[i], states[i + 1]));
    assert(operates(states[j], operations[j], states[j + 1]));
    let p = operations[i]->process_id;
    let q = operations[j]->process_id;
    assert(states[i + 1].sequence == states[i].sequence + 1);
    if a.description() == b.description() {
        law_descriptions_are_distinct(p, states[i].sequence, q, states[j].sequence);
    }
}

// ---------------------------------------------------------------------------
// Laws, written out
// ---------------------------------------------------------------------------

/// What each operation does to each part of the state.
pub proof fn law_operations_by_part(state: SignerModel, signer: LayerSigner)
    ensures
        SignerModel::initial().signer is None,
        !SignerModel::initial().finalized,
        SignerModel::initial().active == 0,
        SignerModel::initial().sequence == 0,
        state.installed(signer).signer == Some(signer),
        state.installed(signer).finalized == state.finalized,
        state.installed(signer).active == state.active,
        state.installed(signer).sequence == state.sequence,
        state.signed().signer == state.signer,
        state.signed().finalized == state.finalized,
        state.signed().active == state.active + 1,
        state.sequence < u64::MAX ==> state.signed().sequence == state.sequence + 1,
        state.sequence == u64::MAX ==> state.signed().sequence == 0,
        state.released().signer == state.signer,
        state.released().finalized == state.finalized,
        state.active > 0 ==> state.released().active == state.active - 1,
        state.active == 0 ==> state.released().active == 0,
        state.released().sequence == state.sequence,
        state.closed().signer == state.signer,
        state.signer is Some ==> state.closed().finalized,
        state.signer is None ==> state.closed().finalized == state.finalized,
        state.closed().active == state.active,
        state.closed().sequence == state.sequence,
        state.active == 0 ==> state.destroyed().signer is None,
        state.active > 0 ==> state.destroyed().signer == state.signer,
        state.destroyed().finalized == state.finalized,
        state.destroyed().active == state.active,
        state.destroyed().sequence == state.sequence,
        state.signs() <==> state.signer is Some && !state.finalized,
{
}

/// The start of finalization is effective, however many signatures are in use:
/// with a signer, the state is finalized at once, and every later request is
/// refused and changes nothing.
pub proof fn law_finalization_is_effective_from_its_start(
    states: Seq<SignerModel>,
    operations: Seq<SignerOperation>,
    i: int,
    j: int,
)
    requires
        signer_history(states, operations),
        0 <= i < j < operations.len(),
        operations[i] is BeginFinalize,
        states[i].signer is Some,
    ensures
        states[i + 1].finalized,
        !states[j].signs(),
        operations[j] matches SignerOperation::Request { root_hash, process_id, result } ==> {
            &&& result matches Err(SignerError::Finalized)
            &&& states[j + 1] == states[j]
        },
{
    assert(operates(states[i], operations[i], states[i + 1]));
    lemma_finalized_stays(states, operations, i + 1, j);
    law_no_signature_after_finalization(states, operations, i + 1, j);
}

/// With a signer, the start of finalization finalizes the state and keeps signer,
/// signatures in use and numbers as they are; without one it changes nothing.
pub proof fn law_start_of_finalization(before: SignerModel, after: SignerModel)
    requires
        operates(before, SignerOperation::BeginFinalize, after),
    ensures
        before.signer is Some ==> after.finalized,
        before.signer is None ==> after.finalized == before.finalized,
        after.signer == before.signer,
        after.active == before.active,
        after.sequence == before.sequence,
{
}

/// Finalization waits for the signatures in use and for nothing else: its end
/// takes the key away if and only if none is in use.
pub proof fn law_end_of_finalization(before: SignerModel, after: SignerModel)
    requires
        operates(before, SignerOperation::FinishFinalize, after),
    ensures
        before.finalized && after.finalized,
        before.active == 0 ==> after.signer is None,
        before.active > 0 ==> after.signer == before.signer,
        after.active == before.active,
        after.sequence == before.sequence,
{
}

/// What a request comes to: after finalization a refusal; without a signer the
/// demand for one; for what is not a whole number of bytes in hexadecimal a
/// refusal; and otherwise a signature that verifies, described by process and
/// number, or OpenSSL's failure. Only a signature changes the state: one more is
/// in use, and the number goes up by one.
pub proof fn law_requests(
    before: SignerModel,
    root_hash: Seq<char>,
    process_id: u32,
    r: Result<SignatureStep, SignerError>,
    after: SignerModel,
)
    requires
        sign_request(before, root_hash, process_id, r, after),
    ensures
        before.finalized ==> r matches Err(SignerError::Finalized),
        !before.finalized && before.signer is None ==> r matches Ok(SignatureStep::Provision),
        !before.finalized && before.signer is Some && !whole_bytes(root_hash) ==> r matches Err(
            SignerError::InvalidRootHash,
        ),
        !before.finalized && before.signer is Some && whole_bytes(root_hash) ==> {
            ||| r matches Ok(SignatureStep::Signed(_))
            ||| r matches Err(SignerError::Crypto(_))
        },
        r matches Err(SignerError::Crypto(e)) ==> {
            &&& before.signer matches Some(signer)
            &&& signs_root_hash(signer, root_hash, Err(SignerError::Crypto(e)))
        },
        r matches Ok(SignatureStep::Signed(signature)) ==> {
            &&& before.signer matches Some(signer)
            &&& exists|made: Vec<u8>| #[trigger]
                signs_root_hash(signer, root_hash, Ok(made)) && signature.bytes() == made@
        },
        r matches Ok(SignatureStep::Signed(signature)) ==> {
            &&& verifies_detached(
                signature.bytes(),
                before.signer->0.signing_certificate(),
                encode_utf8(root_hash),
            )
            &&& signature.description() == "kata-erofs-"@ + decimal(process_id as nat) + "-"@
                + decimal(before.sequence as nat)
            &&& after.signer == before.signer
            &&& !after.finalized
            &&& after.active == before.active + 1
            &&& before.sequence < u64::MAX ==> after.sequence == before.sequence + 1
            &&& before.sequence == u64::MAX ==> after.sequence == 0
        },
        !(r matches Ok(SignatureStep::Signed(_))) ==> after == before,
{
    law_validity((seq![], root_hash));
}

/// What a signer makes of a root hash is the encoding of OpenSSL's detached
/// signature, without certificates, of the text of the root hash, with the
/// signer's key and certificate.
pub proof fn law_signatures_are_made_by_openssl(
    signer: LayerSigner,
    root_hash: Seq<char>,
    signature: Vec<u8>,
)
    requires
        signs_root_hash(signer, root_hash, Ok(signature)),
    ensures
        whole_bytes(root_hash),
        exists|structure: Pkcs7|
            {
                &&& #[trigger] signs(
                    signer.signing_certificate(),
                    signer.signing_key(),
                    seq![],
                    encode_utf8(root_hash),
                    0x3c2,
                    Ok(structure),
                )
                &&& signature@ == pkcs7_der(structure)
            },
{
    law_validity((seq![], root_hash));
    let (context, outcome) = choose|context: SigningContext, outcome: Result<Vec<u8>, CryptoError>|
        {
            &&& is_root_hash_context(context)
            &&& #[trigger] signing_outcome(
                signer.signing_certificate(),
                signer.signing_key(),
                encode_utf8(root_hash),
                DETACHED_SIGNATURE,
                context,
                outcome,
            )
            &&& match outcome {
                Ok(made) => {
                    &&& Ok::<Vec<u8>, SignerError>(signature) == Ok::<Vec<u8>, SignerError>(made)
                    &&& verifies_detached(
                        made@,
                        signer.signing_certificate(),
                        encode_utf8(root_hash),
                    )
                },
                Err(e) => Ok::<Vec<u8>, SignerError>(signature) == Err::<Vec<u8>, SignerError>(
                    SignerError::Crypto(e),
                ),
            }
        };
    assert(outcome == Ok::<Vec<u8>, CryptoError>(signature));
}

/// The fields of the signer's certificate, one by one.
pub proof fn law_signer_certificate(
    fields: Map<CertificateField, CertificateValue>,
    key: PKey<Private>,
)
    requires
        is_signer_certificate(fields, key),
    ensures
        fields.contains_key(CertificateField::Version),
        fields[CertificateField::Version] == CertificateValue::Number(2),
        fields.contains_key(CertificateField::SerialNumber),
        fields[CertificateField::SerialNumber] == CertificateValue::Number(1),
        fields.contains_key(CertificateField::Subject),
        fields[CertificateField::Subject] == CertificateValue::Name(
            seq![("CN"@, "Kata ephemeral EROFS signer"@)],
        ),
        fields.contains_key(CertificateField::Issuer),
        fields[CertificateField::Issuer] == fields[CertificateField::Subject],
        fields.contains_key(CertificateField::PublicKey),
        fields[CertificateField::PublicKey] == CertificateValue::KeyOf(key),
        fields.contains_key(CertificateField::NotBefore),
        fields[CertificateField::NotBefore] matches CertificateValue::Time(t) && time_made(
            0,
            Ok(t),
        ),
        fields.contains_key(CertificateField::NotAfter),
        fields[CertificateField::NotAfter] matches CertificateValue::Time(t) && time_made(1, Ok(t)),
        fields.contains_key(CertificateField::Extension("basicConstraints"@)),
        fields[CertificateField::Extension(
            "basicConstraints"@,
        )] matches CertificateValue::Extension(x) && extension_made(
            "basicConstraints"@,
            "critical,CA:FALSE"@,
            None,
            Ok(x),
        ),
        fields.contains_key(CertificateField::Extension("keyUsage"@)),
        fields[CertificateField::Extension("keyUsage"@)] matches CertificateValue::Extension(x)
            && extension_made("keyUsage"@, "critical,digitalSignature"@, None, Ok(x)),
        fields.contains_key(CertificateField::Extension("subjectKeyIdentifier"@)),
        fields.contains_key(CertificateField::Extension("authorityKeyIdentifier"@)),
        exists|plain: X509Builder, subject_key_id: X509Extension, authority_key_id: X509Extension|
            {
                &&& builder_fields(plain) == fields.remove(CertificateField::Signature).remove(
                    CertificateField::Extension("subjectKeyIdentifier"@),
                ).remove(CertificateField::Extension("authorityKeyIdentifier"@))
                &&& #[trigger] extension_made(
                    "subjectKeyIdentifier"@,
                    "hash"@,
                    Some(plain),
                    Ok(subject_key_id),
                )
                &&& #[trigger] extension_made(
                    "authorityKeyIdentifier"@,
                    "keyid"@,
                    Some(plain),
                    Ok(authority_key_id),
                )
                &&& fields[CertificateField::Extension("subjectKeyIdentifier"@)]
                    == CertificateValue::Extension(subject_key_id)
                &&& fields[CertificateField::Extension("authorityKeyIdentifier"@)]
                    == CertificateValue::Extension(authority_key_id)
            },
        fields.contains_key(CertificateField::Signature),
        fields[CertificateField::Signature] == CertificateValue::SignedWith(
            key,
            "sha256"@,
            fields.remove(CertificateField::Signature),
        ),
        fields.dom() == set![
            CertificateField::Version,
            CertificateField::SerialNumber,
            CertificateField::Subject,
            CertificateField::Issuer,
            CertificateField::PublicKey,
            CertificateField::NotBefore,
            CertificateField::NotAfter,
            CertificateField::Extension("basicConstraints"@),
            CertificateField::Extension("keyUsage"@),
            CertificateField::Extension("subjectKeyIdentifier"@),
            CertificateField::Extension("authorityKeyIdentifier"@),
            CertificateField::Signature,
        ],
        exists|rsa: Rsa<Private>|
            #[trigger] rsa_generates(2048, Ok(rsa)) && key_wraps(rsa, Ok(key)),
{
    reveal_strlit("basicConstraints");
    reveal_strlit("keyUsage");
    reveal_strlit("subjectKeyIdentifier");
    reveal_strlit("authorityKeyIdentifier");
    assert("keyUsage"@.len() == 8);
    assert("basicConstraints"@.len() == 16);
    assert("subjectKeyIdentifier"@.len() == 20);
    assert("authorityKeyIdentifier"@.len() == 22);
    let (plain, subject_key_id, authority_key_id) = choose|
        plain: X509Builder,
        subject_key_id: X509Extension,
        authority_key_id: X509Extension,
    |
        {
            &&& is_plain(plain, key)
            &&& #[trigger] is_subject_key_id(subject_key_id, plain)
            &&& #[trigger] is_authority_key_id(authority_key_id, plain)
            &&& fields == signed_fields(
                identified_fields(plain, subject_key_id, authority_key_id),
                key,
            )
        };
    let identified = identified_fields(plain, subject_key_id, authority_key_id);
    let (not_before, not_after, constraints, usage) = choose|
        not_before: Asn1Time,
        not_after: Asn1Time,
        constraints: X509Extension,
        usage: X509Extension,
    |
        {
            &&& #[trigger] is_dated(key, not_before, not_after)
            &&& #[trigger] is_constraints(constraints)
            &&& #[trigger] is_usage(usage)
            &&& builder_fields(plain) == with_extension(
                with_extension(dated_fields(key, not_before, not_after), constraints),
                usage,
            )
        };
    assert(fields.remove(CertificateField::Signature) =~= identified);
    assert(identified.remove(CertificateField::Extension("subjectKeyIdentifier"@)).remove(
        CertificateField::Extension("authorityKeyIdentifier"@),
    ) =~= builder_fields(plain));
    assert(extension_made("subjectKeyIdentifier"@, "hash"@, Some(plain), Ok(subject_key_id)));
    assert(extension_made("authorityKeyIdentifier"@, "keyid"@, Some(plain), Ok(authority_key_id)));
    assert(fields.dom() =~= set![
        CertificateField::Version,
        CertificateField::SerialNumber,
        CertificateField::Subject,
        CertificateField::Issuer,
        CertificateField::PublicKey,
        CertificateField::NotBefore,
        CertificateField::NotAfter,
        CertificateField::Extension("basicConstraints"@),
        CertificateField::Extension("keyUsage"@),
        CertificateField::Extension("subjectKeyIdentifier"@),
        CertificateField::Extension("authorityKeyIdentifier"@),
        CertificateField::Signature,
    ]);
    assert(fields[CertificateField::Subject] == CertificateValue::Name(signer_name()));
    assert(signer_name() =~= seq![("CN"@, "Kata ephemeral EROFS signer"@)]);
}

/// Where the listing names a keyring, encoding the certificate does not fail, and
/// the kernel does what it is asked, provisioning hands the signer out: after it has
/// asked for an asymmetric key with the certificate in that keyring, and then for
/// that keyring to be sealed.
pub proof fn law_provisioning_goes_through(
    run: Seq<ProvisionTransition>,
    signer: LayerSigner,
    keys: String,
    keyring: i64,
    key: i64,
)
    requires
        provision_run(run),
        run.len() == 3,
        run[0].from == ProvisionState::ReadingKeys(signer),
        run[0].event == ProvisionEvent::KeysRead(Ok(keys)),
        keyring_id(keys@) == Some(keyring),
        !(run[0].action is Fail),
        run[1].event == ProvisionEvent::KeyAdded(Ok(key)),
        run[2].event == ProvisionEvent::KeyringSealed(Ok(())),
    ensures
        run[0].action matches ProvisionAction::AddKey(request) && {
            &&& request.key_type@ == "asymmetric"@
            &&& request.description@ == "kata-erofs-ephemeral"@
            &&& request.payload@ == certificate_der(signer.signing_certificate())
            &&& request.keyring == keyring
        },
        run[1].action == (ProvisionAction::SealKeyring { keyring }),
        run[2].action matches ProvisionAction::Ready(provisioned) && provisioned.signer() == signer,
{
    assert(provision_step(run[0].from, run[0].event, run[0].to, run[0].action));
    assert(run[1].from == run[0].to);
    assert(provision_step(run[1].from, run[1].event, run[1].to, run[1].action));
    assert(run[2].from == run[1].to);
    assert(provision_step(run[2].from, run[2].event, run[2].to, run[2].action));
}

/// Where the kernel fails, provisioning fails for that reason; where no keyring
/// is listed it is unavailable; and a certificate that was added is taken out
/// again before that, if its keyring could not be sealed. An answer to what was
/// not asked fails too.
pub proof fn law_provisioning_failures(step: ProvisionTransition, reason: String)
    requires
        provision_step(step.from, step.event, step.to, step.action),
    ensures
        ({
            ||| step.from is ReadingKeys && step.event is KeysRead
            ||| step.from is AddingCertificate && step.event is KeyAdded
            ||| step.from is SealingKeyring && step.event is KeyringSealed
            ||| step.from is RemovingCertificate && step.event is KeyRemoved
            ||| step.action == ProvisionAction::Fail(SignerError::OutOfOrder)
        }),
        step.from is ReadingKeys && step.event == ProvisionEvent::KeysRead(Err(reason))
            ==> step.action == ProvisionAction::Fail(SignerError::KeysUnreadable(reason)),
        step.event matches ProvisionEvent::KeysRead(Ok(keys)) ==> (step.from is ReadingKeys
            && keyring_id(keys@) is None ==> step.action == ProvisionAction::Fail(
            SignerError::KeyringUnavailable,
        )),
        step.from is AddingCertificate && step.event == ProvisionEvent::KeyAdded(Err(reason))
            ==> step.action == ProvisionAction::Fail(SignerError::KeyNotAdded(reason)),
        step.from matches ProvisionState::SealingKeyring { signer, keyring, key } ==> (step.event
            == ProvisionEvent::KeyringSealed(Err(reason)) ==> step.action == (
        ProvisionAction::RemoveKey { key, keyring }) && step.to == (
        ProvisionState::RemovingCertificate { reason })),
        step.from == (ProvisionState::RemovingCertificate { reason }) && step.event is KeyRemoved
            ==> step.action == ProvisionAction::Fail(SignerError::KeyringNotSealed(reason)),
        step.action is Fail ==> step.to is Closed,
        step.action is Ready ==> step.to is Closed,
{
}

/// A certificate that cannot be encoded fails the provisioning as just that, and
/// nothing else does where the listing names a keyring.
pub proof fn law_certificate_encoding_failure(
    signer: LayerSigner,
    keys: String,
    to: ProvisionState,
    action: ProvisionAction,
    e: SignerError,
)
    requires
        provision_step(
            ProvisionState::ReadingKeys(signer),
            ProvisionEvent::KeysRead(Ok(keys)),
            to,
            action,
        ),
        keyring_id(keys@) is Some,
        action == ProvisionAction::Fail(e),
    ensures
        e matches SignerError::Crypto(error) && {
            &&& error.context@ == "encode ephemeral EROFS certificate"@
            &&& certificate_encodes(signer.signing_certificate(), Err(error.source))
        },
{
}

/// Signing a root hash fails only where OpenSSL does, and the error says at which
/// step and with what.
pub proof fn law_root_hash_signing_failures(
    signer: LayerSigner,
    root_hash: Seq<char>,
    e: CryptoError,
)
    requires
        signs_root_hash(signer, root_hash, Err(SignerError::Crypto(e))),
    ensures
        ({
            ||| e.context@ == "create layer certificate stack"@ && stack_made(Err(e.source))
            ||| e.context@ == "sign EROFS dm-verity root hash"@ && signs(
                signer.signing_certificate(),
                signer.signing_key(),
                seq![],
                encode_utf8(root_hash),
                0x3c2,
                Err(e.source),
            )
            ||| e.context@ == "encode EROFS dm-verity root hash signature"@ && exists|
                structure: Pkcs7,
            | #[trigger] pkcs7_encodes(structure, Err(e.source))
        }),
{
    let r: Result<Vec<u8>, SignerError> = Err(SignerError::Crypto(e));
    let certificate = signer.signing_certificate();
    let key = signer.signing_key();
    let content = encode_utf8(root_hash);
    let (context, outcome) = choose|context: SigningContext, outcome: Result<Vec<u8>, CryptoError>|
        {
            &&& is_root_hash_context(context)
            &&& #[trigger] signing_outcome(
                certificate,
                key,
                content,
                DETACHED_SIGNATURE,
                context,
                outcome,
            )
            &&& match outcome {
                Ok(made) => {
                    &&& r == Ok::<Vec<u8>, SignerError>(made)
                    &&& verifies_detached(made@, certificate, content)
                },
                Err(x) => r == Err::<Vec<u8>, SignerError>(SignerError::Crypto(x)),
            }
        };
    assert(outcome == Err::<Vec<u8>, CryptoError>(e));
    if !(e.context@ == context.stack@ && stack_made(Err(e.source))) {
        let made = choose|made: Result<Pkcs7, ErrorStack>|
            {
                &&& #[trigger] signs(certificate, key, seq![], content, DETACHED_SIGNATURE, made)
                &&& match made {
                    Err(x) => in_context(Err::<Vec<u8>, ErrorStack>(x), context.sign@, outcome),
                    Ok(structure) => exists|encoded: Result<Vec<u8>, ErrorStack>|
                        {
                            &&& #[trigger] is_signature_encoding(encoded, structure)
                            &&& in_context(encoded, context.encode@, outcome)
                        },
                }
            };
        if made is Err {
            assert(made == Err::<Pkcs7, ErrorStack>(e.source));
        } else {
            let structure = made->Ok_0;
            let encoded = choose|encoded: Result<Vec<u8>, ErrorStack>|
                {
                    &&& #[trigger] is_signature_encoding(encoded, structure)
                    &&& in_context(encoded, context.encode@, outcome)
                };
            assert(pkcs7_encodes(structure, Err(e.source)));
        }
    }
}

/// Making a signer fails only where OpenSSL does: the error says which step was
/// not carried out, and with what.
pub proof fn law_signer_generation_failures(context: Seq<char>, e: ErrorStack)
    requires
        signer_step_fails(context, e),
    ensures
        ({
            ||| context == "generate ephemeral EROFS signing key"@ && rsa_generates(2048, Err(e))
            ||| context == "create ephemeral EROFS signing key"@ && exists|rsa: Rsa<Private>|
                #[trigger] key_wraps(rsa, Err(e))
            ||| context == "create layer certificate subject"@ && name_started(Err(e))
            ||| context == "set layer certificate subject"@ && exists|builder: X509NameBuilder|
                #[trigger] entry_appended(builder, "CN"@, "Kata ephemeral EROFS signer"@, Err(e))
            ||| context == "create layer certificate"@ && certificate_started(Err(e))
            ||| context == "create serial number"@ && number_made(1, Err(e))
            ||| context == "encode serial number"@ && exists|number: BigNum|
                #[trigger] integer_made(number, Err(e))
            ||| context == "set certificate start time"@ && time_made(0, Err(e))
            ||| context == "set certificate expiry"@ && time_made(1, Err(e))
            ||| context == "build certificate constraints"@ && extension_made(
                "basicConstraints"@,
                "critical,CA:FALSE"@,
                None,
                Err(e),
            )
            ||| context == "build certificate key usage"@ && extension_made(
                "keyUsage"@,
                "critical,digitalSignature"@,
                None,
                Err(e),
            )
            ||| context == "build subject key identifier"@ && exists|plain: X509Builder|
                #[trigger] extension_made(
                    "subjectKeyIdentifier"@,
                    "hash"@,
                    Some(plain),
                    Err(e),
                )
            ||| context == "build authority key identifier"@ && exists|plain: X509Builder|
                #[trigger] extension_made(
                    "authorityKeyIdentifier"@,
                    "keyid"@,
                    Some(plain),
                    Err(e),
                )
            ||| exists|builder: X509Builder, field: CertificateField, value: CertificateValue|
                #[trigger] field_set(builder, field, value, Err(e)) && !builder_fields(
                    builder,
                ).contains_key(field) && context == match field {
                    CertificateField::Version => "set certificate version"@,
                    CertificateField::SerialNumber => "set certificate serial number"@,
                    CertificateField::Subject => "set certificate subject"@,
                    CertificateField::Issuer => "set certificate issuer"@,
                    CertificateField::PublicKey => "set certificate public key"@,
                    CertificateField::NotBefore => "apply certificate start time"@,
                    CertificateField::NotAfter => "apply certificate expiry"@,
                    CertificateField::Extension(name) => if name == "basicConstraints"@ {
                        "add certificate constraints"@
                    } else if name == "keyUsage"@ {
                        "add certificate key usage"@
                    } else if name == "subjectKeyIdentifier"@ {
                        "add subject key identifier"@
                    } else {
                        "add authority key identifier"@
                    },
                    CertificateField::Signature => "self-sign layer certificate"@,
                }
        }),
{
    reveal_strlit("basicConstraints");
    reveal_strlit("keyUsage");
    reveal_strlit("subjectKeyIdentifier");
    reveal_strlit("authorityKeyIdentifier");
    assert("keyUsage"@.len() == 8);
    assert("basicConstraints"@.len() == 16);
    assert("subjectKeyIdentifier"@.len() == 20);
    assert("authorityKeyIdentifier"@.len() == 22);
}

/// A signer is installed where there is none, and nothing else changes; a release
/// takes one signature out of use, if there is one, and nothing else changes.
pub proof fn law_installation_and_release(
    before: SignerModel,
    provisioned: ProvisionedSigner,
    installed: SignerModel,
    released: SignerModel,
)
    requires
        operates(before, SignerOperation::Install(provisioned), installed),
        operates(before, SignerOperation::Release, released),
    ensures
        before.signer is None,
        installed.signer == Some(provisioned.signer()),
        installed.finalized == before.finalized,
        installed.active == before.active,
        installed.sequence == before.sequence,
        released.signer == before.signer,
        released.finalized == before.finalized,
        before.active > 0 ==> released.active == before.active - 1,
        before.active == 0 ==> released.active == 0,
        released.sequence == before.sequence,
{
}

} // verus!
