//! What this crate has from OpenSSL: keys, certificates and PKCS#7 signatures.
//!
//! The types of the `openssl` crate are opaque here. What is known of them is
//! what the functions below state; everything else in this crate is proved from
//! that.

use openssl::asn1::{Asn1Integer, Asn1Time};
use openssl::bn::BigNum;
use openssl::error::ErrorStack;
use openssl::hash::MessageDigest;
use openssl::pkcs7::{Pkcs7, Pkcs7Flags};
use openssl::pkey::{PKey, Private};
use openssl::rsa::Rsa;
use openssl::stack::Stack;
use openssl::x509::extension::{
    AuthorityKeyIdentifier, BasicConstraints, KeyUsage, SubjectKeyIdentifier,
};
use openssl::x509::{X509Builder, X509Extension, X509Name, X509NameBuilder, X509};
use vstd::prelude::*;

verus! {

// ---------------------------------------------------------------------------
// Opaque types
// ---------------------------------------------------------------------------

/// OpenSSL's error queue.
#[verifier::external_type_specification]
#[verifier::external_body]
pub struct ExErrorStack(openssl::error::ErrorStack);

/// The marker of keys that hold a private half.
#[verifier::external_type_specification]
#[verifier::external_body]
pub struct ExPrivate(openssl::pkey::Private);

/// A key.
#[verifier::external_type_specification]
#[verifier::external_body]
#[verifier::reject_recursive_types(T)]
pub struct ExPKey<T>(openssl::pkey::PKey<T>);

/// A certificate.
#[verifier::external_type_specification]
#[verifier::external_body]
pub struct ExX509(openssl::x509::X509);

/// An RSA key.
#[verifier::external_type_specification]
#[verifier::external_body]
#[verifier::reject_recursive_types(T)]
pub struct ExRsa<T>(openssl::rsa::Rsa<T>);

/// A certificate in the making.
#[verifier::external_type_specification]
#[verifier::external_body]
pub struct ExX509Builder(openssl::x509::X509Builder);

/// A distinguished name.
#[verifier::external_type_specification]
#[verifier::external_body]
pub struct ExX509Name(openssl::x509::X509Name);

/// A distinguished name in the making.
#[verifier::external_type_specification]
#[verifier::external_body]
pub struct ExX509NameBuilder(openssl::x509::X509NameBuilder);

/// A certificate extension.
#[verifier::external_type_specification]
#[verifier::external_body]
pub struct ExX509Extension(openssl::x509::X509Extension);

/// A number of any size.
#[verifier::external_type_specification]
#[verifier::external_body]
pub struct ExBigNum(openssl::bn::BigNum);

/// An integer as certificates hold it.
#[verifier::external_type_specification]
#[verifier::external_body]
pub struct ExAsn1Integer(openssl::asn1::Asn1Integer);

/// A point in time as certificates hold it.
#[verifier::external_type_specification]
#[verifier::external_body]
pub struct ExAsn1Time(openssl::asn1::Asn1Time);

/// A digest algorithm.
#[verifier::external_type_specification]
#[verifier::external_body]
pub struct ExMessageDigest(openssl::hash::MessageDigest);

/// A PKCS#7 structure.
#[verifier::external_type_specification]
#[verifier::external_body]
pub struct ExPkcs7(openssl::pkcs7::Pkcs7);

/// A stack of certificates.
#[verifier::external_body]
pub struct CertificateStack {
    stack: Stack<X509>,
}

/// A step that OpenSSL did not carry out.
#[derive(Debug)]
pub struct CryptoError {
    /// What the step is for.
    pub context: &'static str,
    /// OpenSSL's account of it.
    pub source: ErrorStack,
}

/// The outcome of a step, with `context` added to an error.
pub open spec fn in_context<T>(
    outcome: Result<T, ErrorStack>,
    context: Seq<char>,
    r: Result<T, CryptoError>,
) -> bool {
    match outcome {
        Ok(value) => r == Ok::<T, CryptoError>(value),
        Err(e) => r matches Err(error) && error.source == e && error.context@ == context,
    }
}

/// The outcome of a step, with `context` added to an error.
pub fn with_context<T>(outcome: Result<T, ErrorStack>, context: &'static str) -> (r: Result<
    T,
    CryptoError,
>)
    ensures
        in_context(outcome, context@, r),
{
    match outcome {
        Ok(value) => Ok(value),
        Err(source) => Err(CryptoError { context, source }),
    }
}

/// An outcome, by the bytes that it gives.
pub open spec fn bytes_of(outcome: Result<Vec<u8>, ErrorStack>) -> Result<Seq<u8>, ErrorStack> {
    match outcome {
        Ok(bytes) => Ok(bytes@),
        Err(e) => Err(e),
    }
}

// ---------------------------------------------------------------------------
// Keys
// ---------------------------------------------------------------------------

/// The size of an RSA key in bits: eight times what `RsaRef::size` gives, if the
/// size is a multiple of eight.
pub uninterp spec fn rsa_bits(rsa: Rsa<Private>) -> nat;

/// The size of a key in bits: what `PKeyRef::bits` gives.
pub uninterp spec fn key_bits(key: PKey<Private>) -> nat;

/// `outcome` is one that `Rsa::generate` can have for `bits`. It is a relation,
/// since keys are random.
pub uninterp spec fn rsa_generates(bits: u32, outcome: Result<Rsa<Private>, ErrorStack>) -> bool;

/// `outcome` is one that `PKey::from_rsa` can have for `rsa`. It is a relation,
/// since whether the call fails depends on the machine too.
pub uninterp spec fn key_wraps(
    rsa: Rsa<Private>,
    outcome: Result<PKey<Private>, ErrorStack>,
) -> bool;

/// `key` holds an RSA key that was generated, both halves together.
pub open spec fn generated_key(key: PKey<Private>) -> bool {
    exists|bits: u32, rsa: Rsa<Private>|
        #[trigger] rsa_generates(bits, Ok(rsa)) && #[trigger] key_wraps(rsa, Ok(key))
}

/// `Rsa::generate`: a fresh RSA key of the given size. The key itself is random,
/// and nothing else is stated of it.
#[verifier::external_body]
pub(crate) fn generate_rsa(bits: u32) -> (r: Result<Rsa<Private>, ErrorStack>)
    requires
        1024 <= bits <= 16384,
        bits % 8 == 0,
    ensures
        rsa_generates(bits, r),
        r matches Ok(rsa) ==> rsa_bits(rsa) == bits,
{
    Rsa::generate(bits)
}

/// `PKey::from_rsa`: an RSA key as a key of any kind, with the same two halves.
#[verifier::external_body]
pub(crate) fn key_from_rsa(rsa: Rsa<Private>) -> (r: Result<PKey<Private>, ErrorStack>)
    ensures
        key_wraps(rsa, r),
        r matches Ok(key) ==> key_bits(key) == rsa_bits(rsa),
{
    PKey::from_rsa(rsa)
}

/// `outcome` is one that `PKey::private_key_from_pem` can have for `pem`. It is
/// a relation, since a key that is protected by a passphrase is asked for it.
pub uninterp spec fn key_parses(pem: Seq<u8>, outcome: Result<PKey<Private>, ErrorStack>) -> bool;

/// `PKey::private_key_from_pem`: the private key that a PEM text holds. Only
/// that the outcome belongs to this text is stated.
#[verifier::external_body]
pub(crate) fn parse_private_key(pem: &[u8]) -> (r: Result<PKey<Private>, ErrorStack>)
    requires
        pem@.len() <= i32::MAX,
    ensures
        key_parses(pem@, r),
{
    PKey::private_key_from_pem(pem)
}

// ---------------------------------------------------------------------------
// Certificates
// ---------------------------------------------------------------------------

/// A field of a certificate.
pub enum CertificateField {
    Version,
    SerialNumber,
    Subject,
    Issuer,
    PublicKey,
    NotBefore,
    NotAfter,
    /// The extension of this name.
    Extension(Seq<char>),
    Signature,
}

/// What a field of a certificate is set to.
pub enum CertificateValue {
    Number(int),
    /// The entries of a distinguished name: attribute and value.
    Name(Seq<(Seq<char>, Seq<char>)>),
    /// The public half of this key.
    KeyOf(PKey<Private>),
    Time(Asn1Time),
    Extension(X509Extension),
    /// A signature with this key, over this digest of these fields.
    SignedWith(PKey<Private>, Seq<char>, Map<CertificateField, CertificateValue>),
}

/// The fields that a certificate in the making has been given.
pub uninterp spec fn builder_fields(builder: X509Builder) -> Map<CertificateField, CertificateValue>;

/// The fields that a certificate was made with.
pub uninterp spec fn certificate_fields(certificate: X509) -> Map<CertificateField, CertificateValue>;

/// The entries of a distinguished name: attribute and value.
pub uninterp spec fn name_entries(name: X509Name) -> Seq<(Seq<char>, Seq<char>)>;

/// The entries of a distinguished name in the making: attribute and value.
pub uninterp spec fn builder_entries(builder: X509NameBuilder) -> Seq<(Seq<char>, Seq<char>)>;

/// The value of a number.
pub uninterp spec fn number_value(number: BigNum) -> int;

/// The value of an integer.
pub uninterp spec fn integer_value(integer: Asn1Integer) -> int;

/// `outcome` is one that `BigNum::from_u32` can have for `value`.
pub uninterp spec fn number_made(value: u32, outcome: Result<BigNum, ErrorStack>) -> bool;

/// `outcome` is one that `Asn1Integer::from_bn` can have for `number`.
pub uninterp spec fn integer_made(
    number: BigNum,
    outcome: Result<Asn1Integer, ErrorStack>,
) -> bool;

/// `outcome` is one that `Asn1Time::days_from_now` can have for `days`: the point
/// in time so many days after the moment of the call, or a failure. It is a
/// relation, since the moment is not part of it.
pub uninterp spec fn time_made(days: u32, outcome: Result<Asn1Time, ErrorStack>) -> bool;

/// The name of an extension.
pub uninterp spec fn extension_name(extension: X509Extension) -> Seq<char>;

/// `outcome` is one that `X509Extension::new_nid` can have, which the builders
/// of extensions end in, for the extension `name` and `value`, in OpenSSL's
/// notation, with `critical` first if it is critical. What the value refers to,
/// as subject and as issuer, is `about`, in the state in which it is at the call.
pub uninterp spec fn extension_made(
    name: Seq<char>,
    value: Seq<char>,
    about: Option<X509Builder>,
    outcome: Result<X509Extension, ErrorStack>,
) -> bool;

/// `outcome` is one that `X509NameBuilder::new` can have.
pub uninterp spec fn name_started(outcome: Result<X509NameBuilder, ErrorStack>) -> bool;

/// `outcome` is one that `X509NameBuilder::append_entry_by_text` can have on
/// `builder`.
pub uninterp spec fn entry_appended(
    builder: X509NameBuilder,
    attribute: Seq<char>,
    value: Seq<char>,
    outcome: Result<(), ErrorStack>,
) -> bool;

/// `outcome` is one that `X509::builder` can have.
pub uninterp spec fn certificate_started(outcome: Result<X509Builder, ErrorStack>) -> bool;

/// `outcome` is one that the method of `X509Builder` that sets `field` can have
/// on `builder`, with `value`.
pub uninterp spec fn field_set(
    builder: X509Builder,
    field: CertificateField,
    value: CertificateValue,
    outcome: Result<(), ErrorStack>,
) -> bool;

/// No field at all.
pub open spec fn no_fields() -> Map<CertificateField, CertificateValue> {
    Map::empty()
}

/// `builder` is `before` with one field set.
pub open spec fn sets_field(
    before: X509Builder,
    builder: X509Builder,
    field: CertificateField,
    value: CertificateValue,
) -> bool {
    builder_fields(builder) == builder_fields(before).insert(field, value)
}

/// `X509NameBuilder::new`: a distinguished name without entries.
#[verifier::external_body]
pub(crate) fn new_name() -> (r: Result<X509NameBuilder, ErrorStack>)
    ensures
        name_started(r),
        r matches Ok(builder) ==> builder_entries(builder).len() == 0,
{
    X509NameBuilder::new()
}

/// `X509NameBuilder::append_entry_by_text`: adds an entry after the others.
#[verifier::external_body]
pub(crate) fn append_name_entry(
    builder: &mut X509NameBuilder,
    attribute: &str,
    value: &str,
) -> (r: Result<(), ErrorStack>)
    requires
        !attribute@.contains('\0'),
        4 * value@.len() <= i32::MAX,
    ensures
        entry_appended(*old(builder), attribute@, value@, r),
        r is Ok ==> builder_entries(*final(builder)) == builder_entries(*old(builder)).push(
            (attribute@, value@),
        ),
{
    builder.append_entry_by_text(attribute, value)
}

/// `X509NameBuilder::build`: the distinguished name with the entries given. The
/// call panics where OpenSSL cannot read back its own encoding of the name; a
/// name of one entry, short in attribute and value, is far from the sizes at
/// which it refuses to.
#[verifier::external_body]
pub(crate) fn build_name(builder: X509NameBuilder) -> (name: X509Name)
    requires
        builder_entries(builder).len() <= 1,
        forall|i: int|
            0 <= i < builder_entries(builder).len() ==> (
            #[trigger] builder_entries(builder)[i]).0.len() <= 64 && builder_entries(
                builder,
            )[i].1.len() <= 64,
    ensures
        name_entries(name) == builder_entries(builder),
{
    builder.build()
}

/// `X509::builder`: a certificate with no field set.
#[verifier::external_body]
pub(crate) fn new_certificate() -> (r: Result<X509Builder, ErrorStack>)
    ensures
        certificate_started(r),
        r matches Ok(builder) ==> builder_fields(builder) == no_fields(),
{
    X509::builder()
}

/// `X509Builder::set_version`: sets the version, counted from zero.
#[verifier::external_body]
pub(crate) fn set_version(builder: &mut X509Builder, version: i32) -> (r: Result<(), ErrorStack>)
    requires
        version >= 0,
    ensures
        field_set(
            *old(builder),
            CertificateField::Version,
            CertificateValue::Number(version as int),
            r,
        ),
        r is Ok ==> sets_field(
            *old(builder),
            *final(builder),
            CertificateField::Version,
            CertificateValue::Number(version as int),
        ),
{
    builder.set_version(version)
}

/// `BigNum::from_u32`: a number of any size with this value.
#[verifier::external_body]
pub(crate) fn big_number(value: u32) -> (r: Result<BigNum, ErrorStack>)
    ensures
        number_made(value, r),
        r matches Ok(number) ==> number_value(number) == value,
{
    BigNum::from_u32(value)
}

/// `Asn1Integer::from_bn`: an integer with the value of a number.
#[verifier::external_body]
pub(crate) fn integer_from_number(number: &BigNum) -> (r: Result<Asn1Integer, ErrorStack>)
    ensures
        integer_made(*number, r),
        r matches Ok(integer) ==> integer_value(integer) == number_value(*number),
{
    Asn1Integer::from_bn(number)
}

/// `X509Builder::set_serial_number`: sets the serial number.
#[verifier::external_body]
pub(crate) fn set_serial_number(builder: &mut X509Builder, serial: &Asn1Integer) -> (r: Result<
    (),
    ErrorStack,
>)
    ensures
        field_set(
            *old(builder),
            CertificateField::SerialNumber,
            CertificateValue::Number(integer_value(*serial)),
            r,
        ),
        r is Ok ==> sets_field(
            *old(builder),
            *final(builder),
            CertificateField::SerialNumber,
            CertificateValue::Number(integer_value(*serial)),
        ),
{
    builder.set_serial_number(serial)
}

/// `X509Builder::set_subject_name`: sets the subject.
#[verifier::external_body]
pub(crate) fn set_subject_name(builder: &mut X509Builder, name: &X509Name) -> (r: Result<
    (),
    ErrorStack,
>)
    ensures
        field_set(
            *old(builder),
            CertificateField::Subject,
            CertificateValue::Name(name_entries(*name)),
            r,
        ),
        r is Ok ==> sets_field(
            *old(builder),
            *final(builder),
            CertificateField::Subject,
            CertificateValue::Name(name_entries(*name)),
        ),
{
    builder.set_subject_name(name)
}

/// `X509Builder::set_issuer_name`: sets the issuer.
#[verifier::external_body]
pub(crate) fn set_issuer_name(builder: &mut X509Builder, name: &X509Name) -> (r: Result<
    (),
    ErrorStack,
>)
    ensures
        field_set(
            *old(builder),
            CertificateField::Issuer,
            CertificateValue::Name(name_entries(*name)),
            r,
        ),
        r is Ok ==> sets_field(
            *old(builder),
            *final(builder),
            CertificateField::Issuer,
            CertificateValue::Name(name_entries(*name)),
        ),
{
    builder.set_issuer_name(name)
}

/// `X509Builder::set_pubkey`: sets the public key to the public half of `key`.
#[verifier::external_body]
pub(crate) fn set_pubkey(builder: &mut X509Builder, key: &PKey<Private>) -> (r: Result<
    (),
    ErrorStack,
>)
    ensures
        field_set(
            *old(builder),
            CertificateField::PublicKey,
            CertificateValue::KeyOf(*key),
            r,
        ),
        r is Ok ==> sets_field(
            *old(builder),
            *final(builder),
            CertificateField::PublicKey,
            CertificateValue::KeyOf(*key),
        ),
{
    builder.set_pubkey(key)
}

/// `Asn1Time::days_from_now`: the point in time `days` days after the moment of
/// the call.
#[verifier::external_body]
pub(crate) fn days_from_now(days: u32) -> (r: Result<Asn1Time, ErrorStack>)
    requires
        days * 86400 <= i32::MAX,
    ensures
        time_made(days, r),
{
    Asn1Time::days_from_now(days)
}

/// `X509Builder::set_not_before`: sets the start of the validity.
#[verifier::external_body]
pub(crate) fn set_not_before(builder: &mut X509Builder, time: &Asn1Time) -> (r: Result<
    (),
    ErrorStack,
>)
    ensures
        field_set(
            *old(builder),
            CertificateField::NotBefore,
            CertificateValue::Time(*time),
            r,
        ),
        r is Ok ==> sets_field(
            *old(builder),
            *final(builder),
            CertificateField::NotBefore,
            CertificateValue::Time(*time),
        ),
{
    builder.set_not_before(time)
}

/// `X509Builder::set_not_after`: sets the end of the validity.
#[verifier::external_body]
pub(crate) fn set_not_after(builder: &mut X509Builder, time: &Asn1Time) -> (r: Result<
    (),
    ErrorStack,
>)
    ensures
        field_set(
            *old(builder),
            CertificateField::NotAfter,
            CertificateValue::Time(*time),
            r,
        ),
        r is Ok ==> sets_field(
            *old(builder),
            *final(builder),
            CertificateField::NotAfter,
            CertificateValue::Time(*time),
        ),
{
    builder.set_not_after(time)
}

/// `BasicConstraints`, made critical: the holder of the certificate is no
/// certificate authority.
#[verifier::external_body]
pub(crate) fn critical_basic_constraints() -> (r: Result<X509Extension, ErrorStack>)
    ensures
        extension_made("basicConstraints"@, "critical,CA:FALSE"@, None, r),
        r matches Ok(extension) ==> extension_name(extension) == "basicConstraints"@,
{
    BasicConstraints::new().critical().build()
}

/// `KeyUsage`, made critical, with `digital_signature`: the key is for digital
/// signatures and for nothing else.
#[verifier::external_body]
pub(crate) fn critical_signature_key_usage() -> (r: Result<X509Extension, ErrorStack>)
    ensures
        extension_made("keyUsage"@, "critical,digitalSignature"@, None, r),
        r matches Ok(extension) ==> extension_name(extension) == "keyUsage"@,
{
    KeyUsage::new().critical().digital_signature().build()
}

/// `SubjectKeyIdentifier`, in the context `X509Builder::x509v3_context` of a
/// self-signed certificate: a hash of the public key of the certificate.
#[verifier::external_body]
pub(crate) fn subject_key_identifier(builder: &X509Builder) -> (r: Result<
    X509Extension,
    ErrorStack,
>)
    ensures
        extension_made("subjectKeyIdentifier"@, "hash"@, Some(*builder), r),
        r matches Ok(extension) ==> extension_name(extension) == "subjectKeyIdentifier"@,
{
    SubjectKeyIdentifier::new().build(&builder.x509v3_context(None, None))
}

/// The key identifier of the issuer in OpenSSL's notation: always, or only if
/// the issuer has one.
pub open spec fn keyid_value(always: bool) -> Seq<char> {
    if always {
        "keyid:always"@
    } else {
        "keyid"@
    }
}

/// `AuthorityKeyIdentifier` with `keyid`, in the context
/// `X509Builder::x509v3_context` of a self-signed certificate: the key
/// identifier of the issuer.
#[verifier::external_body]
pub(crate) fn authority_key_identifier(builder: &X509Builder, always: bool) -> (r: Result<
    X509Extension,
    ErrorStack,
>)
    ensures
        extension_made("authorityKeyIdentifier"@, keyid_value(always), Some(*builder), r),
        r matches Ok(extension) ==> extension_name(extension) == "authorityKeyIdentifier"@,
{
    AuthorityKeyIdentifier::new().keyid(always).build(&builder.x509v3_context(None, None))
}

/// `X509Builder::append_extension`: adds an extension whose name is not there
/// yet.
#[verifier::external_body]
pub(crate) fn append_extension(builder: &mut X509Builder, extension: X509Extension) -> (r: Result<
    (),
    ErrorStack,
>)
    requires
        !builder_fields(*old(builder)).contains_key(
            CertificateField::Extension(extension_name(extension)),
        ),
    ensures
        field_set(
            *old(builder),
            CertificateField::Extension(extension_name(extension)),
            CertificateValue::Extension(extension),
            r,
        ),
        r is Ok ==> sets_field(
            *old(builder),
            *final(builder),
            CertificateField::Extension(extension_name(extension)),
            CertificateValue::Extension(extension),
        ),
{
    builder.append_extension(extension)
}

/// The name of a digest algorithm.
pub uninterp spec fn digest_name(digest: MessageDigest) -> Seq<char>;

/// `MessageDigest::sha256`: the digest algorithm SHA-256.
#[verifier::external_body]
pub(crate) fn sha256() -> (digest: MessageDigest)
    ensures
        digest_name(digest) == "sha256"@,
{
    MessageDigest::sha256()
}

/// `X509Builder::sign`: signs the fields as they stand before the call with
/// `key`, over this digest. A field that is set later is not covered by the
/// signature.
#[verifier::external_body]
pub(crate) fn sign_certificate(
    builder: &mut X509Builder,
    key: &PKey<Private>,
    digest: MessageDigest,
) -> (r: Result<(), ErrorStack>)
    ensures
        field_set(
            *old(builder),
            CertificateField::Signature,
            CertificateValue::SignedWith(
                *key,
                digest_name(digest),
                builder_fields(*old(builder)),
            ),
            r,
        ),
        r is Ok ==> sets_field(
            *old(builder),
            *final(builder),
            CertificateField::Signature,
            CertificateValue::SignedWith(
                *key,
                digest_name(digest),
                builder_fields(*old(builder)),
            ),
        ),
{
    builder.sign(key, digest)
}

/// `X509Builder::build`: the certificate with the fields that were set.
#[verifier::external_body]
pub(crate) fn build_certificate(builder: X509Builder) -> (certificate: X509)
    ensures
        certificate_fields(certificate) == builder_fields(builder),
{
    builder.build()
}

/// The DER encoding of a certificate: what `X509Ref::to_der` gives.
pub uninterp spec fn certificate_der(certificate: X509) -> Seq<u8>;

/// `outcome` is one that `X509Ref::to_der` can have for `certificate`. It is a
/// relation, since whether the call fails depends on the machine too.
pub uninterp spec fn certificate_encodes(
    certificate: X509,
    outcome: Result<Seq<u8>, ErrorStack>,
) -> bool;

/// `X509Ref::to_der`: the DER encoding of a certificate. When the call fails is
/// not stated, only that the outcome belongs to this certificate.
#[verifier::external_body]
pub(crate) fn encode_certificate(certificate: &X509) -> (r: Result<Vec<u8>, ErrorStack>)
    ensures
        certificate_encodes(*certificate, bytes_of(r)),
        r matches Ok(der) ==> der@ == certificate_der(*certificate),
{
    certificate.to_der()
}

/// `outcome` is one that `X509::from_pem` can have for `pem`. It is a relation,
/// since a text that is protected by a passphrase is asked for it.
pub uninterp spec fn pem_certificate_parses(pem: Seq<u8>, outcome: Result<X509, ErrorStack>) -> bool;

/// `X509::from_pem`: the certificate that a PEM text holds. Only that the
/// outcome belongs to this text is stated.
#[verifier::external_body]
pub(crate) fn parse_pem_certificate(pem: &[u8]) -> (r: Result<X509, ErrorStack>)
    requires
        pem@.len() <= i32::MAX,
    ensures
        pem_certificate_parses(pem@, r),
{
    X509::from_pem(pem)
}

/// `outcome` is one that `X509::from_der` can have for `der`.
pub uninterp spec fn der_certificate_parses(der: Seq<u8>, outcome: Result<X509, ErrorStack>) -> bool;

/// `X509::from_der`: the certificate that DER bytes encode. Only that the
/// outcome belongs to these bytes is stated.
#[verifier::external_body]
pub(crate) fn parse_der_certificate(der: &[u8]) -> (r: Result<X509, ErrorStack>)
    ensures
        der_certificate_parses(der@, r),
{
    X509::from_der(der)
}

// ---------------------------------------------------------------------------
// Signatures
// ---------------------------------------------------------------------------

/// How a dm-verity root hash is signed: the content is taken as it is and left
/// out of the signature, and so are the certificate, signed attributes and the
/// list of S/MIME capabilities.
pub const DETACHED_SIGNATURE: i32 = 0x3c2;

/// How a policy is signed: the content is taken as it is and is part of the
/// signature; signed attributes and the list of S/MIME capabilities are left
/// out.
pub const EMBEDDED_SIGNATURE: i32 = 0x380;

/// The certificates on a stack.
pub uninterp spec fn stacked(stack: CertificateStack) -> Seq<X509>;

/// `outcome` is one that `Stack::new` can have.
pub uninterp spec fn stack_made(outcome: Result<CertificateStack, ErrorStack>) -> bool;

/// `Stack::new`: a stack without certificates. When the call fails is not
/// stated.
#[verifier::external_body]
pub(crate) fn no_certificates() -> (r: Result<CertificateStack, ErrorStack>)
    ensures
        stack_made(r),
        r matches Ok(stack) ==> stacked(stack).len() == 0,
{
    Ok(CertificateStack { stack: Stack::new()? })
}

/// `outcome` is one that `Pkcs7::sign` can have for these arguments. It is a
/// relation, since the signatures of some kinds of keys are random.
pub uninterp spec fn signs(
    certificate: X509,
    key: PKey<Private>,
    others: Seq<X509>,
    content: Seq<u8>,
    flags: i32,
    outcome: Result<Pkcs7, ErrorStack>,
) -> bool;

/// The DER encoding of a PKCS#7 structure: what `Pkcs7Ref::to_der` gives.
pub uninterp spec fn pkcs7_der(structure: Pkcs7) -> Seq<u8>;

/// `signature`, DER-encoded, is a PKCS#7 signature of `content`, which comes
/// apart from it, by the key whose public half `certificate` holds. This is what
/// `Pkcs7Ref::verify` decides with `certificate` as the only one to look for the
/// signer in, and without a check of the certificate itself.
pub uninterp spec fn verifies_detached(
    signature: Seq<u8>,
    certificate: X509,
    content: Seq<u8>,
) -> bool;

/// A distinguished name with entries.
pub open spec fn is_filled_name(value: CertificateValue) -> bool {
    value matches CertificateValue::Name(entries) && entries.len() > 0
}

/// `key` was generated, and `certificate` is its own: every field that a
/// certificate must have was set, subject and issuer are the same, and last of
/// all it was signed with `key`.
pub open spec fn is_own_certificate(certificate: X509, key: PKey<Private>) -> bool {
    let fields = certificate_fields(certificate);
    &&& generated_key(key)
    &&& fields.contains_key(CertificateField::Version)
    &&& fields.contains_key(CertificateField::SerialNumber)
    &&& fields[CertificateField::SerialNumber] matches CertificateValue::Number(serial)
    &&& serial > 0
    &&& fields.contains_key(CertificateField::Subject)
    &&& fields.contains_key(CertificateField::Issuer)
    &&& is_filled_name(fields[CertificateField::Subject])
    &&& fields[CertificateField::Issuer] == fields[CertificateField::Subject]
    &&& fields.contains_key(CertificateField::PublicKey)
    &&& fields[CertificateField::PublicKey] == CertificateValue::KeyOf(key)
    &&& fields.contains_key(CertificateField::NotBefore)
    &&& fields.contains_key(CertificateField::NotAfter)
    &&& fields.contains_key(CertificateField::Signature)
    &&& fields[CertificateField::Signature] == CertificateValue::SignedWith(
        key,
        "sha256"@,
        fields.remove(CertificateField::Signature),
    )
}

/// `Pkcs7::sign`: a PKCS#7 signature of `content` by the holder of `certificate`
/// and `key`, with further certificates in it. A detached signature with a
/// generated key and its own complete certificate verifies. Nothing of the kind
/// is stated of keys that were read, whose two halves need not belong together,
/// nor of certificates that lack a field by which the signer is found. Nor is it
/// stated which bytes the signature consists of, when signing fails, or that a
/// signature verifies for nothing else.
#[verifier::external_body]
pub(crate) fn sign_content(
    certificate: &X509,
    key: &PKey<Private>,
    others: &CertificateStack,
    content: &[u8],
    flags: i32,
) -> (r: Result<Pkcs7, ErrorStack>)
    requires
        content@.len() <= i32::MAX,
    ensures
        signs(*certificate, *key, stacked(*others), content@, flags, r),
        flags == DETACHED_SIGNATURE && content@.len() > 0 && is_own_certificate(
            *certificate,
            *key,
        ) ==> (r matches Ok(structure) ==> verifies_detached(
            pkcs7_der(structure),
            *certificate,
            content@,
        )),
{
    let flags = Pkcs7Flags::from_bits_retain(flags);
    Pkcs7::sign(certificate, key, &others.stack, content, flags)
}

/// `outcome` is one that `Pkcs7Ref::to_der` can have for `structure`. It is a
/// relation, since whether the call fails depends on the machine too.
pub uninterp spec fn pkcs7_encodes(
    structure: Pkcs7,
    outcome: Result<Seq<u8>, ErrorStack>,
) -> bool;

/// `Pkcs7Ref::to_der`: the DER encoding of a PKCS#7 structure. When the call
/// fails is not stated, only that the outcome belongs to this structure.
#[verifier::external_body]
pub(crate) fn encode_signature(structure: &Pkcs7) -> (r: Result<Vec<u8>, ErrorStack>)
    ensures
        pkcs7_encodes(*structure, bytes_of(r)),
        r matches Ok(der) ==> der@ == pkcs7_der(*structure),
{
    structure.to_der()
}

/// `encoded` is what encoding this PKCS#7 structure comes to.
pub open spec fn is_signature_encoding(
    encoded: Result<Vec<u8>, ErrorStack>,
    structure: Pkcs7,
) -> bool {
    &&& pkcs7_encodes(structure, bytes_of(encoded))
    &&& encoded matches Ok(der) ==> der@ == pkcs7_der(structure)
}

/// What each step of signing is for.
#[derive(Clone, Copy, Debug)]
pub struct SigningContext {
    pub stack: &'static str,
    pub sign: &'static str,
    pub encode: &'static str,
}

/// What signing `content` and encoding the signature comes to: the encoded
/// signature, or OpenSSL's failure at one of the steps.
pub open spec fn signing_outcome(
    certificate: X509,
    key: PKey<Private>,
    content: Seq<u8>,
    flags: i32,
    context: SigningContext,
    r: Result<Vec<u8>, CryptoError>,
) -> bool {
    ||| {
        &&& r matches Err(error)
        &&& error.context@ == context.stack@
        &&& stack_made(Err(error.source))
    }
    ||| exists|signed: Result<Pkcs7, ErrorStack>|
        {
            &&& #[trigger] signs(certificate, key, seq![], content, flags, signed)
            &&& match signed {
                Err(e) => in_context(Err::<Vec<u8>, ErrorStack>(e), context.sign@, r),
                Ok(structure) => exists|encoded: Result<Vec<u8>, ErrorStack>|
                    {
                        &&& #[trigger] is_signature_encoding(encoded, structure)
                        &&& in_context(encoded, context.encode@, r)
                    },
            }
        }
}

/// A PKCS#7 signature of `content`, DER-encoded.
pub(crate) fn sign_and_encode(
    certificate: &X509,
    key: &PKey<Private>,
    content: &[u8],
    flags: i32,
    context: SigningContext,
) -> (r: Result<Vec<u8>, CryptoError>)
    requires
        content@.len() <= i32::MAX,
    ensures
        signing_outcome(*certificate, *key, content@, flags, context, r),
        flags == DETACHED_SIGNATURE && content@.len() > 0 && is_own_certificate(
            *certificate,
            *key,
        ) ==> (r matches Ok(signature) ==> verifies_detached(signature@, *certificate, content@)),
{
    let others: CertificateStack = match with_context(no_certificates(), context.stack) {
        Ok(others) => others,
        Err(e) => {
            return Err(e);
        },
    };
    let signed: Result<Pkcs7, ErrorStack> = sign_content(certificate, key, &others, content, flags);
    assert(stacked(others) =~= seq![]);
    assert(signs(*certificate, *key, seq![], content@, flags, signed));
    match signed {
        Err(e) => with_context(Err(e), context.sign),
        Ok(structure) => {
            let encoded: Result<Vec<u8>, ErrorStack> = encode_signature(&structure);
            assert(is_signature_encoding(encoded, structure));
            with_context(encoded, context.encode)
        },
    }
}

/// OpenSSL's notation for the key identifier of the issuer tells whether it is
/// always wanted.
pub proof fn law_key_identifier_notation(always: bool)
    ensures
        always <==> keyid_value(always) == "keyid:always"@,
        !always <==> keyid_value(always) == "keyid"@,
{
    reveal_strlit("keyid");
    reveal_strlit("keyid:always");
    assert("keyid"@.len() == 5);
    assert("keyid:always"@.len() == 12);
}

} // verus!
