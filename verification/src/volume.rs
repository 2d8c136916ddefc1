//! Confidential read-only block volumes: what a pod's annotation may ask for.

use crate::text::{
    delimits, law_classes_by_code, law_first_piece, law_trim_finds_the_ends, lemma_run_length,
    pieces, reads, run_length, same_text, split_pieces, texts, to_chars, trim, trim_chars,
    Delimiter, Trim,
};
pub use vstd::hash_map::StringHashMap;
use vstd::prelude::*;
use vstd::utf8::{encode_utf8, is_ascii_chars_encode_utf8};

verus! {

/// The annotation that selects confidential volumes.
pub const KATA_ANNO_CONFIDENTIAL_VOLUME: &'static str = "io.katacontainers.volume.confidential-ro";

/// A volume that is exposed to the workload only after the guest has
/// authenticated and decrypted it.
#[derive(Clone, Debug, PartialEq, Eq)]
pub struct ConfidentialVolume {
    /// The annotation that selects the volume.
    pub annotation_key: String,
    /// Where the volume's manifest is.
    pub manifest_uri: String,
    /// The device path in the container.
    pub device_path: String,
}

/// The text of a [`ConfidentialVolume`].
pub struct VolumeText {
    pub annotation_key: Seq<char>,
    pub manifest_uri: Seq<char>,
    pub device_path: Seq<char>,
}

impl View for ConfidentialVolume {
    type V = VolumeText;

    open spec fn view(&self) -> VolumeText {
        VolumeText {
            annotation_key: self.annotation_key@,
            manifest_uri: self.manifest_uri@,
            device_path: self.device_path@,
        }
    }
}

/// What the annotation says of one volume.
#[derive(Debug, PartialEq, Eq)]
pub struct AnnotationValue {
    pub manifest_uri: String,
    pub device_path: String,
}

/// The text of one entry of the annotation.
pub struct EntryText {
    pub name: Seq<char>,
    pub manifest_uri: Seq<char>,
    pub device_path: Seq<char>,
}

/// The text of an entry: a volume name and what the annotation says of it.
pub open spec fn entry_text(entry: (String, AnnotationValue)) -> EntryText {
    EntryText {
        name: entry.0@,
        manifest_uri: entry.1.manifest_uri@,
        device_path: entry.1.device_path@,
    }
}

/// The texts of the entries.
pub open spec fn entry_texts(entries: Seq<(String, AnnotationValue)>) -> Seq<EntryText> {
    entries.map_values(|entry: (String, AnnotationValue)| entry_text(entry))
}

/// Why an annotation is rejected.
#[derive(Debug, PartialEq, Eq)]
pub enum VolumeError {
    /// The annotation is used while the feature is disabled.
    FeatureDisabled,
    /// The annotation is not the expected JSON object; with the decoder's
    /// message.
    InvalidAnnotation(String),
    /// The annotation selects no volume.
    NoVolume,
    /// A volume name does not have 1 to 63 bytes.
    NameLength,
    /// A volume name holds other characters than `a-z`, `0-9`, `-` and `.`.
    NameCharacters,
    /// A volume name does not start and end with a letter or a digit.
    NameEnds,
    /// A device path is not an absolute path below `/dev`.
    DevicePathNotBelowDev,
    /// A device path goes up to a parent directory.
    DevicePathNotCanonical,
    /// A manifest URI is not a URL.
    InvalidManifestUri(url::ParseError),
    /// A manifest URI does not name a resource of a key broker.
    NotResourceUri,
    /// A manifest URI holds credentials or a fragment.
    UnsupportedUriComponents,
    /// Two volumes select this device path.
    DuplicateDevice(String),
}

/// The kind of a [`VolumeError`], with its text.
pub enum VolumeFault {
    FeatureDisabled,
    InvalidAnnotation(Seq<char>),
    NoVolume,
    NameLength,
    NameCharacters,
    NameEnds,
    DevicePathNotBelowDev,
    DevicePathNotCanonical,
    InvalidManifestUri(url::ParseError),
    NotResourceUri,
    UnsupportedUriComponents,
    DuplicateDevice(Seq<char>),
}

impl View for VolumeError {
    type V = VolumeFault;

    open spec fn view(&self) -> VolumeFault {
        match *self {
            VolumeError::FeatureDisabled => VolumeFault::FeatureDisabled,
            VolumeError::InvalidAnnotation(message) => VolumeFault::InvalidAnnotation(message@),
            VolumeError::NoVolume => VolumeFault::NoVolume,
            VolumeError::NameLength => VolumeFault::NameLength,
            VolumeError::NameCharacters => VolumeFault::NameCharacters,
            VolumeError::NameEnds => VolumeFault::NameEnds,
            VolumeError::DevicePathNotBelowDev => VolumeFault::DevicePathNotBelowDev,
            VolumeError::DevicePathNotCanonical => VolumeFault::DevicePathNotCanonical,
            VolumeError::InvalidManifestUri(error) => VolumeFault::InvalidManifestUri(error),
            VolumeError::NotResourceUri => VolumeFault::NotResourceUri,
            VolumeError::UnsupportedUriComponents => VolumeFault::UnsupportedUriComponents,
            VolumeError::DuplicateDevice(path) => VolumeFault::DuplicateDevice(path@),
        }
    }
}

/// A check succeeds exactly if there is no fault, and otherwise gives the fault.
pub open spec fn reports(r: Result<(), VolumeError>, fault: Option<VolumeFault>) -> bool {
    match r {
        Ok(_) => fault is None,
        Err(e) => fault == Some(e@),
    }
}

// ---------------------------------------------------------------------------
// Volume names
// ---------------------------------------------------------------------------

/// `a-z` or `0-9`.
pub open spec fn is_lower_alphanumeric(c: char) -> bool {
    ('a' <= c && c <= 'z') || ('0' <= c && c <= '9')
}

/// A character that a volume name may hold.
pub open spec fn is_name_character(c: char) -> bool {
    is_lower_alphanumeric(c) || c == '-' || c == '.'
}

/// What is wrong with a volume name. Its length counts bytes of UTF-8.
pub open spec fn name_fault(name: Seq<char>) -> Option<VolumeFault> {
    if name.len() == 0 || encode_utf8(name).len() > 63 {
        Some(VolumeFault::NameLength)
    } else if exists|i: int| 0 <= i < name.len() && !is_name_character(#[trigger] name[i]) {
        Some(VolumeFault::NameCharacters)
    } else if !is_lower_alphanumeric(name[0]) || !is_lower_alphanumeric(name.last()) {
        Some(VolumeFault::NameEnds)
    } else {
        None
    }
}

fn lower_alphanumeric(c: char) -> (r: bool)
    ensures
        r == is_lower_alphanumeric(c),
{
    ('a' <= c && c <= 'z') || ('0' <= c && c <= '9')
}

/// Checks that `name` is a valid volume name.
pub fn validate_volume_name(name: &str) -> (r: Result<(), VolumeError>)
    ensures
        reports(r, name_fault(name@)),
{
    if name.is_empty() || name.as_bytes().len() > 63 {
        return Err(VolumeError::NameLength);
    }
    let chars: Vec<char> = to_chars(name);
    let mut i: usize = 0;
    while i < chars.len()
        invariant
            chars@ == name@,
            name@.len() > 0,
            encode_utf8(name@).len() <= 63,
            i <= chars@.len(),
            forall|j: int| 0 <= j < i ==> is_name_character(#[trigger] chars@[j]),
        decreases chars@.len() - i,
    {
        let c: char = chars[i];
        if !(lower_alphanumeric(c) || c == '-' || c == '.') {
            assert(!is_name_character(name@[i as int]));
            return Err(VolumeError::NameCharacters);
        }
        i += 1;
    }
    if !lower_alphanumeric(chars[0]) || !lower_alphanumeric(chars[chars.len() - 1]) {
        return Err(VolumeError::NameEnds);
    }
    Ok(())
}

// ---------------------------------------------------------------------------
// Device paths
// ---------------------------------------------------------------------------

/// A piece of a path that counts as a component: not empty and not `.`.
pub open spec fn is_component(piece: Seq<char>) -> bool {
    piece.len() > 0 && piece != "."@
}

/// The components of an absolute path.
pub open spec fn components(path: Seq<char>) -> Seq<Seq<char>> {
    pieces(path, Delimiter::Slash).filter(|piece: Seq<char>| is_component(piece))
}

/// An absolute path whose first component is `dev` and which has another one.
pub open spec fn below_dev(path: Seq<char>) -> bool {
    &&& path.len() > 0
    &&& path[0] == '/'
    &&& components(path).len() >= 2
    &&& components(path)[0] == "dev"@
}

/// What is wrong with a device path.
pub open spec fn device_path_fault(path: Seq<char>) -> Option<VolumeFault> {
    if !below_dev(path) {
        Some(VolumeFault::DevicePathNotBelowDev)
    } else if components(path).contains(".."@) {
        Some(VolumeFault::DevicePathNotCanonical)
    } else {
        None
    }
}

fn split_components<'a>(path: &'a [char]) -> (r: Vec<&'a [char]>)
    ensures
        texts(r@) == components(path@),
{
    let all: Vec<&'a [char]> = split_pieces(path, Delimiter::Slash);
    let mut r: Vec<&'a [char]> = Vec::new();
    let ghost ps = pieces(path@, Delimiter::Slash);
    let ghost kept = |piece: Seq<char>| is_component(piece);
    let mut i: usize = 0;
    proof {
        reveal(Seq::filter);
        assert(texts(r@) =~= ps.take(0).filter(kept));
    }
    while i < all.len()
        invariant
            texts(all@) == ps,
            kept == (|piece: Seq<char>| is_component(piece)),
            i <= all@.len(),
            texts(r@) == ps.take(i as int).filter(kept),
        decreases all@.len() - i,
    {
        let ghost before = texts(r@);
        let piece: &'a [char] = all[i];
        assert(ps.len() == all@.len());
        assert(ps[i as int] == piece@);
        if piece.len() > 0 && !reads(piece, ".") {
            r.push(piece);
            assert(texts(r@) =~= before.push(piece@));
        }
        proof {
            reveal(Seq::filter);
            assert(ps.take(i + 1).drop_last() =~= ps.take(i as int));
            assert(ps.take(i + 1).last() == piece@);
        }
        i += 1;
    }
    assert(ps.len() == all@.len());
    assert(ps.take(i as int) =~= ps);
    r
}

/// Checks that `device_path` is an absolute path below `/dev` that never goes
/// up.
pub fn validate_device_path(device_path: &str) -> (r: Result<(), VolumeError>)
    ensures
        reports(r, device_path_fault(device_path@)),
{
    let path: Vec<char> = to_chars(device_path);
    let parts: Vec<&[char]> = split_components(path.as_slice());
    let ghost cs = components(device_path@);
    assert(cs.len() == parts@.len());
    assert(forall|j: int| 0 <= j < cs.len() ==> #[trigger] cs[j] == parts@[j]@);
    if path.len() == 0 || path[0] != '/' || parts.len() < 2 || !reads(parts[0], "dev") {
        return Err(VolumeError::DevicePathNotBelowDev);
    }
    let mut i: usize = 0;
    while i < parts.len()
        invariant
            cs == components(device_path@),
            below_dev(device_path@),
            cs.len() == parts@.len(),
            forall|j: int| 0 <= j < cs.len() ==> #[trigger] cs[j] == parts@[j]@,
            i <= parts@.len(),
            forall|j: int| 0 <= j < i ==> #[trigger] cs[j] != ".."@,
        decreases parts@.len() - i,
    {
        if reads(parts[i], "..") {
            assert(cs[i as int] == ".."@);
            return Err(VolumeError::DevicePathNotCanonical);
        }
        i += 1;
    }
    Ok(())
}

// ---------------------------------------------------------------------------
// Manifest URIs
// ---------------------------------------------------------------------------

/// The error of the `url` crate's parser; nothing is known of its values.
#[verifier::external_type_specification]
#[verifier::external_body]
pub struct ExParseError(url::ParseError);

/// The components of a parsed URL that the checks read.
#[derive(Debug, PartialEq, Eq)]
pub struct UrlParts {
    pub scheme: String,
    pub path: String,
    pub username: String,
    pub password: Option<String>,
    pub fragment: Option<String>,
}

/// The text of [`UrlParts`].
pub struct UrlText {
    pub scheme: Seq<char>,
    pub path: Seq<char>,
    pub username: Seq<char>,
    pub password: Option<Seq<char>>,
    pub fragment: Option<Seq<char>>,
}

/// The text of an optional string.
pub open spec fn optional_text(s: Option<String>) -> Option<Seq<char>> {
    match s {
        Some(text) => Some(text@),
        None => None,
    }
}

impl View for UrlParts {
    type V = UrlText;

    open spec fn view(&self) -> UrlText {
        UrlText {
            scheme: self.scheme@,
            path: self.path@,
            username: self.username@,
            password: optional_text(self.password),
            fragment: optional_text(self.fragment),
        }
    }
}

/// What `url::Url::parse` gives for a text, read through the accessors
/// `scheme`, `path`, `username`, `password` and `fragment`.
pub uninterp spec fn parsed_url(input: Seq<char>) -> Result<UrlText, url::ParseError>;

/// `url::Url::parse`: the URL that `input` stands for, or the reason why it is
/// none. The outcome is a function of the text alone, and is what [`parsed_url`]
/// names; which texts are URLs, and how they are taken apart, is not stated.
#[verifier::external_body]
fn parse_url(input: &str) -> (r: Result<UrlParts, url::ParseError>)
    ensures
        match r {
            Ok(parts) => parsed_url(input@) == Ok::<UrlText, url::ParseError>(parts@),
            Err(e) => parsed_url(input@) == Err::<UrlText, url::ParseError>(e),
        },
{
    let parsed = url::Url::parse(input)?;
    Ok(UrlParts {
        scheme: parsed.scheme().to_string(),
        path: parsed.path().to_string(),
        username: parsed.username().to_string(),
        password: parsed.password().map(str::to_string),
        fragment: parsed.fragment().map(str::to_string),
    })
}

/// What is wrong with a URL as a manifest's address: it must name a resource of
/// a key broker, and hold neither credentials nor a fragment.
pub open spec fn url_fault(parts: UrlText) -> Option<VolumeFault> {
    if parts.scheme != "kbs"@ || trim(parts.path, Trim::Slashes).len() == 0 {
        Some(VolumeFault::NotResourceUri)
    } else if parts.username.len() > 0 || parts.password is Some || parts.fragment is Some {
        Some(VolumeFault::UnsupportedUriComponents)
    } else {
        None
    }
}

/// What is wrong with a manifest URI.
pub open spec fn manifest_uri_fault(uri: Seq<char>) -> Option<VolumeFault> {
    match parsed_url(uri) {
        Ok(parts) => url_fault(parts),
        Err(e) => Some(VolumeFault::InvalidManifestUri(e)),
    }
}

/// Checks that a URL is the address of a manifest.
pub fn validate_manifest_url(parts: &UrlParts) -> (r: Result<(), VolumeError>)
    ensures
        reports(r, url_fault(parts@)),
{
    let path: Vec<char> = to_chars(parts.path.as_str());
    let resource: &[char] = trim_chars(path.as_slice(), Trim::Slashes);
    if !same_text(parts.scheme.as_str(), "kbs") || resource.len() == 0 {
        return Err(VolumeError::NotResourceUri);
    }
    if !parts.username.as_str().is_empty() || parts.password.is_some() || parts.fragment.is_some() {
        return Err(VolumeError::UnsupportedUriComponents);
    }
    Ok(())
}

/// Checks that `manifest_uri` is the address of a manifest.
pub fn validate_manifest_uri(manifest_uri: &str) -> (r: Result<(), VolumeError>)
    ensures
        reports(r, manifest_uri_fault(manifest_uri@)),
{
    match parse_url(manifest_uri) {
        Ok(parts) => validate_manifest_url(&parts),
        Err(e) => Err(VolumeError::InvalidManifestUri(e)),
    }
}

// ---------------------------------------------------------------------------
// The annotation
// ---------------------------------------------------------------------------

/// What is wrong with an entry in itself.
pub open spec fn own_fault(entry: EntryText) -> Option<VolumeFault> {
    match name_fault(entry.name) {
        Some(fault) => Some(fault),
        None => match device_path_fault(entry.device_path) {
            Some(fault) => Some(fault),
            None => manifest_uri_fault(entry.manifest_uri),
        },
    }
}

/// An earlier entry selects the same device path as entry `i`.
pub open spec fn repeats_device(entries: Seq<EntryText>, i: int) -> bool {
    exists|j: int| 0 <= j < i && (#[trigger] entries[j]).device_path == entries[i].device_path
}

/// What is wrong with entry `i`, in itself or beside the earlier ones.
pub open spec fn entry_fault(entries: Seq<EntryText>, i: int) -> Option<VolumeFault> {
    match own_fault(entries[i]) {
        Some(fault) => Some(fault),
        None => if repeats_device(entries, i) {
            Some(VolumeFault::DuplicateDevice(entries[i].device_path))
        } else {
            None
        },
    }
}

/// Nothing is wrong with any entry.
pub open spec fn accepted(entries: Seq<EntryText>) -> bool {
    forall|i: int| 0 <= i < entries.len() ==> (#[trigger] entry_fault(entries, i)) is None
}

/// The volume that an entry selects.
pub open spec fn selected_volume(entry: EntryText) -> VolumeText {
    VolumeText {
        annotation_key: KATA_ANNO_CONFIDENTIAL_VOLUME@,
        manifest_uri: entry.manifest_uri,
        device_path: entry.device_path,
    }
}

/// The volumes that the entries select, by device path.
pub open spec fn selected_volumes(entries: Seq<EntryText>) -> Map<Seq<char>, VolumeText>
    decreases entries.len(),
{
    if entries.len() == 0 {
        Map::empty()
    } else {
        selected_volumes(entries.drop_last()).insert(
            entries.last().device_path,
            selected_volume(entries.last()),
        )
    }
}

/// The texts of volumes, by device path.
pub open spec fn volume_texts(volumes: Map<Seq<char>, ConfidentialVolume>) -> Map<
    Seq<char>,
    VolumeText,
> {
    volumes.map_values(|volume: ConfidentialVolume| volume@)
}

/// What the entries of an annotation give: their volumes, if there is an entry
/// and nothing is wrong with any; otherwise the first fault.
pub open spec fn collects(
    entries: Seq<EntryText>,
    r: Result<StringHashMap<ConfidentialVolume>, VolumeError>,
) -> bool {
    match r {
        Ok(volumes) => {
            &&& entries.len() > 0
            &&& accepted(entries)
            &&& volume_texts(volumes@) == selected_volumes(entries)
        },
        Err(e) => if entries.len() == 0 {
            e@ == VolumeFault::NoVolume
        } else {
            exists|i: int|
                {
                    &&& 0 <= i < entries.len()
                    &&& #[trigger] entry_fault(entries, i) == Some(e@)
                    &&& forall|j: int| 0 <= j < i ==> (#[trigger] entry_fault(entries, j)) is None
                }
        },
    }
}

/// The volumes that the entries of an annotation select, by device path. The
/// entries are taken in the order given.
pub fn collect_volumes(entries: &Vec<(String, AnnotationValue)>) -> (r: Result<
    StringHashMap<ConfidentialVolume>,
    VolumeError,
>)
    ensures
        collects(entry_texts(entries@), r),
{
    if entries.len() == 0 {
        return Err(VolumeError::NoVolume);
    }
    let ghost es = entry_texts(entries@);
    let mut volumes: StringHashMap<ConfidentialVolume> = StringHashMap::new();
    let mut i: usize = 0;
    proof {
        assert(volume_texts(volumes@) =~= selected_volumes(es.take(0)));
    }
    while i < entries.len()
        invariant
            es == entry_texts(entries@),
            es.len() > 0,
            i <= es.len(),
            volume_texts(volumes@) == selected_volumes(es.take(i as int)),
            forall|p: Seq<char>| #[trigger]
                volumes@.contains_key(p) <==> exists|j: int|
                    0 <= j < i && (#[trigger] es[j]).device_path == p,
            forall|j: int| 0 <= j < i ==> (#[trigger] entry_fault(es, j)) is None,
        decreases es.len() - i,
    {
        let name: &String = &entries[i].0;
        let value: &AnnotationValue = &entries[i].1;
        assert(es[i as int] == entry_text(entries@[i as int]));
        match validate_volume_name(name.as_str()) {
            Ok(_) => {},
            Err(e) => {
                assert(entry_fault(es, i as int) == Some(e@));
                return Err(e);
            },
        }
        match validate_device_path(value.device_path.as_str()) {
            Ok(_) => {},
            Err(e) => {
                assert(entry_fault(es, i as int) == Some(e@));
                return Err(e);
            },
        }
        match validate_manifest_uri(value.manifest_uri.as_str()) {
            Ok(_) => {},
            Err(e) => {
                assert(entry_fault(es, i as int) == Some(e@));
                return Err(e);
            },
        }
        let device_path: String = value.device_path.clone();
        if volumes.contains_key(device_path.as_str()) {
            let e = VolumeError::DuplicateDevice(device_path);
            assert(repeats_device(es, i as int));
            assert(entry_fault(es, i as int) == Some(e@));
            return Err(e);
        }
        assert(!repeats_device(es, i as int)) by {
            if repeats_device(es, i as int) {
                assert(volumes@.contains_key(device_path@));
            }
        }
        let volume = ConfidentialVolume {
            annotation_key: KATA_ANNO_CONFIDENTIAL_VOLUME.to_owned(),
            manifest_uri: value.manifest_uri.clone(),
            device_path: value.device_path.clone(),
        };
        let ghost before = volumes@;
        volumes.insert(device_path, volume);
        proof {
            assert(volume@ == selected_volume(es[i as int]));
            assert(es.take(i + 1).drop_last() =~= es.take(i as int));
            assert(es.take(i + 1).last() == es[i as int]);
            assert(volume_texts(volumes@) =~= volume_texts(before).insert(device_path@, volume@));
            assert forall|p: Seq<char>| #[trigger] volumes@.contains_key(p) <==> exists|j: int|
                0 <= j < i + 1 && (#[trigger] es[j]).device_path == p by {
                if before.contains_key(p) {
                    let j = choose|j: int| 0 <= j < i && (#[trigger] es[j]).device_path == p;
                    assert(es[j].device_path == p);
                }
                if p == device_path@ {
                    assert(es[i as int].device_path == p);
                }
                if exists|j: int| 0 <= j < i + 1 && (#[trigger] es[j]).device_path == p {
                    let j = choose|j: int| 0 <= j < i + 1 && (#[trigger] es[j]).device_path == p;
                    if j < i {
                        assert(before.contains_key(p));
                    }
                }
            }
        }
        i += 1;
    }
    assert(es.take(i as int) =~= es);
    Ok(volumes)
}

/// The text of the annotation that selects confidential volumes, if there is
/// one. It is rejected while the feature is disabled.
pub fn selected_annotation(
    annotations: &StringHashMap<String>,
    feature_enabled: bool,
) -> (r: Result<Option<&String>, VolumeError>)
    ensures
        match r {
            Ok(None) => !annotations@.contains_key(KATA_ANNO_CONFIDENTIAL_VOLUME@),
            Ok(Some(raw)) => {
                &&& annotations@.contains_key(KATA_ANNO_CONFIDENTIAL_VOLUME@)
                &&& feature_enabled
                &&& *raw == annotations@[KATA_ANNO_CONFIDENTIAL_VOLUME@]
            },
            Err(e) => {
                &&& annotations@.contains_key(KATA_ANNO_CONFIDENTIAL_VOLUME@)
                &&& !feature_enabled
                &&& e@ == VolumeFault::FeatureDisabled
            },
        },
{
    match annotations.get(KATA_ANNO_CONFIDENTIAL_VOLUME) {
        None => Ok(None),
        Some(raw) => if feature_enabled {
            Ok(Some(raw))
        } else {
            Err(VolumeError::FeatureDisabled)
        },
    }
}

/// What a pod's annotations give: nothing without the annotation, an error while
/// the feature is disabled, and otherwise what the decoded entries give, or the
/// decoder's message.
pub open spec fn parses<F: Fn(&str) -> Result<Vec<(String, AnnotationValue)>, String>>(
    annotations: Map<Seq<char>, String>,
    feature_enabled: bool,
    decode: F,
    r: Result<StringHashMap<ConfidentialVolume>, VolumeError>,
) -> bool {
    if !annotations.contains_key(KATA_ANNO_CONFIDENTIAL_VOLUME@) {
        r matches Ok(volumes) && volumes@ == Map::<Seq<char>, ConfidentialVolume>::empty()
    } else if !feature_enabled {
        r matches Err(e) && e@ == VolumeFault::FeatureDisabled
    } else {
        exists|raw: &str, decoded: Result<Vec<(String, AnnotationValue)>, String>|
            {
                &&& raw@ == annotations[KATA_ANNO_CONFIDENTIAL_VOLUME@]@
                &&& #[trigger] decode.ensures((raw,), decoded)
                &&& match decoded {
                    Ok(entries) => collects(entry_texts(entries@), r),
                    Err(message) => r matches Err(e) && e@ == VolumeFault::InvalidAnnotation(
                        message@,
                    ),
                }
            }
    }
}

/// The confidential volumes that a pod's annotations select, by device path.
///
/// `decode` turns the text of the annotation, a JSON object from volume names
/// to [`AnnotationValue`]s, into its entries in any order, or gives a message.
/// It is asked only if the annotation is there and the feature is enabled.
pub fn parse_annotations<F: Fn(&str) -> Result<Vec<(String, AnnotationValue)>, String>>(
    annotations: &StringHashMap<String>,
    feature_enabled: bool,
    decode: F,
) -> (r: Result<StringHashMap<ConfidentialVolume>, VolumeError>)
    requires
        forall|raw: &str| decode.requires((raw,)),
    ensures
        parses(annotations@, feature_enabled, decode, r),
{
    match selected_annotation(annotations, feature_enabled) {
        Err(e) => Err(e),
        Ok(None) => Ok(StringHashMap::new()),
        Ok(Some(raw)) => {
            let raw: &str = raw.as_str();
            match decode(raw) {
                Ok(entries) => collect_volumes(&entries),
                Err(message) => Err(VolumeError::InvalidAnnotation(message)),
            }
        },
    }
}

// ---------------------------------------------------------------------------
// Laws
// ---------------------------------------------------------------------------

proof fn lemma_accepted_prefix(entries: Seq<EntryText>)
    requires
        accepted(entries),
        entries.len() > 0,
    ensures
        accepted(entries.drop_last()),
{
    let before = entries.drop_last();
    assert forall|i: int| 0 <= i < before.len() implies (#[trigger] entry_fault(
        before,
        i,
    )) is None by {
        assert(entry_fault(entries, i) is None);
        if repeats_device(before, i) {
            let j = choose|j: int|
                0 <= j < i && (#[trigger] before[j]).device_path == before[i].device_path;
            assert(entries[j].device_path == entries[i].device_path);
            assert(repeats_device(entries, i));
        }
    }
}

proof fn lemma_selected_volumes(entries: Seq<EntryText>)
    requires
        accepted(entries),
    ensures
        forall|p: Seq<char>| #[trigger]
            selected_volumes(entries).contains_key(p) <==> exists|j: int|
                0 <= j < entries.len() && (#[trigger] entries[j]).device_path == p,
        forall|j: int|
            0 <= j < entries.len() ==> selected_volumes(entries)[(
            #[trigger] entries[j]).device_path] == selected_volume(entries[j]),
    decreases entries.len(),
{
    if entries.len() > 0 {
        let before = entries.drop_last();
        let n = before.len() as int;
        lemma_accepted_prefix(entries);
        lemma_selected_volumes(before);
        assert forall|p: Seq<char>| #[trigger]
            selected_volumes(entries).contains_key(p) <==> exists|j: int|
            0 <= j < entries.len() && (#[trigger] entries[j]).device_path == p by {
            if selected_volumes(before).contains_key(p) {
                let j = choose|j: int|
                    0 <= j < before.len() && (#[trigger] before[j]).device_path == p;
                assert(entries[j].device_path == p);
            }
            if p == entries.last().device_path {
                assert(entries[n].device_path == p);
            }
            if exists|j: int| 0 <= j < entries.len() && (#[trigger] entries[j]).device_path == p {
                let j = choose|j: int|
                    0 <= j < entries.len() && (#[trigger] entries[j]).device_path == p;
                if j < n {
                    assert(before[j].device_path == p);
                }
            }
        }
        assert forall|j: int| 0 <= j < entries.len() implies selected_volumes(entries)[(
        #[trigger] entries[j]).device_path] == selected_volume(entries[j]) by {
            if j < n {
                assert(before[j] == entries[j]);
                assert(entry_fault(entries, n) is None);
                if entries[j].device_path == entries[n].device_path {
                    assert(repeats_device(entries, n));
                }
            }
        }
    }
}

/// Entry by entry, two different entries of an accepted annotation select
/// different device paths.
proof fn lemma_accepted_paths_differ(entries: Seq<EntryText>, i: int, j: int)
    requires
        accepted(entries),
        0 <= i < entries.len(),
        0 <= j < entries.len(),
        i != j,
    ensures
        entries[i].device_path != entries[j].device_path,
{
    if i < j {
        assert(entry_fault(entries, j) is None);
        if entries[i].device_path == entries[j].device_path {
            assert(repeats_device(entries, j));
        }
    } else {
        assert(entry_fault(entries, i) is None);
        if entries[i].device_path == entries[j].device_path {
            assert(repeats_device(entries, i));
        }
    }
}

proof fn lemma_accepted_in_any_order(a: Seq<EntryText>, b: Seq<EntryText>)
    requires
        a.to_multiset() == b.to_multiset(),
        accepted(a),
    ensures
        accepted(b),
{
    broadcast use vstd::seq_lib::group_to_multiset_ensures;

    assert(a.no_duplicates()) by {
        assert forall|i: int, j: int|
            0 <= i < a.len() && 0 <= j < a.len() && i != j implies a[i] != a[j] by {
            lemma_accepted_paths_differ(a, i, j);
        }
    }
    a.lemma_multiset_has_no_duplicates();
    b.lemma_multiset_has_no_duplicates_conv();
    assert forall|i: int| 0 <= i < b.len() implies a.contains(#[trigger] b[i]) by {
        assert(b.contains(b[i]));
        assert(b.to_multiset().count(b[i]) > 0);
    }
    assert forall|i: int| 0 <= i < b.len() implies (#[trigger] entry_fault(b, i)) is None by {
        assert(a.contains(b[i]));
        let x = choose|x: int| 0 <= x < a.len() && a[x] == b[i];
        assert(entry_fault(a, x) is None);
        if repeats_device(b, i) {
            let j = choose|j: int| 0 <= j < i && (#[trigger] b[j]).device_path == b[i].device_path;
            assert(a.contains(b[j]));
            let y = choose|y: int| 0 <= y < a.len() && a[y] == b[j];
            assert(b[j] != b[i]);
            lemma_accepted_paths_differ(a, x, y);
        }
    }
}

/// The order in which an annotation's entries are taken changes neither whether
/// the annotation is accepted nor which volumes it selects.
pub proof fn law_entry_order_does_not_matter(a: Seq<EntryText>, b: Seq<EntryText>)
    requires
        a.to_multiset() == b.to_multiset(),
    ensures
        accepted(a) == accepted(b),
        accepted(a) ==> selected_volumes(a) == selected_volumes(b),
{
    broadcast use vstd::seq_lib::group_to_multiset_ensures;

    if accepted(a) {
        lemma_accepted_in_any_order(a, b);
    }
    if accepted(b) {
        lemma_accepted_in_any_order(b, a);
    }
    if accepted(a) {
        lemma_selected_volumes(a);
        lemma_selected_volumes(b);
        let m = selected_volumes(a);
        let n = selected_volumes(b);
        assert forall|p: Seq<char>| m.contains_key(p) implies n.contains_key(p) && m[p] == n[p] by {
            let j = choose|j: int| 0 <= j < a.len() && (#[trigger] a[j]).device_path == p;
            assert(a.contains(a[j]));
            assert(a.to_multiset().count(a[j]) > 0);
            assert(b.contains(a[j]));
            let i = choose|i: int| 0 <= i < b.len() && b[i] == a[j];
            assert(b[i].device_path == p);
        }
        assert forall|p: Seq<char>| n.contains_key(p) implies m.contains_key(p) by {
            let j = choose|j: int| 0 <= j < b.len() && (#[trigger] b[j]).device_path == p;
            assert(b.contains(b[j]));
            assert(b.to_multiset().count(b[j]) > 0);
            assert(a.contains(b[j]));
            let i = choose|i: int| 0 <= i < a.len() && a[i] == b[j];
            assert(a[i].device_path == p);
        }
        assert(m =~= n);
    }
}

/// Every volume that an accepted annotation selects stands under its own device
/// path, comes from an entry, and has a device path below `/dev` and a manifest
/// URI that pass the checks.
pub proof fn law_selected_volumes_are_valid(entries: Seq<EntryText>, path: Seq<char>)
    requires
        accepted(entries),
        selected_volumes(entries).contains_key(path),
    ensures
        selected_volumes(entries)[path].device_path == path,
        selected_volumes(entries)[path].annotation_key == KATA_ANNO_CONFIDENTIAL_VOLUME@,
        device_path_fault(path) is None,
        manifest_uri_fault(selected_volumes(entries)[path].manifest_uri) is None,
        exists|j: int|
            {
                &&& 0 <= j < entries.len()
                &&& (#[trigger] entries[j]).device_path == path
                &&& entries[j].manifest_uri == selected_volumes(entries)[path].manifest_uri
            },
{
    lemma_selected_volumes(entries);
    let j = choose|j: int| 0 <= j < entries.len() && (#[trigger] entries[j]).device_path == path;
    assert(entry_fault(entries, j) is None);
}

/// An accepted annotation selects one volume for each of its entries.
pub proof fn law_one_volume_per_entry(entries: Seq<EntryText>)
    requires
        accepted(entries),
    ensures
        selected_volumes(entries).dom().finite(),
        selected_volumes(entries).dom().len() == entries.len(),
    decreases entries.len(),
{
    if entries.len() > 0 {
        let before = entries.drop_last();
        let n = before.len() as int;
        lemma_accepted_prefix(entries);
        law_one_volume_per_entry(before);
        lemma_selected_volumes(before);
        let path = entries.last().device_path;
        if selected_volumes(before).contains_key(path) {
            let j = choose|j: int|
                0 <= j < before.len() && (#[trigger] before[j]).device_path == path;
            lemma_accepted_paths_differ(entries, j, n);
        }
        assert(selected_volumes(entries).dom() =~= selected_volumes(before).dom().insert(path));
    } else {
        assert(selected_volumes(entries).dom() =~= Set::<Seq<char>>::empty());
    }
}

/// Two decodings are the same up to the order of the entries and the wording of
/// a message.
pub open spec fn same_decoding(
    a: Result<Vec<(String, AnnotationValue)>, String>,
    b: Result<Vec<(String, AnnotationValue)>, String>,
) -> bool {
    match (a, b) {
        (Ok(x), Ok(y)) => entry_texts(x@).to_multiset() == entry_texts(y@).to_multiset(),
        (Err(_), Err(_)) => true,
        _ => false,
    }
}

/// What the decoder gives depends on the text alone, up to order.
pub open spec fn decodes_by_text<F: Fn(&str) -> Result<Vec<(String, AnnotationValue)>, String>>(
    decode: F,
) -> bool {
    forall|
        x: &str,
        y: &str,
        a: Result<Vec<(String, AnnotationValue)>, String>,
        b: Result<Vec<(String, AnnotationValue)>, String>,
    |
        x@ == y@ && #[trigger] decode.ensures((x,), a) && #[trigger] decode.ensures((y,), b)
            ==> same_decoding(a, b)
}

/// The two maps hold the same text, or none, for the annotation that selects
/// confidential volumes.
pub open spec fn same_annotation(a: Map<Seq<char>, String>, b: Map<Seq<char>, String>) -> bool {
    &&& a.contains_key(KATA_ANNO_CONFIDENTIAL_VOLUME@) == b.contains_key(
        KATA_ANNO_CONFIDENTIAL_VOLUME@,
    )
    &&& a.contains_key(KATA_ANNO_CONFIDENTIAL_VOLUME@) ==> a[KATA_ANNO_CONFIDENTIAL_VOLUME@]@
        == b[KATA_ANNO_CONFIDENTIAL_VOLUME@]@
}

proof fn lemma_collections_agree(
    a: Seq<EntryText>,
    b: Seq<EntryText>,
    x: Result<StringHashMap<ConfidentialVolume>, VolumeError>,
    y: Result<StringHashMap<ConfidentialVolume>, VolumeError>,
)
    requires
        a.to_multiset() == b.to_multiset(),
        collects(a, x),
        collects(b, y),
    ensures
        x is Ok == y is Ok,
        x matches Ok(v) ==> (y matches Ok(w) && volume_texts(v@) == volume_texts(w@)),
{
    broadcast use vstd::seq_lib::group_to_multiset_ensures;

    law_entry_order_does_not_matter(a, b);
    assert(a.to_multiset().len() == a.len() && b.to_multiset().len() == b.len());
}

/// No other annotation has an influence, nor has the order in which the decoder
/// gives the entries: with a decoder that goes by the text alone, two pods with
/// the same annotation are both refused, or get the same volumes.
pub proof fn law_only_the_annotation_counts<
    F: Fn(&str) -> Result<Vec<(String, AnnotationValue)>, String>,
>(
    a: Map<Seq<char>, String>,
    b: Map<Seq<char>, String>,
    feature_enabled: bool,
    decode: F,
    x: Result<StringHashMap<ConfidentialVolume>, VolumeError>,
    y: Result<StringHashMap<ConfidentialVolume>, VolumeError>,
)
    requires
        decodes_by_text(decode),
        same_annotation(a, b),
        parses(a, feature_enabled, decode, x),
        parses(b, feature_enabled, decode, y),
    ensures
        x is Ok == y is Ok,
        x matches Ok(v) ==> (y matches Ok(w) && volume_texts(v@) == volume_texts(w@)),
{
    let key = KATA_ANNO_CONFIDENTIAL_VOLUME@;
    if a.contains_key(key) && feature_enabled {
        let (p, c) = choose|raw: &str, decoded: Result<Vec<(String, AnnotationValue)>, String>|
            {
                &&& raw@ == a[key]@
                &&& #[trigger] decode.ensures((raw,), decoded)
                &&& match decoded {
                    Ok(entries) => collects(entry_texts(entries@), x),
                    Err(message) => x matches Err(e) && e@ == VolumeFault::InvalidAnnotation(
                        message@,
                    ),
                }
            };
        let (q, d) = choose|raw: &str, decoded: Result<Vec<(String, AnnotationValue)>, String>|
            {
                &&& raw@ == b[key]@
                &&& #[trigger] decode.ensures((raw,), decoded)
                &&& match decoded {
                    Ok(entries) => collects(entry_texts(entries@), y),
                    Err(message) => y matches Err(e) && e@ == VolumeFault::InvalidAnnotation(
                        message@,
                    ),
                }
            };
        assert(decode.ensures((p,), c) && decode.ensures((q,), d));
        assert(same_decoding(c, d));
        match (c, d) {
            (Ok(m), Ok(n)) => {
                lemma_collections_agree(entry_texts(m@), entry_texts(n@), x, y);
            },
            _ => {},
        }
    }
}

/// A lower-case letter or a digit, by code.
pub open spec fn letter_or_digit_code(c: char) -> bool {
    0x61 <= c as int <= 0x7a || 0x30 <= c as int <= 0x39
}

/// 1 to 63 letters, digits, hyphens and dots, with a letter or a digit at either
/// end, by code.
pub open spec fn well_formed_name(name: Seq<char>) -> bool {
    &&& 1 <= name.len() <= 63
    &&& forall|i: int|
        0 <= i < name.len() ==> letter_or_digit_code(#[trigger] name[i]) || name[i] as int == 0x2d
            || name[i] as int == 0x2e
    &&& letter_or_digit_code(name[0])
    &&& letter_or_digit_code(name[name.len() - 1])
}

/// Exactly the well-formed names are without fault; the fault of another one is
/// its length in bytes, then its characters, then its ends.
pub proof fn law_names(name: Seq<char>)
    ensures
        name_fault(name) is None <==> well_formed_name(name),
        name_fault(name) == Some(VolumeFault::NameLength) <==> name.len() == 0 || encode_utf8(
            name,
        ).len() >= 64,
        name_fault(name) == Some(VolumeFault::NameCharacters) <==> {
            &&& name.len() > 0
            &&& encode_utf8(name).len() < 64
            &&& exists|i: int|
                0 <= i < name.len() && !letter_or_digit_code(#[trigger] name[i]) && name[i] as int
                    != 0x2d && name[i] as int != 0x2e
        },
        name_fault(name) is Some ==> {
            ||| name_fault(name) == Some(VolumeFault::NameLength)
            ||| name_fault(name) == Some(VolumeFault::NameCharacters)
            ||| name_fault(name) == Some(VolumeFault::NameEnds)
        },
{
    let plain = forall|i: int|
        0 <= i < name.len() ==> letter_or_digit_code(#[trigger] name[i]) || name[i] as int == 0x2d
            || name[i] as int == 0x2e;
    if plain {
        assert forall|i: int| 0 <= i < name.len() implies '\0' <= #[trigger] name[i] <= '\u{7f}' by {
            assert(letter_or_digit_code(name[i]) || name[i] as int == 0x2d || name[i] as int == 0x2e);
        }
        is_ascii_chars_encode_utf8(name);
        assert forall|i: int| 0 <= i < name.len() implies is_name_character(#[trigger] name[i]) by {
            assert(letter_or_digit_code(name[i]) || name[i] as int == 0x2d || name[i] as int == 0x2e);
        }
    } else {
        let i = choose|i: int|
            0 <= i < name.len() && !(letter_or_digit_code(#[trigger] name[i]) || name[i] as int
                == 0x2d || name[i] as int == 0x2e);
        assert(!is_name_character(name[i]));
    }
}

/// A name of 1 to 63 letters and digits alone is accepted.
pub proof fn law_letters_and_digits_are_a_name(name: Seq<char>)
    requires
        1 <= name.len() <= 63,
        forall|i: int|
            0 <= i < name.len() ==> 0x61 <= (#[trigger] name[i]) as int <= 0x7a || 0x30
                <= name[i] as int <= 0x39,
    ensures
        name_fault(name) is None,
{
    assert forall|i: int| 0 <= i < name.len() implies letter_or_digit_code(#[trigger] name[i]) by {}
    assert(letter_or_digit_code(name[0]));
    assert(letter_or_digit_code(name[name.len() - 1]));
    law_names(name);
}

/// The path that has these parts, each behind a slash.
pub open spec fn path_of(parts: Seq<Seq<char>>) -> Seq<char>
    decreases parts.len(),
{
    if parts.len() == 0 {
        seq![]
    } else {
        seq!['/'] + parts[0] + path_of(parts.drop_first())
    }
}

/// No part holds a slash.
pub open spec fn slash_free(parts: Seq<Seq<char>>) -> bool {
    forall|k: int, i: int|
        #![trigger parts[k][i]]
        0 <= k < parts.len() && 0 <= i < parts[k].len() ==> parts[k][i] as int != 0x2f
}

/// The parts that count: neither empty nor a single dot.
pub open spec fn counting(parts: Seq<Seq<char>>) -> Seq<Seq<char>> {
    parts.filter(|part: Seq<char>| part.len() > 0 && part != "."@)
}

proof fn lemma_pieces_of_path(first: Seq<char>, parts: Seq<Seq<char>>)
    requires
        slash_free(seq![first] + parts),
    ensures
        pieces(first + path_of(parts), Delimiter::Slash).filter(
            |piece: Seq<char>| is_component(piece),
        ) == counting(seq![first] + parts),
    decreases parts.len(),
{
    let kept = |piece: Seq<char>| is_component(piece);
    let counts = |part: Seq<char>| part.len() > 0 && part != "."@;
    assert(kept =~= counts);
    let all = seq![first] + parts;
    let d = Delimiter::Slash;
    assert forall|i: int| 0 <= i < first.len() implies !delimits(d, #[trigger] first[i]) by {
        assert(all[0][i] as int != 0x2f);
        law_classes_by_code(first[i]);
    }
    law_classes_by_code('/');
    if parts.len() == 0 {
        law_first_piece(first, '/', Seq::empty(), d);
        assert(first + path_of(parts) =~= first);
        assert(all =~= seq![first]);
        if first.len() == 0 {
            assert(first =~= Seq::<char>::empty());
            reveal(Seq::filter);
            assert(seq![first].drop_last() =~= Seq::<Seq<char>>::empty());
            assert(Seq::<Seq<char>>::empty().filter(counts) =~= Seq::<Seq<char>>::empty());
            assert(seq![first].filter(counts) =~= Seq::<Seq<char>>::empty());
        }
    } else {
        let rest = parts.drop_first();
        let tail = parts[0] + path_of(rest);
        law_first_piece(first, '/', tail, d);
        assert(first + path_of(parts) =~= first + seq!['/'] + tail);
        let later = seq![parts[0]] + rest;
        assert(later =~= parts);
        assert forall|k: int, i: int|
            #![trigger later[k][i]]
            0 <= k < later.len() && 0 <= i < later[k].len() implies later[k][i] as int != 0x2f by {
            assert(all[k + 1][i] as int != 0x2f);
        }
        lemma_pieces_of_path(parts[0], rest);
        Seq::filter_distributes_over_add(seq![first], pieces(tail, d), kept);
        Seq::filter_distributes_over_add(seq![first], parts, kept);
        assert(counting(all) == all.filter(kept));
        assert(counting(later) == later.filter(kept));
    }
}

/// A device path, by its parts: it is without fault if and only if the first
/// part that counts is `dev`, another part counts, and none is two dots. If only
/// the last fails, it is not canonical; otherwise it is not below `/dev`.
pub proof fn law_device_paths(parts: Seq<Seq<char>>)
    requires
        parts.len() > 0,
        slash_free(parts),
    ensures
        ({
            let below = counting(parts).len() >= 2 && counting(parts)[0] == "dev"@;
            device_path_fault(path_of(parts)) == if !below {
                Some(VolumeFault::DevicePathNotBelowDev)
            } else if parts.contains(".."@) {
                Some(VolumeFault::DevicePathNotCanonical)
            } else {
                None
            }
        }),
{
    let none = Seq::<char>::empty();
    let all = seq![none] + parts;
    assert forall|k: int, i: int|
        #![trigger all[k][i]]
        0 <= k < all.len() && 0 <= i < all[k].len() implies all[k][i] as int != 0x2f by {
        assert(parts[k - 1][i] as int != 0x2f);
    }
    lemma_pieces_of_path(none, parts);
    assert(none + path_of(parts) =~= path_of(parts));
    assert(path_of(parts)[0] == '/');
    let counts = |part: Seq<char>| part.len() > 0 && part != "."@;
    assert(counting(all) == counting(parts)) by {
        Seq::filter_distributes_over_add(seq![none], parts, counts);
        reveal(Seq::filter);
        assert(seq![none].drop_last() =~= Seq::<Seq<char>>::empty());
        assert(Seq::<Seq<char>>::empty().filter(counts) =~= Seq::<Seq<char>>::empty());
        assert(seq![none].filter(counts) =~= Seq::<Seq<char>>::empty());
        assert(Seq::<Seq<char>>::empty() + parts.filter(counts) =~= parts.filter(counts));
    }
    assert(components(path_of(parts)) == counting(parts));
    reveal_strlit("..");
    reveal_strlit(".");
    assert(".."@.len() == 2);
    assert("."@.len() == 1);
    lemma_filter_keeps(parts, counts, ".."@);
}

proof fn lemma_filter_keeps(s: Seq<Seq<char>>, kept: spec_fn(Seq<char>) -> bool, x: Seq<char>)
    requires
        kept(x),
    ensures
        s.filter(kept).contains(x) <==> s.contains(x),
    decreases s.len(),
{
    reveal(Seq::filter);
    if s.len() > 0 {
        let before = s.drop_last();
        let last = s.last();
        lemma_filter_keeps(before, kept, x);
        let f = before.filter(kept);
        assert(s.filter(kept) == if kept(last) {
            f.push(last)
        } else {
            f
        });
        if s.contains(x) {
            let i = choose|i: int| 0 <= i < s.len() && s[i] == x;
            if i < before.len() {
                assert(before[i] == x);
                let j = choose|j: int| 0 <= j < f.len() && f[j] == x;
                assert(s.filter(kept)[j] == x);
            } else {
                assert(f.push(last)[f.len() as int] == x);
            }
        }
        if s.filter(kept).contains(x) {
            let j = choose|j: int| 0 <= j < s.filter(kept).len() && s.filter(kept)[j] == x;
            if j < f.len() {
                assert(f[j] == x);
                let i = choose|i: int| 0 <= i < before.len() && before[i] == x;
                assert(s[i] == x);
            } else {
                assert(s[s.len() - 1] == x);
            }
        }
    }
}

/// Every absolute path has parts, and a path that is not absolute is not below
/// `/dev`.
pub proof fn law_every_path_is_covered(path: Seq<char>)
    ensures
        path.len() > 0 && path[0] as int == 0x2f ==> exists|parts: Seq<Seq<char>>|
            parts.len() > 0 && slash_free(parts) && path == #[trigger] path_of(parts),
        path.len() == 0 || path[0] as int != 0x2f ==> device_path_fault(path) == Some(
            VolumeFault::DevicePathNotBelowDev,
        ),
    decreases path.len(),
{
    if path.len() > 0 && path[0] as int == 0x2f {
        let d = Delimiter::Slash;
        let rest = path.drop_first();
        lemma_run_length(rest, d);
        let n = run_length(rest, d) as int;
        let first = rest.take(n);
        let later = rest.skip(n);
        assert forall|i: int| 0 <= i < first.len() implies (#[trigger] first[i]) as int != 0x2f by {
            assert(!delimits(d, rest[i]));
            law_classes_by_code(rest[i]);
        }
        if n < rest.len() {
            assert(later[0] == rest[n]);
            law_classes_by_code(rest[n]);
            law_every_path_is_covered(later);
            let parts = choose|parts: Seq<Seq<char>>|
                parts.len() > 0 && slash_free(parts) && later == #[trigger] path_of(parts);
            let all = seq![first] + parts;
            assert(all.drop_first() =~= parts);
            assert forall|k: int, i: int|
                #![trigger all[k][i]]
                0 <= k < all.len() && 0 <= i < all[k].len() implies all[k][i] as int != 0x2f by {
                if k > 0 {
                    assert(parts[k - 1][i] as int != 0x2f);
                } else {
                    assert(first[i] as int != 0x2f);
                }
            }
            assert(path =~= seq!['/'] + first + later);
            assert(path == path_of(all));
        } else {
            let all = seq![first];
            assert(all.drop_first() =~= Seq::<Seq<char>>::empty());
            assert(path_of(all.drop_first()) =~= Seq::<char>::empty());
            assert forall|k: int, i: int|
                #![trigger all[k][i]]
                0 <= k < all.len() && 0 <= i < all[k].len() implies all[k][i] as int != 0x2f by {
                assert(first[i] as int != 0x2f);
            }
            assert(path =~= seq!['/'] + first + Seq::<char>::empty());
            assert(path == path_of(all));
        }
    }
}

/// A device directly below `/dev` is without fault, whatever its name, as long as
/// the name holds no slash and is not made of dots.
pub proof fn law_devices_directly_below_dev(name: Seq<char>)
    requires
        name.len() > 0,
        forall|i: int| 0 <= i < name.len() ==> (#[trigger] name[i]) as int != 0x2f,
        exists|i: int| 0 <= i < name.len() && (#[trigger] name[i]) as int != 0x2e,
    ensures
        device_path_fault("/dev/"@ + name) is None,
{
    let parts = seq!["dev"@, name];
    reveal_strlit("/dev/");
    reveal_strlit("dev");
    reveal_strlit(".");
    reveal_strlit("..");
    let x = choose|i: int| 0 <= i < name.len() && (#[trigger] name[i]) as int != 0x2e;
    if name == "."@ || name == ".."@ {
        assert(name[x] == '.');
    }
    assert("dev"@.len() == 3 && "."@.len() == 1 && ".."@.len() == 2);
    assert forall|k: int, i: int|
        #![trigger parts[k][i]]
        0 <= k < parts.len() && 0 <= i < parts[k].len() implies parts[k][i] as int != 0x2f by {
        if k == 1 {
            assert(name[i] as int != 0x2f);
        }
    }
    assert(parts.drop_first() =~= seq![name]);
    assert(seq![name].drop_first() =~= Seq::<Seq<char>>::empty());
    assert(path_of(Seq::<Seq<char>>::empty()) =~= Seq::<char>::empty());
    assert(path_of(seq![name]) =~= seq!['/'] + name);
    assert(path_of(parts) =~= "/dev/"@ + name);
    let counts = |part: Seq<char>| part.len() > 0 && part != "."@;
    reveal(Seq::filter);
    assert(parts.drop_last() =~= seq!["dev"@]);
    assert(seq!["dev"@].drop_last() =~= Seq::<Seq<char>>::empty());
    assert(Seq::<Seq<char>>::empty().filter(counts) =~= Seq::<Seq<char>>::empty());
    assert(seq!["dev"@].filter(counts) =~= seq!["dev"@]);
    assert(counting(parts) =~= parts);
    law_device_paths(parts);
}

/// A URL is the address of a manifest if and only if its scheme is `kbs`, its
/// path is more than slashes, and it has neither user name nor password nor
/// fragment. If scheme or path is wrong, it names no resource.
pub proof fn law_manifest_urls(parts: UrlText)
    ensures
        ({
            let names_resource = parts.scheme == "kbs"@ && exists|i: int|
                0 <= i < parts.path.len() && (#[trigger] parts.path[i]) as int != 0x2f;
            url_fault(parts) == if !names_resource {
                Some(VolumeFault::NotResourceUri)
            } else if parts.username.len() != 0 || parts.password != None::<Seq<char>>
                || parts.fragment != None::<Seq<char>> {
                Some(VolumeFault::UnsupportedUriComponents)
            } else {
                None
            }
        }),
{
    let t = Trim::Slashes;
    let path = parts.path;
    let (from, to) = law_trim_finds_the_ends(path, t);
    assert(path.subrange(from, to).len() == to - from);
    if from < to {
        law_classes_by_code(path[from]);
        assert(path[from] as int != 0x2f);
    } else {
        assert forall|i: int| 0 <= i < path.len() implies (#[trigger] path[i]) as int == 0x2f by {
            law_classes_by_code(path[i]);
        }
    }
}

/// The parser's outcome for a manifest URI decides: its error is handed on, and
/// otherwise the URL is judged by its parts.
pub proof fn law_manifest_uris(uri: Seq<char>)
    ensures
        parsed_url(uri) matches Err(e) ==> manifest_uri_fault(uri) == Some(
            VolumeFault::InvalidManifestUri(e),
        ),
        parsed_url(uri) matches Ok(parts) ==> manifest_uri_fault(uri) == url_fault(parts),
{
}

/// An address of a manifest, written out.
pub open spec fn manifest_address(uri: Seq<char>) -> bool {
    &&& parsed_url(uri) matches Ok(parts)
    &&& parts.scheme == "kbs"@
    &&& exists|i: int| 0 <= i < parts.path.len() && (#[trigger] parts.path[i]) as int != 0x2f
    &&& parts.username.len() == 0
    &&& parts.password is None
    &&& parts.fragment is None
}

/// A path below `/dev` that never goes up, written out.
pub open spec fn device_below_dev(path: Seq<char>) -> bool {
    exists|parts: Seq<Seq<char>>|
        {
            &&& parts.len() > 0
            &&& slash_free(parts)
            &&& path == #[trigger] path_of(parts)
            &&& counting(parts).len() >= 2
            &&& counting(parts)[0] == "dev"@
            &&& !parts.contains(".."@)
        }
}

/// Name, path and address of an entry are well-formed.
pub open spec fn well_formed_entry(entry: EntryText) -> bool {
    &&& well_formed_name(entry.name)
    &&& device_below_dev(entry.device_path)
    &&& manifest_address(entry.manifest_uri)
}

/// No two entries have the same device path.
pub open spec fn distinct_devices(entries: Seq<EntryText>) -> bool {
    forall|i: int, j: int|
        0 <= i < j < entries.len() ==> (#[trigger] entries[i]).device_path != (
        #[trigger] entries[j]).device_path
}

/// An entry is without a fault of its own if and only if it is well-formed; the
/// fault of another one is that of its name, then of its path, then of its URI.
pub proof fn law_entries(entry: EntryText)
    ensures
        own_fault(entry) is None <==> well_formed_entry(entry),
        !well_formed_name(entry.name) ==> own_fault(entry) == name_fault(entry.name),
        well_formed_name(entry.name) && !device_below_dev(entry.device_path) ==> own_fault(entry)
            == device_path_fault(entry.device_path),
        well_formed_name(entry.name) && device_below_dev(entry.device_path) ==> own_fault(entry)
            == manifest_uri_fault(entry.manifest_uri),
{
    law_names(entry.name);
    law_every_path_is_covered(entry.device_path);
    let path = entry.device_path;
    if device_below_dev(path) {
        let parts = choose|parts: Seq<Seq<char>>|
            {
                &&& parts.len() > 0
                &&& slash_free(parts)
                &&& path == #[trigger] path_of(parts)
                &&& counting(parts).len() >= 2
                &&& counting(parts)[0] == "dev"@
                &&& !parts.contains(".."@)
            };
        law_device_paths(parts);
    } else if path.len() > 0 && path[0] as int == 0x2f {
        let parts = choose|parts: Seq<Seq<char>>|
            parts.len() > 0 && slash_free(parts) && path == #[trigger] path_of(parts);
        law_device_paths(parts);
    }
    law_manifest_uris(entry.manifest_uri);
    if parsed_url(entry.manifest_uri) is Ok {
        law_manifest_urls(parsed_url(entry.manifest_uri)->Ok_0);
    }
}

proof fn lemma_accepted_by_form(entries: Seq<EntryText>)
    ensures
        accepted(entries) <==> {
            &&& forall|i: int| 0 <= i < entries.len() ==> well_formed_entry(#[trigger] entries[i])
            &&& distinct_devices(entries)
        },
{
    if accepted(entries) {
        assert forall|i: int| 0 <= i < entries.len() implies well_formed_entry(
            #[trigger] entries[i],
        ) by {
            assert(entry_fault(entries, i) is None);
            law_entries(entries[i]);
        }
        assert forall|i: int, j: int| 0 <= i < j < entries.len() implies (
        #[trigger] entries[i]).device_path != (#[trigger] entries[j]).device_path by {
            lemma_accepted_paths_differ(entries, i, j);
        }
    }
    if distinct_devices(entries) && forall|i: int|
        0 <= i < entries.len() ==> well_formed_entry(#[trigger] entries[i]) {
        assert forall|i: int| 0 <= i < entries.len() implies (#[trigger] entry_fault(
            entries,
            i,
        )) is None by {
            assert(well_formed_entry(entries[i]));
            law_entries(entries[i]);
            if repeats_device(entries, i) {
                let j = choose|j: int|
                    0 <= j < i && (#[trigger] entries[j]).device_path == entries[i].device_path;
                assert(entries[j].device_path != entries[i].device_path);
            }
        }
    }
}

/// The entries of an annotation give volumes if and only if there is one, all
/// are well-formed and no two have the same device path. Then there is one
/// volume for each, under its device path, with its manifest URI, its device
/// path and the annotation's key.
pub proof fn law_well_formed_entries_give_volumes(
    entries: Seq<EntryText>,
    r: Result<StringHashMap<ConfidentialVolume>, VolumeError>,
)
    requires
        collects(entries, r),
    ensures
        r is Ok <==> {
            &&& entries.len() > 0
            &&& forall|i: int| 0 <= i < entries.len() ==> well_formed_entry(#[trigger] entries[i])
            &&& distinct_devices(entries)
        },
        r matches Ok(volumes) ==> {
            &&& forall|i: int|
                0 <= i < entries.len() ==> volumes@.contains_key(
                    (#[trigger] entries[i]).device_path,
                ) && {
                    let volume = volumes@[entries[i].device_path];
                    &&& volume.annotation_key@ == "io.katacontainers.volume.confidential-ro"@
                    &&& volume.manifest_uri@ == entries[i].manifest_uri
                    &&& volume.device_path@ == entries[i].device_path
                }
            &&& forall|path: Seq<char>| #[trigger]
                volumes@.contains_key(path) ==> exists|i: int|
                    0 <= i < entries.len() && (#[trigger] entries[i]).device_path == path
        },
{
    lemma_accepted_by_form(entries);
    match r {
        Ok(volumes) => {
            lemma_selected_volumes(entries);
            let m = selected_volumes(entries);
            assert(volume_texts(volumes@) == m);
            assert forall|i: int| 0 <= i < entries.len() implies volumes@.contains_key(
                (#[trigger] entries[i]).device_path,
            ) && {
                let volume = volumes@[entries[i].device_path];
                &&& volume.annotation_key@ == "io.katacontainers.volume.confidential-ro"@
                &&& volume.manifest_uri@ == entries[i].manifest_uri
                &&& volume.device_path@ == entries[i].device_path
            } by {
                let path = entries[i].device_path;
                assert(m.contains_key(path));
                assert(volume_texts(volumes@).contains_key(path));
                assert(volume_texts(volumes@)[path] == volumes@[path]@);
                assert(m[path] == selected_volume(entries[i]));
            }
            assert forall|path: Seq<char>| #[trigger]
                volumes@.contains_key(path) implies exists|i: int|
                0 <= i < entries.len() && (#[trigger] entries[i]).device_path == path by {
                assert(volume_texts(volumes@).contains_key(path));
                assert(m.contains_key(path));
            }
        },
        Err(e) => {
            if entries.len() > 0 {
                let i = choose|i: int|
                    {
                        &&& 0 <= i < entries.len()
                        &&& #[trigger] entry_fault(entries, i) == Some(e@)
                        &&& forall|j: int|
                            0 <= j < i ==> (#[trigger] entry_fault(entries, j)) is None
                    };
                assert(!accepted(entries));
            }
        },
    }
}

/// An annotation of one entry with a well-formed name, a device directly below
/// `/dev` and the address of a manifest gives that one volume.
pub proof fn law_one_entry_gives_one_volume(
    name: Seq<char>,
    device: Seq<char>,
    manifest_uri: Seq<char>,
    r: Result<StringHashMap<ConfidentialVolume>, VolumeError>,
)
    requires
        1 <= name.len() <= 63,
        forall|i: int|
            0 <= i < name.len() ==> 0x61 <= (#[trigger] name[i]) as int <= 0x7a || 0x30
                <= name[i] as int <= 0x39,
        device.len() > 0,
        forall|i: int| 0 <= i < device.len() ==> (#[trigger] device[i]) as int != 0x2f,
        exists|i: int| 0 <= i < device.len() && (#[trigger] device[i]) as int != 0x2e,
        manifest_address(manifest_uri),
        collects(seq![EntryText { name, manifest_uri, device_path: "/dev/"@ + device }], r),
    ensures
        r matches Ok(volumes) && {
            &&& volumes@.dom() == set!["/dev/"@ + device]
            &&& volumes@["/dev/"@ + device].manifest_uri@ == manifest_uri
            &&& volumes@["/dev/"@ + device].device_path@ == "/dev/"@ + device
            &&& volumes@["/dev/"@ + device].annotation_key@
                == "io.katacontainers.volume.confidential-ro"@
        },
{
    let path = "/dev/"@ + device;
    let entry = EntryText { name, manifest_uri, device_path: path };
    let entries = seq![entry];
    law_letters_and_digits_are_a_name(name);
    law_devices_directly_below_dev(device);
    law_entries(entry);
    law_names(name);
    law_manifest_urls(parsed_url(manifest_uri)->Ok_0);
    law_manifest_uris(manifest_uri);
    assert(own_fault(entry) is None);
    assert(entries[0] == entry);
    law_well_formed_entries_give_volumes(entries, r);
    assert(r is Ok);
    assert(volumes_at(r).contains_key(entries[0].device_path));
    assert(volumes_at(r).dom() =~= set![path]);
}

spec fn volumes_at(r: Result<StringHashMap<ConfidentialVolume>, VolumeError>) -> Map<
    Seq<char>,
    ConfidentialVolume,
> {
    r->Ok_0@
}

/// A refused annotation is refused for having no entry, or for the first entry
/// that is not well-formed or repeats the device path of an earlier one: the
/// entries before it are well-formed and have device paths of their own.
pub proof fn law_first_faulty_entry_is_reported(entries: Seq<EntryText>, e: VolumeError)
    requires
        collects(entries, Err(e)),
    ensures
        entries.len() == 0 <==> e@ == VolumeFault::NoVolume,
        entries.len() > 0 ==> exists|i: int|
            {
                &&& 0 <= i < entries.len()
                &&& forall|j: int| 0 <= j < i ==> well_formed_entry(#[trigger] entries[j])
                &&& distinct_devices(entries.take(i))
                &&& if !well_formed_entry(#[trigger] entries[i]) {
                    own_fault(entries[i]) == Some(e@)
                } else {
                    &&& e@ == VolumeFault::DuplicateDevice(entries[i].device_path)
                    &&& exists|j: int|
                        0 <= j < i && (#[trigger] entries[j]).device_path == entries[i].device_path
                }
            },
{
    if entries.len() > 0 {
        let i = choose|i: int|
            {
                &&& 0 <= i < entries.len()
                &&& #[trigger] entry_fault(entries, i) == Some(e@)
                &&& forall|j: int| 0 <= j < i ==> (#[trigger] entry_fault(entries, j)) is None
            };
        law_entries(entries[i]);
        lemma_no_entry_lacks_volumes(entries[i]);
        let before = entries.take(i);
        assert forall|j: int| 0 <= j < before.len() implies (#[trigger] entry_fault(
            before,
            j,
        )) is None by {
            assert(entry_fault(entries, j) is None);
            if repeats_device(before, j) {
                let k = choose|k: int|
                    0 <= k < j && (#[trigger] before[k]).device_path == before[j].device_path;
                assert(entries[k].device_path == entries[j].device_path);
                assert(repeats_device(entries, j));
            }
        }
        lemma_accepted_by_form(before);
        assert forall|j: int| 0 <= j < i implies well_formed_entry(#[trigger] entries[j]) by {
            assert(well_formed_entry(before[j]));
        }
        assert(entries[i] == entries[i]);
    }
}

proof fn lemma_no_entry_lacks_volumes(entry: EntryText)
    ensures
        own_fault(entry) != Some(VolumeFault::NoVolume),
{
}

/// Without the annotation there is no volume; with it, and the feature disabled,
/// the annotation is refused; what the decoder refuses is refused with its
/// message; and what it accepts gives what its entries give.
pub proof fn law_annotations<F: Fn(&str) -> Result<Vec<(String, AnnotationValue)>, String>>(
    annotations: Map<Seq<char>, String>,
    feature_enabled: bool,
    decode: F,
    r: Result<StringHashMap<ConfidentialVolume>, VolumeError>,
)
    requires
        parses(annotations, feature_enabled, decode, r),
    ensures
        ({
            let key = "io.katacontainers.volume.confidential-ro"@;
            &&& !annotations.contains_key(key) ==> (r matches Ok(volumes)
                && volumes@.dom() == Set::<Seq<char>>::empty())
            &&& annotations.contains_key(key) && !feature_enabled ==> (r matches Err(e)
                && e is FeatureDisabled)
            &&& annotations.contains_key(key) && feature_enabled ==> exists|
                raw: &str,
                decoded: Result<Vec<(String, AnnotationValue)>, String>,
            |
                {
                    &&& raw@ == annotations[key]@
                    &&& #[trigger] decode.ensures((raw,), decoded)
                    &&& decoded matches Ok(entries) ==> collects(entry_texts(entries@), r)
                    &&& decoded matches Err(message) ==> (r matches Err(
                        VolumeError::InvalidAnnotation(told),
                    ) && told@ == message@)
                }
        }),
{
    let key = KATA_ANNO_CONFIDENTIAL_VOLUME@;
    if !annotations.contains_key(key) {
        assert(r->Ok_0@.dom() =~= Set::<Seq<char>>::empty());
    } else if feature_enabled {
        let (raw, decoded) = choose|
            raw: &str,
            decoded: Result<Vec<(String, AnnotationValue)>, String>,
        |
            {
                &&& raw@ == annotations[KATA_ANNO_CONFIDENTIAL_VOLUME@]@
                &&& #[trigger] decode.ensures((raw,), decoded)
                &&& match decoded {
                    Ok(entries) => collects(entry_texts(entries@), r),
                    Err(message) => r matches Err(e) && e@ == VolumeFault::InvalidAnnotation(
                        message@,
                    ),
                }
            };
        assert(decode.ensures((raw,), decoded));
    }
}

/// The texts of an entry and of a volume are those of their own parts.
pub proof fn law_texts_of_entries_and_volumes(
    entries: Seq<(String, AnnotationValue)>,
    i: int,
    volume: ConfidentialVolume,
)
    requires
        0 <= i < entries.len(),
    ensures
        entry_texts(entries).len() == entries.len(),
        entry_texts(entries)[i].name == entries[i].0@,
        entry_texts(entries)[i].manifest_uri == entries[i].1.manifest_uri@,
        entry_texts(entries)[i].device_path == entries[i].1.device_path@,
        volume@.annotation_key == volume.annotation_key@,
        volume@.manifest_uri == volume.manifest_uri@,
        volume@.device_path == volume.device_path@,
{
}

/// The text of a URL is that of its own parts.
pub proof fn law_texts_of_urls(parts: UrlParts)
    ensures
        parts@.scheme == parts.scheme@,
        parts@.path == parts.path@,
        parts@.username == parts.username@,
        parts.password is None <==> parts@.password is None,
        parts.password matches Some(password) ==> parts@.password == Some(password@),
        parts.fragment is None <==> parts@.fragment is None,
        parts.fragment matches Some(fragment) ==> parts@.fragment == Some(fragment@),
{
}

/// The fault that an error stands for is the one of its own kind, with its own
/// text.
pub proof fn law_errors_name_their_faults(e: VolumeError)
    ensures
        e is FeatureDisabled <==> e@ is FeatureDisabled,
        e is NoVolume <==> e@ is NoVolume,
        e is NameLength <==> e@ is NameLength,
        e is NameCharacters <==> e@ is NameCharacters,
        e is NameEnds <==> e@ is NameEnds,
        e is DevicePathNotBelowDev <==> e@ is DevicePathNotBelowDev,
        e is DevicePathNotCanonical <==> e@ is DevicePathNotCanonical,
        e is NotResourceUri <==> e@ is NotResourceUri,
        e is UnsupportedUriComponents <==> e@ is UnsupportedUriComponents,
        e matches VolumeError::InvalidAnnotation(m) ==> e@ == VolumeFault::InvalidAnnotation(m@),
        e matches VolumeError::InvalidManifestUri(x) ==> e@ == VolumeFault::InvalidManifestUri(x),
        e matches VolumeError::DuplicateDevice(p) ==> e@ == VolumeFault::DuplicateDevice(p@),
{
}

/// A check gives no error if and only if there is no fault, and otherwise the
/// error of that fault.
pub proof fn law_checks_report_the_fault(r: Result<(), VolumeError>, fault: Option<VolumeFault>)
    requires
        reports(r, fault),
    ensures
        r is Ok <==> fault is None,
        r matches Err(e) ==> fault == Some(e@),
{
}

} // verus!
