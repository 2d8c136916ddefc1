//! dm-verity root hashes: which ones are admitted, the ordered set that holds
//! them, and how they are read from the kernel command line.

use crate::text::{
    blank_code, delimits, hex_code, hex_digit, is_hex_digit, law_classes_by_code,
    law_lowercase_by_code, law_trim_finds_the_ends, law_trim_takes_off_the_ends, lemma_run_length,
    lemma_run_length_unique, lowercase, lowers_to, reads, run_end, run_length, same_chars,
    split_whitespace, texts, to_chars, to_lowercase, to_text, tokens, trim, trim_chars, trims,
    Delimiter, Trim,
};
use vstd::prelude::*;
use vstd::slice::slice_subrange;

verus! {

/// A digest algorithm and a digest in hexadecimal.
pub type VerityRootHash = (String, String);

/// The text of a [`VerityRootHash`].
pub type RootHashText = (Seq<char>, Seq<char>);

/// The text of a root hash.
pub open spec fn hash_text(hash: VerityRootHash) -> RootHashText {
    (hash.0@, hash.1@)
}

// ---------------------------------------------------------------------------
// Admission
// ---------------------------------------------------------------------------

/// A whole number of bytes, at least one, in hexadecimal.
pub open spec fn hex_digest(s: Seq<char>) -> bool {
    &&& s.len() > 0
    &&& s.len() % 2 == 0
    &&& forall|i: int| 0 <= i < s.len() ==> is_hex_digit(#[trigger] s[i])
}

/// The digest algorithms that an execution policy may name.
pub open spec fn supported_algorithm(s: Seq<char>) -> bool {
    ||| s == "blake2b-512"@
    ||| s == "blake2s-256"@
    ||| s == "sha256"@
    ||| s == "sha384"@
    ||| s == "sha512"@
    ||| s == "sha3-224"@
    ||| s == "sha3-256"@
    ||| s == "sha3-384"@
    ||| s == "sha3-512"@
    ||| s == "sm3"@
    ||| s == "rmd160"@
}

/// A root hash that an execution policy may list.
pub open spec fn valid_hash(hash: RootHashText) -> bool {
    supported_algorithm(hash.0) && hex_digest(hash.1)
}

/// What an algorithm and a digest as written stand for: both in lower case,
/// the digest without the quotes and commas around it. Nothing, if that is not
/// a valid root hash.
pub open spec fn admitted(algorithm: Seq<char>, digest: Seq<char>) -> Option<RootHashText> {
    let hash = (lowercase(algorithm), lowercase(trim(digest, Trim::QuotesAndCommas)));
    if valid_hash(hash) {
        Some(hash)
    } else {
        None
    }
}

fn chars_hex_digest(value: &[char]) -> (r: bool)
    ensures
        r == hex_digest(value@),
{
    if value.len() == 0 || value.len() % 2 != 0 {
        return false;
    }
    let mut i: usize = 0;
    while i < value.len()
        invariant
            i <= value@.len(),
            forall|j: int| 0 <= j < i ==> is_hex_digit(#[trigger] value@[j]),
        decreases value@.len() - i,
    {
        if !hex_digit(value[i]) {
            return false;
        }
        i += 1;
    }
    true
}

/// Whether `value` is a whole number of bytes, at least one, in hexadecimal.
pub fn is_hex_digest(value: &str) -> (r: bool)
    ensures
        r == hex_digest(value@),
{
    let value: Vec<char> = to_chars(value);
    chars_hex_digest(value.as_slice())
}

fn chars_supported_algorithm(value: &[char]) -> (r: bool)
    ensures
        r == supported_algorithm(value@),
{
    reads(value, "blake2b-512") || reads(value, "blake2s-256") || reads(value, "sha256") || reads(
        value,
        "sha384",
    ) || reads(value, "sha512") || reads(value, "sha3-224") || reads(value, "sha3-256") || reads(
        value,
        "sha3-384",
    ) || reads(value, "sha3-512") || reads(value, "sm3") || reads(value, "rmd160")
}

/// Whether an execution policy may name the digest algorithm `value`.
pub fn is_supported_digest_algorithm(value: &str) -> (r: bool)
    ensures
        r == supported_algorithm(value@),
{
    let value: Vec<char> = to_chars(value);
    chars_supported_algorithm(value.as_slice())
}

// ---------------------------------------------------------------------------
// Order
// ---------------------------------------------------------------------------

/// Lexicographic order of texts by code point, a proper prefix first.
pub open spec fn text_less(a: Seq<char>, b: Seq<char>) -> bool
    decreases a.len(),
{
    if b.len() == 0 {
        false
    } else if a.len() == 0 {
        true
    } else if a[0] != b[0] {
        a[0] < b[0]
    } else {
        text_less(a.drop_first(), b.drop_first())
    }
}

/// Order of root hashes: by algorithm, then by digest.
pub open spec fn hash_less(a: RootHashText, b: RootHashText) -> bool {
    text_less(a.0, b.0) || (a.0 == b.0 && text_less(a.1, b.1))
}

/// Strictly ascending: in order, and nothing twice.
pub open spec fn ascending(s: Seq<RootHashText>) -> bool {
    forall|i: int, j: int| 0 <= i < j < s.len() ==> hash_less(#[trigger] s[i], #[trigger] s[j])
}

proof fn lemma_text_order_total(a: Seq<char>, b: Seq<char>)
    ensures
        a == b || text_less(a, b) || text_less(b, a),
        !(text_less(a, b) && text_less(b, a)),
        a == b ==> !text_less(a, b),
    decreases a.len(),
{
    if a.len() > 0 && b.len() > 0 && a[0] == b[0] {
        lemma_text_order_total(a.drop_first(), b.drop_first());
        if a.drop_first() == b.drop_first() {
            assert(a =~= seq![a[0]] + a.drop_first());
            assert(b =~= seq![b[0]] + b.drop_first());
        }
    } else if a.len() == 0 && b.len() == 0 {
        assert(a =~= b);
    }
}

proof fn lemma_text_order_transitive(a: Seq<char>, b: Seq<char>, c: Seq<char>)
    requires
        text_less(a, b),
        text_less(b, c),
    ensures
        text_less(a, c),
    decreases a.len(),
{
    if a.len() > 0 && a[0] == b[0] && b[0] == c[0] {
        lemma_text_order_transitive(a.drop_first(), b.drop_first(), c.drop_first());
    }
}

proof fn lemma_hash_order(a: RootHashText, b: RootHashText)
    ensures
        a == b || hash_less(a, b) || hash_less(b, a),
        !(hash_less(a, b) && hash_less(b, a)),
        a == b ==> !hash_less(a, b),
{
    lemma_text_order_total(a.0, b.0);
    lemma_text_order_total(a.1, b.1);
}

proof fn lemma_hash_order_transitive(a: RootHashText, b: RootHashText, c: RootHashText)
    requires
        hash_less(a, b),
        hash_less(b, c),
    ensures
        hash_less(a, c),
{
    if text_less(a.0, b.0) && text_less(b.0, c.0) {
        lemma_text_order_transitive(a.0, b.0, c.0);
    }
    if text_less(a.1, b.1) && text_less(b.1, c.1) {
        lemma_text_order_transitive(a.1, b.1, c.1);
    }
}

/// How one text stands to another.
enum Position {
    Before,
    Same,
    After,
}

fn locate_text(a: &str, b: &str) -> (r: Position)
    ensures
        match r {
            Position::Before => text_less(a@, b@),
            Position::Same => a@ == b@,
            Position::After => text_less(b@, a@),
        },
{
    let x: Vec<char> = to_chars(a);
    let y: Vec<char> = to_chars(b);
    let mut i: usize = 0;
    assert(x@.skip(0) =~= x@);
    assert(y@.skip(0) =~= y@);
    while i < x.len() && i < y.len()
        invariant
            x@ == a@,
            y@ == b@,
            i <= x@.len(),
            i <= y@.len(),
            text_less(x@, y@) == text_less(x@.skip(i as int), y@.skip(i as int)),
            text_less(y@, x@) == text_less(y@.skip(i as int), x@.skip(i as int)),
            forall|j: int| 0 <= j < i ==> x@[j] == y@[j],
        decreases x@.len() - i,
    {
        assert(x@.skip(i as int)[0] == x@[i as int]);
        assert(y@.skip(i as int)[0] == y@[i as int]);
        if x[i] < y[i] {
            return Position::Before;
        }
        if y[i] < x[i] {
            return Position::After;
        }
        assert(x@.skip(i as int).drop_first() =~= x@.skip(i + 1));
        assert(y@.skip(i as int).drop_first() =~= y@.skip(i + 1));
        i += 1;
    }
    if i < y.len() {
        Position::Before
    } else if i < x.len() {
        Position::After
    } else {
        assert(x@ =~= y@);
        Position::Same
    }
}

fn locate_hash(a: &VerityRootHash, b: &VerityRootHash) -> (r: Position)
    ensures
        match r {
            Position::Before => hash_less(hash_text(*a), hash_text(*b)),
            Position::Same => hash_text(*a) == hash_text(*b),
            Position::After => hash_less(hash_text(*b), hash_text(*a)),
        },
{
    match locate_text(a.0.as_str(), b.0.as_str()) {
        Position::Before => Position::Before,
        Position::After => Position::After,
        Position::Same => locate_text(a.1.as_str(), b.1.as_str()),
    }
}

// ---------------------------------------------------------------------------
// The set
// ---------------------------------------------------------------------------

/// A set of root hashes, kept in ascending order.
pub struct RootHashSet {
    entries: Vec<VerityRootHash>,
}

impl View for RootHashSet {
    type V = Set<RootHashText>;

    open spec fn view(&self) -> Set<RootHashText> {
        self.listing().to_set()
    }
}

impl RootHashSet {
    /// The elements in the order in which they are kept.
    pub closed spec fn listing(&self) -> Seq<RootHashText> {
        self.entries@.map_values(|h: VerityRootHash| hash_text(h))
    }

    /// The elements are kept in ascending order, none of them twice.
    pub open spec fn wf(&self) -> bool {
        ascending(self.listing())
    }

    /// The empty set.
    pub fn new() -> (r: Self)
        ensures
            r.wf(),
            r.listing() == Seq::<RootHashText>::empty(),
            r@ == Set::<RootHashText>::empty(),
    {
        let r = RootHashSet { entries: Vec::new() };
        assert(r.listing() =~= Seq::<RootHashText>::empty());
        assert(r@ =~= Set::<RootHashText>::empty());
        r
    }

    /// Where `hash` is, or where it belongs.
    fn find(&self, hash: &VerityRootHash) -> (r: (usize, bool))
        requires
            self.wf(),
        ensures
            r.0 <= self.listing().len(),
            forall|j: int| 0 <= j < r.0 ==> hash_less(#[trigger] self.listing()[j], hash_text(*hash)),
            r.1 ==> r.0 < self.listing().len() && self.listing()[r.0 as int] == hash_text(*hash),
            !r.1 ==> forall|j: int|
                r.0 <= j < self.listing().len() ==> hash_less(
                    hash_text(*hash),
                    #[trigger] self.listing()[j],
                ),
            r.1 == self@.contains(hash_text(*hash)),
    {
        let ghost h = hash_text(*hash);
        let ghost listing = self.listing();
        let mut i: usize = 0;
        while i < self.entries.len()
            invariant
                self.wf(),
                listing == self.listing(),
                h == hash_text(*hash),
                i <= listing.len(),
                listing.len() == self.entries@.len(),
                forall|j: int| 0 <= j < i ==> hash_less(#[trigger] listing[j], h),
            decreases listing.len() - i,
        {
            assert(listing[i as int] == hash_text(self.entries@[i as int]));
            match locate_hash(&self.entries[i], hash) {
                Position::Before => {
                    i += 1;
                },
                Position::Same => {
                    assert(listing.contains(h));
                    return (i, true);
                },
                Position::After => {
                    proof {
                        assert forall|j: int| i <= j < listing.len() implies hash_less(
                            h,
                            #[trigger] listing[j],
                        ) by {
                            if j > i {
                                lemma_hash_order_transitive(h, listing[i as int], listing[j]);
                            }
                        }
                        lemma_absent(listing, h, i as int);
                    }
                    return (i, false);
                },
            }
        }
        proof {
            lemma_absent(listing, h, i as int);
        }
        (i, false)
    }

    /// Adds `hash`; tells whether it is new.
    pub fn insert(&mut self, hash: VerityRootHash) -> (added: bool)
        requires
            old(self).wf(),
        ensures
            final(self).wf(),
            final(self)@ == old(self)@.insert(hash_text(hash)),
            added == !old(self)@.contains(hash_text(hash)),
    {
        let ghost before = self.listing();
        let ghost h = hash_text(hash);
        let (at, present) = self.find(&hash);
        if present {
            assert(before.to_set().insert(h) =~= before.to_set());
            return false;
        }
        self.entries.insert(at, hash);
        proof {
            let after = self.listing();
            assert(after =~= before.insert(at as int, h));
            assert(after.to_set() =~= before.to_set().insert(h)) by {
                assert forall|x: RootHashText| after.contains(x) <==> (before.contains(x) || x == h) by {
                    if before.contains(x) {
                        let j = choose|j: int| 0 <= j < before.len() && before[j] == x;
                        if j < at {
                            assert(after[j] == x);
                        } else {
                            assert(after[j + 1] == x);
                        }
                    }
                    assert(after[at as int] == h);
                    if after.contains(x) {
                        let j = choose|j: int| 0 <= j < after.len() && after[j] == x;
                        if j < at {
                            assert(before[j] == x);
                        } else if j > at {
                            assert(before[j - 1] == x);
                        }
                    }
                }
            }
            assert forall|i: int, j: int| 0 <= i < j < after.len() implies hash_less(
                #[trigger] after[i],
                #[trigger] after[j],
            ) by {
                if i < at && j < at {
                    assert(hash_less(before[i], before[j]));
                } else if i < at && j == at {
                    assert(hash_less(before[i], h));
                } else if i < at {
                    assert(hash_less(before[i], before[j - 1]));
                } else if i == at {
                    assert(hash_less(h, before[j - 1]));
                } else {
                    assert(hash_less(before[i - 1], before[j - 1]));
                }
            }
        }
        true
    }

    /// Whether `hash` is an element.
    pub fn contains(&self, hash: &VerityRootHash) -> (r: bool)
        requires
            self.wf(),
        ensures
            r == self@.contains(hash_text(*hash)),
    {
        self.find(hash).1
    }

    /// The number of elements.
    pub fn len(&self) -> (n: usize)
        requires
            self.wf(),
        ensures
            n == self@.len(),
            n == self.listing().len(),
    {
        proof {
            let listing = self.listing();
            lemma_ascending_is_distinct(listing);
            listing.unique_seq_to_set();
        }
        self.entries.len()
    }

    /// Whether there is no element.
    pub fn is_empty(&self) -> (r: bool)
        ensures
            r == (self.listing().len() == 0),
            r == (self@ == Set::<RootHashText>::empty()),
    {
        proof {
            if self.listing().len() > 0 {
                assert(self@.contains(self.listing()[0]));
            } else {
                assert(self@ =~= Set::<RootHashText>::empty());
            }
        }
        self.entries.len() == 0
    }

    /// The element at position `i` of the ascending order.
    pub fn get(&self, i: usize) -> (r: &VerityRootHash)
        requires
            i < self.listing().len(),
        ensures
            hash_text(*r) == self.listing()[i as int],
    {
        &self.entries[i]
    }
}

pub proof fn lemma_ascending_is_distinct(listing: Seq<RootHashText>)
    requires
        ascending(listing),
    ensures
        listing.no_duplicates(),
{
    assert forall|i: int, j: int|
        0 <= i < listing.len() && 0 <= j < listing.len() && i != j implies listing[i]
        != listing[j] by {
        lemma_hash_order(listing[i], listing[j]);
        if i < j {
            assert(hash_less(listing[i], listing[j]));
        } else {
            assert(hash_less(listing[j], listing[i]));
        }
    }
}

proof fn lemma_absent(listing: Seq<RootHashText>, h: RootHashText, at: int)
    requires
        0 <= at <= listing.len(),
        forall|j: int| 0 <= j < at ==> hash_less(#[trigger] listing[j], h),
        forall|j: int| at <= j < listing.len() ==> hash_less(h, #[trigger] listing[j]),
    ensures
        !listing.to_set().contains(h),
{
    if listing.contains(h) {
        let j = choose|j: int| 0 <= j < listing.len() && listing[j] == h;
        lemma_hash_order(h, h);
        assert(hash_less(listing[j], h) || hash_less(h, listing[j]));
    }
}

// ---------------------------------------------------------------------------
// The kernel command line
// ---------------------------------------------------------------------------

/// Whether `s` holds `word` at position `i`.
pub open spec fn occurs_at(s: Seq<char>, word: Seq<char>, i: int) -> bool {
    0 <= i && i + word.len() <= s.len() && s.subrange(i, i + word.len()) == word
}

/// The characters of `s` from position `i` up to the next comma, double quote
/// or whitespace.
pub open spec fn value_at(s: Seq<char>, i: int) -> Seq<char> {
    s.skip(i).take(run_length(s.skip(i), Delimiter::Value) as int)
}

/// `hash` is the value of a `root_hash=` that starts before position `end`.
pub open spec fn parameter_hash(cmdline: Seq<char>, end: int, hash: RootHashText) -> bool {
    exists|i: int|
        i < end && #[trigger] occurs_at(cmdline, "root_hash="@, i) && admitted(
            "sha256"@,
            value_at(cmdline, i + "root_hash="@.len()),
        ) == Some(hash)
}

/// Whether a dm-verity target starts at word `k` and reaches as far as its
/// root hash. After the word `verity`, in quotes or not, come: version, data
/// device, hash device, data block size, hash block size, number of data
/// blocks, hash start block, algorithm, root hash.
pub open spec fn verity_target(words: Seq<Seq<char>>, k: int) -> bool {
    0 <= k && k + 9 < words.len() && trim(words[k], Trim::Quotes) == "verity"@
}

/// `hash` is the root hash of a dm-verity target that starts before word `end`.
pub open spec fn target_hash(words: Seq<Seq<char>>, end: int, hash: RootHashText) -> bool {
    exists|k: int|
        k < end && #[trigger] verity_target(words, k) && admitted(words[k + 8], words[k + 9])
            == Some(hash)
}

/// The root hashes that a kernel command line names: the values of its
/// `root_hash=` parameters, as SHA-256, and the root hashes of its dm-verity
/// targets.
pub open spec fn cmdline_hashes(cmdline: Seq<char>) -> Set<RootHashText> {
    Set::new(
        |hash: RootHashText|
            parameter_hash(cmdline, cmdline.len() as int, hash) || target_hash(
                tokens(cmdline),
                tokens(cmdline).len() as int,
                hash,
            ),
    )
}

fn add_hash_chars(hashes: &mut RootHashSet, algorithm: &[char], digest: &[char])
    requires
        old(hashes).wf(),
    ensures
        final(hashes).wf(),
        final(hashes)@ == match admitted(algorithm@, digest@) {
            Some(hash) => old(hashes)@.insert(hash),
            None => old(hashes)@,
        },
{
    let algorithm: Vec<char> = to_lowercase(algorithm);
    let digest: Vec<char> = to_lowercase(trim_chars(digest, Trim::QuotesAndCommas));
    if chars_supported_algorithm(algorithm.as_slice()) && chars_hex_digest(digest.as_slice()) {
        let hash: VerityRootHash = (to_text(algorithm.as_slice()), to_text(digest.as_slice()));
        hashes.insert(hash);
    }
}

/// Adds the root hash that `algorithm` and `digest` stand for, if any.
pub fn add_hash(hashes: &mut RootHashSet, algorithm: &str, digest: &str)
    requires
        old(hashes).wf(),
    ensures
        final(hashes).wf(),
        final(hashes)@ == match admitted(algorithm@, digest@) {
            Some(hash) => old(hashes)@.insert(hash),
            None => old(hashes)@,
        },
{
    let algorithm: Vec<char> = to_chars(algorithm);
    let digest: Vec<char> = to_chars(digest);
    add_hash_chars(hashes, algorithm.as_slice(), digest.as_slice());
}

/// The root hashes that a kernel command line names: that of the root file
/// system in `dm-mod.create`, and those of extensions in `root_hash=`.
pub fn hashes_from_kernel_cmdline(cmdline: &str) -> (hashes: RootHashSet)
    ensures
        hashes.wf(),
        hashes@ == cmdline_hashes(cmdline@),
{
    let mut hashes: RootHashSet = RootHashSet::new();
    let chars: Vec<char> = to_chars(cmdline);
    let line: &[char] = chars.as_slice();
    let sha256: Vec<char> = to_chars("sha256");
    let parameter: Vec<char> = to_chars("root_hash=");
    let ghost c = cmdline@;
    let ghost p = "root_hash="@;

    let mut i: usize = 0;
    while i < line.len()
        invariant
            line@ == c,
            c == cmdline@,
            p == "root_hash="@,
            parameter@ == p,
            sha256@ == "sha256"@,
            i <= c.len(),
            hashes.wf(),
            forall|h: RootHashText| #[trigger]
                hashes@.contains(h) <==> parameter_hash(c, i as int, h),
        decreases c.len() - i,
    {
        let ghost before = hashes@;
        let mut found: bool = false;
        if parameter.len() <= line.len() - i {
            let at: &[char] = slice_subrange(line, i, i + parameter.len());
            found = same_chars(at, parameter.as_slice());
            assert(at@ == c.subrange(i as int, i + p.len()));
        }
        assert(found == occurs_at(c, p, i as int));
        if found {
            let from: usize = i + parameter.len();
            let end: usize = run_end(line, from, Delimiter::Value);
            let value: &[char] = slice_subrange(line, from, end);
            assert(value@ =~= value_at(c, i + p.len()));
            add_hash_chars(&mut hashes, sha256.as_slice(), value);
        }
        proof {
            assert forall|h: RootHashText| #[trigger]
                hashes@.contains(h) <==> parameter_hash(c, i + 1, h) by {
                if parameter_hash(c, i as int, h) {
                    let j = choose|j: int|
                        j < i && #[trigger] occurs_at(c, p, j) && admitted(
                            "sha256"@,
                            value_at(c, j + p.len()),
                        ) == Some(h);
                    assert(occurs_at(c, p, j));
                }
                if parameter_hash(c, i + 1, h) && !parameter_hash(c, i as int, h) {
                    assert(found);
                }
                if hashes@.contains(h) && !before.contains(h) {
                    assert(occurs_at(c, p, i as int));
                }
            }
        }
        i += 1;
    }

    let words: Vec<&[char]> = split_whitespace(line);
    let ghost ws = tokens(c);
    assert forall|h: RootHashText| #[trigger]
        hashes@.contains(h) <==> parameter_hash(c, c.len() as int, h) || target_hash(ws, 0, h) by {
        if target_hash(ws, 0, h) {
            let k = choose|k: int| k < 0 && #[trigger] verity_target(ws, k);
            assert(false);
        }
    }
    let mut k: usize = 0;
    while k < words.len()
        invariant
            c == cmdline@,
            ws == tokens(c),
            texts(words@) == ws,
            k <= words@.len(),
            hashes.wf(),
            forall|h: RootHashText| #[trigger]
                hashes@.contains(h) <==> parameter_hash(c, c.len() as int, h) || target_hash(
                    ws,
                    k as int,
                    h,
                ),
        decreases words@.len() - k,
    {
        let ghost before = hashes@;
        assert(ws.len() == words@.len());
        assert(forall|j: int| 0 <= j < ws.len() ==> #[trigger] ws[j] == words@[j]@);
        let target: bool = reads(trim_chars(words[k], Trim::Quotes), "verity") && words.len() - k
            > 9;
        assert(target == verity_target(ws, k as int));
        if target {
            add_hash_chars(&mut hashes, words[k + 8], words[k + 9]);
        }
        proof {
            assert forall|h: RootHashText| #[trigger]
                hashes@.contains(h) <==> parameter_hash(c, c.len() as int, h) || target_hash(
                ws,
                k + 1,
                h,
            ) by {
                if target_hash(ws, k as int, h) {
                    let j = choose|j: int|
                        j < k && #[trigger] verity_target(ws, j) && admitted(ws[j + 8], ws[j + 9])
                            == Some(h);
                    assert(verity_target(ws, j));
                }
                if target_hash(ws, k + 1, h) && !target_hash(ws, k as int, h) {
                    assert(target);
                }
                if hashes@.contains(h) && !before.contains(h) {
                    assert(verity_target(ws, k as int));
                }
            }
        }
        k += 1;
    }
    assert(hashes@ =~= cmdline_hashes(c));
    hashes
}

// ---------------------------------------------------------------------------
// Laws
// ---------------------------------------------------------------------------

/// The order in which a set is listed is determined by its elements: two
/// ascending listings of the same elements are the same listing.
pub proof fn law_listing_is_determined_by_elements(a: Seq<RootHashText>, b: Seq<RootHashText>)
    requires
        ascending(a),
        ascending(b),
        a.to_set() == b.to_set(),
    ensures
        a == b,
    decreases a.len(),
{
    if a.len() == 0 {
        if b.len() > 0 {
            assert(b.to_set().contains(b[0]));
            assert(a.contains(b[0]));
        }
        assert(a =~= b);
    } else {
        assert(a.to_set().contains(a.last()));
        assert(b.contains(a.last()));
        assert(b.to_set().contains(b.last()));
        assert(a.contains(b.last()));
        let i = choose|i: int| 0 <= i < a.len() && a[i] == b.last();
        let j = choose|j: int| 0 <= j < b.len() && b[j] == a.last();
        lemma_hash_order(a.last(), b.last());
        assert(a.last() == b.last()) by {
            if i < a.len() - 1 {
                assert(hash_less(a[i], a[a.len() - 1]));
                if j < b.len() - 1 {
                    assert(hash_less(b[j], b[b.len() - 1]));
                }
            }
        }
        let x = a.drop_last();
        let y = b.drop_last();
        assert(x.to_set() =~= y.to_set()) by {
            assert forall|h: RootHashText| x.contains(h) <==> y.contains(h) by {
                lemma_hash_order(h, a.last());
                if x.contains(h) {
                    let k = choose|k: int| 0 <= k < x.len() && x[k] == h;
                    assert(hash_less(a[k], a[a.len() - 1]));
                    assert(a.to_set().contains(a[k]));
                    assert(b.contains(h));
                    let m = choose|m: int| 0 <= m < b.len() && b[m] == h;
                    assert(y[m] == h);
                }
                if y.contains(h) {
                    let k = choose|k: int| 0 <= k < y.len() && y[k] == h;
                    assert(hash_less(b[k], b[b.len() - 1]));
                    assert(b.to_set().contains(b[k]));
                    assert(a.contains(h));
                    let m = choose|m: int| 0 <= m < a.len() && a[m] == h;
                    assert(x[m] == h);
                }
            }
        }
        law_listing_is_determined_by_elements(x, y);
        assert(a =~= x.push(a.last()));
        assert(b =~= y.push(b.last()));
    }
}

/// Every root hash that is read from a command line is one that a policy may
/// list.
pub proof fn law_cmdline_hashes_are_valid(cmdline: Seq<char>, hash: RootHashText)
    requires
        cmdline_hashes(cmdline).contains(hash),
    ensures
        valid_hash(hash),
{
}

/// An admitted root hash is in lower case, however it was written.
pub proof fn law_admitted_hashes_are_lowercase(
    algorithm: Seq<char>,
    digest: Seq<char>,
    hash: RootHashText,
)
    requires
        admitted(algorithm, digest) == Some(hash),
    ensures
        lowercase(hash.0) == hash.0,
        lowercase(hash.1) == hash.1,
{
    assert(lowercase(hash.0) =~= hash.0);
    assert(lowercase(hash.1) =~= hash.1);
}

/// One of the digest algorithms that the kernel's execution policies know.
pub open spec fn listed_algorithm(a: Seq<char>) -> bool {
    ||| a == "sha256"@
    ||| a == "sha384"@
    ||| a == "sha512"@
    ||| a == "sha3-224"@
    ||| a == "sha3-256"@
    ||| a == "sha3-384"@
    ||| a == "sha3-512"@
    ||| a == "blake2b-512"@
    ||| a == "blake2s-256"@
    ||| a == "sm3"@
    ||| a == "rmd160"@
}

/// Pairs of hexadecimal digits, at least one, by code.
pub open spec fn whole_bytes(d: Seq<char>) -> bool {
    &&& d.len() >= 2
    &&& exists|n: nat| d.len() == #[trigger] (2 * n)
    &&& forall|i: int| 0 <= i < d.len() ==> hex_code(#[trigger] d[i])
}

/// A root hash is valid if its algorithm is listed and its digest is a whole
/// number of bytes.
pub proof fn law_validity(hash: RootHashText)
    ensures
        hex_digest(hash.1) <==> whole_bytes(hash.1),
        supported_algorithm(hash.0) <==> listed_algorithm(hash.0),
        supported_algorithm(hash.0) <==> hash.0 == "sha256"@ || hash.0 == "sha384"@ || hash.0
            == "sha512"@ || hash.0 == "sha3-224"@ || hash.0 == "sha3-256"@ || hash.0 == "sha3-384"@
            || hash.0 == "sha3-512"@ || hash.0 == "blake2b-512"@ || hash.0 == "blake2s-256"@
            || hash.0 == "sm3"@ || hash.0 == "rmd160"@,
        valid_hash(hash) <==> listed_algorithm(hash.0) && whole_bytes(hash.1),
{
    let d = hash.1;
    if hex_digest(d) {
        let n = d.len() / 2;
        assert(d.len() == 2 * n);
        assert forall|i: int| 0 <= i < d.len() implies hex_code(#[trigger] d[i]) by {
            assert(is_hex_digit(d[i]));
            law_classes_by_code(d[i]);
        }
    }
    if whole_bytes(d) {
        assert forall|i: int| 0 <= i < d.len() implies is_hex_digit(#[trigger] d[i]) by {
            assert(hex_code(d[i]));
            law_classes_by_code(d[i]);
        }
    }
}

/// A quote of either kind or a comma, by code.
pub open spec fn wrapping_code(c: char) -> bool {
    c as int == 0x22 || c as int == 0x27 || c as int == 0x2c
}

/// `text` is `core` with wrapping characters around it, and `core` neither
/// starts nor ends with one.
pub open spec fn wraps(text: Seq<char>, from: int, to: int) -> bool {
    &&& 0 <= from < to <= text.len()
    &&& forall|i: int| 0 <= i < from ==> wrapping_code(#[trigger] text[i])
    &&& forall|i: int| to <= i < text.len() ==> wrapping_code(#[trigger] text[i])
    &&& !wrapping_code(text[from])
    &&& !wrapping_code(text[to - 1])
}

/// An algorithm and a digest as written stand for this root hash: it is listed
/// and whole, and is what was written in lower case, the digest without what is
/// wrapped around it.
pub open spec fn stands_for(
    algorithm: Seq<char>,
    digest: Seq<char>,
    hash: RootHashText,
) -> bool {
    &&& listed_algorithm(hash.0)
    &&& whole_bytes(hash.1)
    &&& lowers_to(algorithm, hash.0)
    &&& exists|from: int, to: int| #[trigger]
        wraps(digest, from, to) && lowers_to(digest.subrange(from, to), hash.1)
}

/// Exactly what stands for a root hash is admitted, as that root hash.
pub proof fn law_admission(algorithm: Seq<char>, digest: Seq<char>, hash: RootHashText)
    ensures
        admitted(algorithm, digest) == Some(hash) <==> stands_for(algorithm, digest, hash),
{
    law_validity(hash);
    law_lowercase_by_code(algorithm, hash.0);
    let t = Trim::QuotesAndCommas;
    if admitted(algorithm, digest) == Some(hash) {
        let (from, to) = law_trim_finds_the_ends(digest, t);
        law_lowercase_by_code(digest.subrange(from, to), hash.1);
        assert(digest.subrange(from, to).len() == to - from);
        assert(hash.1.len() == to - from);
        assert forall|i: int| 0 <= i < from implies wrapping_code(#[trigger] digest[i]) by {
            law_classes_by_code(digest[i]);
        }
        assert forall|i: int| to <= i < digest.len() implies wrapping_code(#[trigger] digest[i]) by {
            law_classes_by_code(digest[i]);
        }
        law_classes_by_code(digest[from]);
        law_classes_by_code(digest[to - 1]);
        assert(wraps(digest, from, to));
    }
    if stands_for(algorithm, digest, hash) {
        let (from, to) = choose|from: int, to: int| #[trigger]
            wraps(digest, from, to) && lowers_to(digest.subrange(from, to), hash.1);
        let p = digest.subrange(0, from);
        let m = digest.subrange(from, to);
        let q = digest.subrange(to, digest.len() as int);
        assert forall|i: int| 0 <= i < p.len() implies trims(t, #[trigger] p[i]) by {
            assert(wrapping_code(digest[i]));
            law_classes_by_code(p[i]);
        }
        assert forall|i: int| 0 <= i < q.len() implies trims(t, #[trigger] q[i]) by {
            assert(wrapping_code(digest[to + i]));
            law_classes_by_code(q[i]);
        }
        assert(m[0] == digest[from]);
        assert(m.last() == digest[to - 1]);
        law_classes_by_code(m[0]);
        law_classes_by_code(m.last());
        law_trim_takes_off_the_ends(p, m, q, t);
        assert(p + m + q =~= digest);
        law_lowercase_by_code(m, hash.1);
    }
}

/// What ends the value of a parameter, by code: a comma, a double quote or
/// whitespace.
pub open spec fn ending_code(c: char) -> bool {
    c as int == 0x2c || c as int == 0x22 || blank_code(c)
}

/// A `root_hash=` at `at` has this root hash as its value, which reaches to
/// `to`.
pub open spec fn parameter_names(
    cmdline: Seq<char>,
    at: int,
    to: int,
    hash: RootHashText,
) -> bool {
    &&& 0 <= at
    &&& at + 10 <= to <= cmdline.len()
    &&& cmdline.subrange(at, at + 10) == "root_hash="@
    &&& forall|i: int| at + 10 <= i < to ==> !ending_code(#[trigger] cmdline[i])
    &&& to < cmdline.len() ==> ending_code(cmdline[to])
    &&& stands_for("sha256"@, cmdline.subrange(at + 10, to), hash)
}

/// The word `verity`, with or without double quotes around it.
pub open spec fn reads_verity(word: Seq<char>) -> bool {
    exists|from: int|
        {
            &&& 0 <= from <= word.len() - 6
            &&& #[trigger] word.subrange(from, from + 6) == "verity"@
            &&& forall|i: int| 0 <= i < from ==> #[trigger] word[i] as int == 0x22
            &&& forall|i: int| from + 6 <= i < word.len() ==> #[trigger] word[i] as int == 0x22
        }
}

/// The target that starts at word `k` has this root hash: its eighth and ninth
/// word are algorithm and root hash.
pub open spec fn target_names(words: Seq<Seq<char>>, k: int, hash: RootHashText) -> bool {
    &&& 0 <= k
    &&& k + 9 < words.len()
    &&& reads_verity(words[k])
    &&& stands_for(words[k + 8], words[k + 9], hash)
}

proof fn lemma_reads_verity(word: Seq<char>)
    ensures
        trim(word, Trim::Quotes) == "verity"@ <==> reads_verity(word),
{
    let t = Trim::Quotes;
    let v = "verity"@;
    reveal_strlit("verity");
    assert(v.len() == 6 && v[0] == 'v' && v[5] == 'y');
    if trim(word, t) == v {
        let (from, to) = law_trim_finds_the_ends(word, t);
        assert(word.subrange(from, to).len() == to - from);
        assert forall|i: int| 0 <= i < from implies #[trigger] word[i] as int == 0x22 by {
            law_classes_by_code(word[i]);
        }
        assert forall|i: int| to <= i < word.len() implies #[trigger] word[i] as int == 0x22 by {
            law_classes_by_code(word[i]);
        }
        assert(to == from + 6);
        assert(word.subrange(from, from + 6) == v);
    }
    if reads_verity(word) {
        let from = choose|from: int|
            {
                &&& 0 <= from <= word.len() - 6
                &&& #[trigger] word.subrange(from, from + 6) == v
                &&& forall|i: int| 0 <= i < from ==> #[trigger] word[i] as int == 0x22
                &&& forall|i: int| from + 6 <= i < word.len() ==> #[trigger] word[i] as int == 0x22
            };
        let p = word.subrange(0, from);
        let q = word.subrange(from + 6, word.len() as int);
        assert forall|i: int| 0 <= i < p.len() implies trims(t, #[trigger] p[i]) by {
            assert(word[i] as int == 0x22);
            law_classes_by_code(p[i]);
        }
        assert forall|i: int| 0 <= i < q.len() implies trims(t, #[trigger] q[i]) by {
            assert(word[from + 6 + i] as int == 0x22);
            law_classes_by_code(q[i]);
        }
        law_trim_takes_off_the_ends(p, v, q, t);
        assert(p + v + q =~= word) by {
            assert(word =~= p + word.subrange(from, from + 6) + q);
        }
    }
}

proof fn lemma_value_at(s: Seq<char>, from: int, to: int)
    requires
        0 <= from <= to <= s.len(),
        forall|i: int| from <= i < to ==> !ending_code(#[trigger] s[i]),
        to < s.len() ==> ending_code(s[to]),
    ensures
        value_at(s, from) == s.subrange(from, to),
{
    let rest = s.skip(from);
    let n = (to - from) as nat;
    assert forall|i: int| 0 <= i < n implies !delimits(Delimiter::Value, #[trigger] rest[i]) by {
        assert(rest[i] == s[from + i]);
        assert(!ending_code(s[from + i]));
        law_classes_by_code(rest[i]);
    }
    if n < rest.len() {
        assert(rest[n as int] == s[to]);
        law_classes_by_code(s[to]);
    }
    lemma_run_length_unique(rest, Delimiter::Value, n);
    assert(rest.take(n as int) =~= s.subrange(from, to));
}

/// A command line names a root hash if and only if a `root_hash=` has it as its
/// value or a target has it as its root hash.
pub proof fn law_cmdline_names(cmdline: Seq<char>, hash: RootHashText)
    ensures
        cmdline_hashes(cmdline).contains(hash) <==> {
            ||| exists|at: int, to: int| #[trigger] parameter_names(cmdline, at, to, hash)
            ||| exists|k: int| #[trigger] target_names(tokens(cmdline), k, hash)
        },
{
    let word = "root_hash="@;
    reveal_strlit("root_hash=");
    assert(word.len() == 10);
    let words = tokens(cmdline);
    if parameter_hash(cmdline, cmdline.len() as int, hash) {
        let at = choose|i: int|
            i < cmdline.len() && #[trigger] occurs_at(cmdline, word, i) && admitted(
                "sha256"@,
                value_at(cmdline, i + word.len()),
            ) == Some(hash);
        let rest = cmdline.skip(at + 10);
        lemma_run_length(rest, Delimiter::Value);
        let n = run_length(rest, Delimiter::Value);
        let to = at + 10 + n;
        assert forall|i: int| at + 10 <= i < to implies !ending_code(#[trigger] cmdline[i]) by {
            assert(rest[i - at - 10] == cmdline[i]);
            assert(!delimits(Delimiter::Value, rest[i - at - 10]));
            law_classes_by_code(cmdline[i]);
        }
        if to < cmdline.len() {
            assert(rest[n as int] == cmdline[to]);
            law_classes_by_code(cmdline[to]);
        }
        lemma_value_at(cmdline, at + 10, to);
        law_admission("sha256"@, cmdline.subrange(at + 10, to), hash);
        assert(parameter_names(cmdline, at, to, hash));
    }
    if exists|at: int, to: int| #[trigger] parameter_names(cmdline, at, to, hash) {
        let (at, to) = choose|at: int, to: int| #[trigger] parameter_names(cmdline, at, to, hash);
        lemma_value_at(cmdline, at + 10, to);
        law_admission("sha256"@, cmdline.subrange(at + 10, to), hash);
        assert(occurs_at(cmdline, word, at));
        assert(parameter_hash(cmdline, cmdline.len() as int, hash));
    }
    if target_hash(words, words.len() as int, hash) {
        let k = choose|k: int|
            k < words.len() && #[trigger] verity_target(words, k) && admitted(
                words[k + 8],
                words[k + 9],
            ) == Some(hash);
        lemma_reads_verity(words[k]);
        law_admission(words[k + 8], words[k + 9], hash);
        assert(target_names(words, k, hash));
    }
    if exists|k: int| #[trigger] target_names(words, k, hash) {
        let k = choose|k: int| #[trigger] target_names(words, k, hash);
        lemma_reads_verity(words[k]);
        law_admission(words[k + 8], words[k + 9], hash);
        assert(verity_target(words, k));
        assert(target_hash(words, words.len() as int, hash));
    }
}

/// The root hash of a target is its ninth word after `verity`, for the algorithm
/// that is its eighth: written in lower case, the two are among the root hashes.
pub proof fn law_target_root_hash_is_its_ninth_word(cmdline: Seq<char>, k: int)
    requires
        0 <= k,
        k + 9 < tokens(cmdline).len(),
        tokens(cmdline)[k] == "verity"@,
        listed_algorithm(tokens(cmdline)[k + 8]),
        whole_bytes(tokens(cmdline)[k + 9]),
        forall|i: int|
            0 <= i < tokens(cmdline)[k + 9].len() ==> !(0x41 <= (
            #[trigger] tokens(cmdline)[k + 9][i]) as int <= 0x46),
    ensures
        cmdline_hashes(cmdline).contains((tokens(cmdline)[k + 8], tokens(cmdline)[k + 9])),
{
    let words = tokens(cmdline);
    let a = words[k + 8];
    let d = words[k + 9];
    let v = words[k];
    reveal_strlit("verity");
    assert(v.subrange(0int, 0int + 6) =~= v);
    assert(reads_verity(v));
    assert(lowers_to(a, a)) by {
        reveal_strlit("blake2b-512");
        reveal_strlit("blake2s-256");
        reveal_strlit("sha256");
        reveal_strlit("sha384");
        reveal_strlit("sha512");
        reveal_strlit("sha3-224");
        reveal_strlit("sha3-256");
        reveal_strlit("sha3-384");
        reveal_strlit("sha3-512");
        reveal_strlit("sm3");
        reveal_strlit("rmd160");
    }
    let n = d.len() as int;
    assert(hex_code(d[0]) && hex_code(d[n - 1]));
    assert(wraps(d, 0, n));
    assert(d.subrange(0, n) =~= d);
    assert(lowers_to(d, d)) by {
        assert forall|i: int| 0 <= i < d.len() implies !(0x41 <= (#[trigger] d[i]) as int <= 0x5a) by {
            assert(hex_code(d[i]));
        }
    }
    assert(stands_for(a, d, (a, d)));
    assert(target_names(words, k, (a, d)));
    law_cmdline_names(cmdline, (a, d));
}

/// No `root_hash=` stands in the command line.
pub open spec fn without_parameters(cmdline: Seq<char>) -> bool {
    forall|i: int|
        0 <= i <= cmdline.len() - 10 ==> #[trigger] cmdline.subrange(i, i + 10) != "root_hash="@
}

/// What stands after the root hash of a target, such as its salt, does not
/// count, nor does what stands between `verity` and the algorithm: two command
/// lines without parameters whose only target starts at the same word give the
/// same root hashes, if algorithm and root hash are the same.
pub proof fn law_only_algorithm_and_root_hash_count(x: Seq<char>, y: Seq<char>, k: int)
    requires
        without_parameters(x),
        without_parameters(y),
        0 <= k,
        k + 9 < tokens(x).len(),
        k + 9 < tokens(y).len(),
        forall|j: int| 0 <= j < tokens(x).len() ==> (reads_verity(#[trigger] tokens(x)[j]) <==> j == k),
        forall|j: int| 0 <= j < tokens(y).len() ==> (reads_verity(#[trigger] tokens(y)[j]) <==> j == k),
        tokens(x)[k + 8] == tokens(y)[k + 8],
        tokens(x)[k + 9] == tokens(y)[k + 9],
    ensures
        cmdline_hashes(x) == cmdline_hashes(y),
{
    assert forall|hash: RootHashText| #[trigger]
        cmdline_hashes(x).contains(hash) <==> cmdline_hashes(y).contains(hash) by {
        law_cmdline_names(x, hash);
        law_cmdline_names(y, hash);
        assert(reads_verity(tokens(x)[k]) && reads_verity(tokens(y)[k]));
        assert(target_names(tokens(x), k, hash) <==> target_names(tokens(y), k, hash));
        if cmdline_hashes(x).contains(hash) {
            lemma_named_by_the_target(x, k, hash);
        }
        if cmdline_hashes(y).contains(hash) {
            lemma_named_by_the_target(y, k, hash);
        }
    }
    assert(cmdline_hashes(x) =~= cmdline_hashes(y));
}

proof fn lemma_named_by_the_target(cmdline: Seq<char>, k: int, hash: RootHashText)
    requires
        without_parameters(cmdline),
        forall|j: int|
            0 <= j < tokens(cmdline).len() ==> (reads_verity(#[trigger] tokens(cmdline)[j]) <==> j == k),
        cmdline_hashes(cmdline).contains(hash),
    ensures
        target_names(tokens(cmdline), k, hash),
{
    law_cmdline_names(cmdline, hash);
    if exists|at: int, to: int| #[trigger] parameter_names(cmdline, at, to, hash) {
        let (at, to) = choose|at: int, to: int| #[trigger] parameter_names(cmdline, at, to, hash);
        assert(cmdline.subrange(at, at + 10) != "root_hash="@);
    }
    let j = choose|j: int| #[trigger] target_names(tokens(cmdline), j, hash);
    assert(reads_verity(tokens(cmdline)[j]));
}

/// The first difference decides, by code, and a text comes before what goes on
/// from it.
pub open spec fn earlier(a: Seq<char>, b: Seq<char>) -> bool {
    exists|i: int|
        {
            &&& 0 <= i < b.len()
            &&& i <= a.len()
            &&& #[trigger] a.take(i) == b.take(i)
            &&& i < a.len() ==> (a[i] as int) < b[i] as int
        }
}

proof fn lemma_earlier(a: Seq<char>, b: Seq<char>)
    ensures
        text_less(a, b) <==> earlier(a, b),
    decreases a.len(),
{
    if a.len() > 0 && b.len() > 0 && a[0] == b[0] {
        let x = a.drop_first();
        let y = b.drop_first();
        lemma_earlier(x, y);
        if earlier(x, y) {
            let i = choose|i: int|
                {
                    &&& 0 <= i < y.len()
                    &&& i <= x.len()
                    &&& #[trigger] x.take(i) == y.take(i)
                    &&& i < x.len() ==> (x[i] as int) < y[i] as int
                };
            assert(a.take(i + 1) =~= seq![a[0]] + x.take(i));
            assert(b.take(i + 1) =~= seq![b[0]] + y.take(i));
            assert(a.take(i + 1) == b.take(i + 1));
        }
        if earlier(a, b) {
            let i = choose|i: int|
                {
                    &&& 0 <= i < b.len()
                    &&& i <= a.len()
                    &&& #[trigger] a.take(i) == b.take(i)
                    &&& i < a.len() ==> (a[i] as int) < b[i] as int
                };
            assert(i > 0);
            assert(x.take(i - 1) =~= a.take(i).drop_first());
            assert(y.take(i - 1) =~= b.take(i).drop_first());
            assert(x.take(i - 1) == y.take(i - 1));
        }
    } else if b.len() > 0 {
        if text_less(a, b) {
            assert(a.take(0) =~= b.take(0));
        }
        if earlier(a, b) && a.len() > 0 {
            let i = choose|i: int|
                {
                    &&& 0 <= i < b.len()
                    &&& i <= a.len()
                    &&& #[trigger] a.take(i) == b.take(i)
                    &&& i < a.len() ==> (a[i] as int) < b[i] as int
                };
            if i > 0 {
                assert(a.take(i)[0] == b.take(i)[0]);
            }
        }
    }
}

/// A listing is ascending if and only if each entry comes before the next: by
/// algorithm, and for the same algorithm by digest.
pub proof fn law_ascending_by_code(s: Seq<RootHashText>)
    ensures
        ascending(s) <==> forall|i: int|
            #![trigger s[i]]
            0 <= i < s.len() - 1 ==> earlier(s[i].0, s[i + 1].0) || (s[i].0 == s[i + 1].0
                && earlier(s[i].1, s[i + 1].1)),
{
    assert forall|i: int| #![trigger s[i]] 0 <= i < s.len() - 1 implies (hash_less(s[i], s[i + 1])
        <==> earlier(s[i].0, s[i + 1].0) || (s[i].0 == s[i + 1].0 && earlier(s[i].1, s[i + 1].1))) by {
        lemma_earlier(s[i].0, s[i + 1].0);
        lemma_earlier(s[i].1, s[i + 1].1);
    }
    if forall|i: int| #![trigger s[i]] 0 <= i < s.len() - 1 ==> hash_less(s[i], s[i + 1]) {
        assert forall|i: int, j: int| 0 <= i < j < s.len() implies hash_less(
            #[trigger] s[i],
            #[trigger] s[j],
        ) by {
            lemma_chain(s, i, j);
        }
    }
}

proof fn lemma_chain(s: Seq<RootHashText>, i: int, j: int)
    requires
        0 <= i < j < s.len(),
        forall|i: int| #![trigger s[i]] 0 <= i < s.len() - 1 ==> hash_less(s[i], s[i + 1]),
    ensures
        hash_less(s[i], s[j]),
    decreases j - i,
{
    assert(hash_less(s[j - 1], s[j - 1 + 1]));
    if i < j - 1 {
        lemma_chain(s, i, j - 1);
        lemma_hash_order_transitive(s[i], s[j - 1], s[j]);
    }
}

/// The text of a root hash is that of its two parts, and a set holds what it
/// lists.
pub proof fn law_set_holds_what_it_lists(set: &RootHashSet, hash: VerityRootHash)
    ensures
        hash_text(hash).0 == hash.0@,
        hash_text(hash).1 == hash.1@,
        set@.contains(hash_text(hash)) <==> exists|i: int|
            0 <= i < set.listing().len() && #[trigger] set.listing()[i] == (hash.0@, hash.1@),
{
    if set@.contains(hash_text(hash)) {
        assert(set.listing().contains(hash_text(hash)));
    }
    if exists|i: int|
        0 <= i < set.listing().len() && #[trigger] set.listing()[i] == (hash.0@, hash.1@) {
        assert(set.listing().contains(hash_text(hash)));
    }
}

} // verus!
