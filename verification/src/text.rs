//! Text as sequences of characters: the primitives that the parsers and the
//! renderers of this crate are built from.

use vstd::prelude::*;
use vstd::slice::slice_subrange;

verus! {

/// `String::push` appends exactly the given character to the end of the string.
pub assume_specification[ String::push ](s: &mut String, c: char)
    ensures
        final(s)@ == old(s)@.push(c),
;

// ---------------------------------------------------------------------------
// Character classes
// ---------------------------------------------------------------------------

/// Space, tab, line feed, form feed or carriage return.
pub open spec fn is_ascii_whitespace(c: char) -> bool {
    c == ' ' || c == '\t' || c == '\n' || c == '\x0C' || c == '\r'
}

/// `0-9`, `a-f` or `A-F`.
pub open spec fn is_hex_digit(c: char) -> bool {
    ('0' <= c && c <= '9') || ('a' <= c && c <= 'f') || ('A' <= c && c <= 'F')
}

/// The character with `A-Z` mapped to `a-z`; every other character is itself.
pub open spec fn ascii_lower(c: char) -> char {
    if 'A' <= c && c <= 'Z' {
        (c as u32 + 32) as char
    } else {
        c
    }
}

/// `ascii_lower` of every character.
pub open spec fn lowercase(s: Seq<char>) -> Seq<char> {
    Seq::new(s.len(), |i: int| ascii_lower(s[i]))
}

pub(crate) fn ascii_whitespace(c: char) -> (r: bool)
    ensures
        r == is_ascii_whitespace(c),
{
    c == ' ' || c == '\t' || c == '\n' || c == '\x0C' || c == '\r'
}

pub(crate) fn hex_digit(c: char) -> (r: bool)
    ensures
        r == is_hex_digit(c),
{
    ('0' <= c && c <= '9') || ('a' <= c && c <= 'f') || ('A' <= c && c <= 'F')
}

pub(crate) fn lower_char(c: char) -> (r: char)
    ensures
        r == ascii_lower(c),
{
    if 'A' <= c && c <= 'Z' {
        (c as u8 + 32) as char
    } else {
        c
    }
}

/// The characters of `s`.
pub(crate) fn to_chars(s: &str) -> (r: Vec<char>)
    ensures
        r@ == s@,
{
    let mut r: Vec<char> = Vec::new();
    for c in it: s.chars()
        invariant
            r@ == s@.take(it.index()),
            it.seq() == s@,
    {
        r.push(c);
        assert(s@.take(it.index() + 1) =~= s@.take(it.index()).push(c));
    }
    assert(s@.take(s@.len() as int) =~= s@);
    r
}

/// The string made of `chars`.
pub(crate) fn to_text(chars: &[char]) -> (r: String)
    ensures
        r@ == chars@,
{
    let mut r: String = String::new();
    let mut i: usize = 0;
    while i < chars.len()
        invariant
            i <= chars@.len(),
            r@ == chars@.take(i as int),
        decreases chars@.len() - i,
    {
        r.push(chars[i]);
        assert(chars@.take(i + 1) =~= chars@.take(i as int).push(chars@[i as int]));
        i += 1;
    }
    assert(chars@.take(chars@.len() as int) =~= chars@);
    r
}

// ---------------------------------------------------------------------------
// Splitting
// ---------------------------------------------------------------------------

/// What ends a run of characters.
#[derive(Clone, Copy)]
pub enum Delimiter {
    /// ASCII whitespace.
    Whitespace,
    /// A line feed.
    LineFeed,
    /// The separator of path components.
    Slash,
    /// What ends a value in a comma-separated parameter: a comma, a double
    /// quote or ASCII whitespace.
    Value,
}

/// Whether `c` is such a delimiter.
pub open spec fn delimits(d: Delimiter, c: char) -> bool {
    match d {
        Delimiter::Whitespace => is_ascii_whitespace(c),
        Delimiter::LineFeed => c == '\n',
        Delimiter::Slash => c == '/',
        Delimiter::Value => c == ',' || c == '"' || is_ascii_whitespace(c),
    }
}

/// How many characters of `s` stand before its first delimiter.
pub open spec fn run_length(s: Seq<char>, d: Delimiter) -> nat
    decreases s.len(),
{
    if s.len() == 0 || delimits(d, s[0]) {
        0
    } else {
        1 + run_length(s.drop_first(), d)
    }
}

/// The maximal runs of non-whitespace characters of `s`, in order.
pub open spec fn tokens(s: Seq<char>) -> Seq<Seq<char>>
    decreases s.len(),
{
    if s.len() == 0 {
        seq![]
    } else if is_ascii_whitespace(s[0]) {
        tokens(s.drop_first())
    } else {
        let n = run_length(s, Delimiter::Whitespace) as int;
        proof {
            lemma_run_length(s, Delimiter::Whitespace);
        }
        seq![s.take(n)] + tokens(s.skip(n))
    }
}

/// The pieces of `s` between delimiters, empty pieces included. What follows
/// the last delimiter is a piece only if it is not empty.
pub open spec fn pieces(s: Seq<char>, d: Delimiter) -> Seq<Seq<char>>
    decreases s.len(),
{
    if s.len() == 0 {
        seq![]
    } else {
        let n = run_length(s, d) as int;
        if n < s.len() {
            seq![s.take(n)] + pieces(s.skip(n + 1), d)
        } else {
            seq![s]
        }
    }
}

/// The lines of `s`.
pub open spec fn lines(s: Seq<char>) -> Seq<Seq<char>> {
    pieces(s, Delimiter::LineFeed)
}

/// The contents of borrowed character slices.
pub open spec fn texts(v: Seq<&[char]>) -> Seq<Seq<char>> {
    v.map_values(|w: &[char]| w@)
}

pub proof fn lemma_run_length(s: Seq<char>, d: Delimiter)
    ensures
        run_length(s, d) <= s.len(),
        run_length(s, d) < s.len() ==> delimits(d, s[run_length(s, d) as int]),
        forall|i: int| 0 <= i < run_length(s, d) ==> !delimits(d, #[trigger] s[i]),
    decreases s.len(),
{
    if s.len() != 0 && !delimits(d, s[0]) {
        lemma_run_length(s.drop_first(), d);
        let n = run_length(s, d);
        assert forall|i: int| 0 <= i < n implies !delimits(d, #[trigger] s[i]) by {
            if i > 0 {
                assert(s[i] == s.drop_first()[i - 1]);
            }
        }
    }
}

/// The run length is the only length with these properties.
pub proof fn lemma_run_length_unique(s: Seq<char>, d: Delimiter, n: nat)
    requires
        n <= s.len(),
        n < s.len() ==> delimits(d, s[n as int]),
        forall|i: int| 0 <= i < n ==> !delimits(d, #[trigger] s[i]),
    ensures
        run_length(s, d) == n,
{
    lemma_run_length(s, d);
    let m = run_length(s, d);
    if m < n {
        assert(!delimits(d, s[m as int]));
    } else if n < m {
        assert(!delimits(d, s[n as int]));
    }
}

pub(crate) fn is_delimiter(d: Delimiter, c: char) -> (r: bool)
    ensures
        r == delimits(d, c),
{
    match d {
        Delimiter::Whitespace => ascii_whitespace(c),
        Delimiter::LineFeed => c == '\n',
        Delimiter::Slash => c == '/',
        Delimiter::Value => c == ',' || c == '"' || ascii_whitespace(c),
    }
}

/// The end of the run that starts at `from`.
pub(crate) fn run_end(s: &[char], from: usize, d: Delimiter) -> (end: usize)
    requires
        from <= s@.len(),
    ensures
        end == from + run_length(s@.skip(from as int), d),
        from <= end <= s@.len(),
{
    let mut end: usize = from;
    while end < s.len() && !is_delimiter(d, s[end])
        invariant
            from <= end <= s@.len(),
            forall|i: int| 0 <= i < end - from ==> !delimits(d, #[trigger] s@.skip(from as int)[i]),
        decreases s@.len() - end,
    {
        end += 1;
    }
    proof {
        lemma_run_length_unique(s@.skip(from as int), d, (end - from) as nat);
    }
    end
}

/// The words of `s`, split at ASCII whitespace.
pub(crate) fn split_whitespace<'a>(s: &'a [char]) -> (r: Vec<&'a [char]>)
    ensures
        texts(r@) == tokens(s@),
{
    let mut r: Vec<&'a [char]> = Vec::new();
    let mut i: usize = 0;
    assert(s@.skip(0) =~= s@);
    assert(texts(r@) + tokens(s@) =~= tokens(s@));
    while i < s.len()
        invariant
            i <= s@.len(),
            texts(r@) + tokens(s@.skip(i as int)) == tokens(s@),
        decreases s@.len() - i,
    {
        let ghost rest = s@.skip(i as int);
        if ascii_whitespace(s[i]) {
            assert(rest.drop_first() =~= s@.skip(i + 1));
            i += 1;
        } else {
            let end: usize = run_end(s, i, Delimiter::Whitespace);
            proof {
                lemma_run_length(rest, Delimiter::Whitespace);
                assert(rest[0] == s@[i as int]);
            }
            let word: &'a [char] = slice_subrange(s, i, end);
            let ghost before = texts(r@);
            r.push(word);
            proof {
                let n = (end - i) as int;
                assert(rest.take(n) =~= word@);
                assert(rest.skip(n) =~= s@.skip(end as int));
                assert(texts(r@) =~= before.push(word@));
                assert(before + (seq![word@] + tokens(s@.skip(end as int))) =~= texts(r@) + tokens(
                    s@.skip(end as int),
                ));
            }
            i = end;
        }
    }
    assert(tokens(s@.skip(i as int)) =~= seq![]);
    assert(texts(r@) =~= tokens(s@));
    r
}

/// The pieces of `s` between delimiters.
pub(crate) fn split_pieces<'a>(s: &'a [char], d: Delimiter) -> (r: Vec<&'a [char]>)
    ensures
        texts(r@) == pieces(s@, d),
{
    let mut r: Vec<&'a [char]> = Vec::new();
    let mut i: usize = 0;
    assert(s@.skip(0) =~= s@);
    assert(texts(r@) + pieces(s@, d) =~= pieces(s@, d));
    while i < s.len()
        invariant
            i <= s@.len(),
            texts(r@) + pieces(s@.skip(i as int), d) == pieces(s@, d),
        decreases s@.len() - i,
    {
        let ghost rest = s@.skip(i as int);
        let end: usize = run_end(s, i, d);
        let piece: &'a [char] = slice_subrange(s, i, end);
        let ghost before = texts(r@);
        r.push(piece);
        assert(texts(r@) =~= before.push(piece@));
        assert(rest.take(end - i) =~= piece@);
        if end < s.len() {
            proof {
                assert(rest.skip(end - i + 1) =~= s@.skip(end + 1));
                assert(before + (seq![piece@] + pieces(s@.skip(end + 1), d)) =~= texts(r@) + pieces(
                    s@.skip(end + 1),
                    d,
                ));
            }
            i = end + 1;
        } else {
            proof {
                assert(piece@ =~= rest);
                assert(before + seq![rest] =~= texts(r@) + pieces(s@.skip(end as int), d));
            }
            i = end;
        }
    }
    assert(pieces(s@.skip(i as int), d) =~= seq![]);
    assert(texts(r@) =~= pieces(s@, d));
    r
}

/// Whether the two are the same text.
pub(crate) fn same_chars(a: &[char], b: &[char]) -> (r: bool)
    ensures
        r == (a@ == b@),
{
    if a.len() != b.len() {
        return false;
    }
    let mut i: usize = 0;
    while i < a.len()
        invariant
            i <= a@.len(),
            a@.len() == b@.len(),
            forall|j: int| 0 <= j < i ==> a@[j] == b@[j],
        decreases a@.len() - i,
    {
        if a[i] != b[i] {
            return false;
        }
        i += 1;
    }
    assert(a@ =~= b@);
    true
}

/// Whether `a` reads `b`.
pub(crate) fn reads(a: &[char], b: &str) -> (r: bool)
    ensures
        r == (a@ == b@),
{
    let b: Vec<char> = to_chars(b);
    same_chars(a, b.as_slice())
}

/// Whether the two strings are the same text.
pub(crate) fn same_text(a: &str, b: &str) -> (r: bool)
    ensures
        r == (a@ == b@),
{
    let a: Vec<char> = to_chars(a);
    reads(a.as_slice(), b)
}

// ---------------------------------------------------------------------------
// Trimming
// ---------------------------------------------------------------------------

/// What trimming takes off the ends of a text.
#[derive(Clone, Copy)]
pub enum Trim {
    /// Double quotes.
    Quotes,
    /// Double quotes, single quotes and commas.
    QuotesAndCommas,
    /// Colons.
    Colons,
    /// Slashes.
    Slashes,
}

/// Whether trimming takes off `c`.
pub open spec fn trims(t: Trim, c: char) -> bool {
    match t {
        Trim::Quotes => c == '"',
        Trim::QuotesAndCommas => c == '"' || c == '\'' || c == ',',
        Trim::Colons => c == ':',
        Trim::Slashes => c == '/',
    }
}

/// `s` without the characters that `t` takes off its start.
pub open spec fn trim_start(s: Seq<char>, t: Trim) -> Seq<char>
    decreases s.len(),
{
    if s.len() > 0 && trims(t, s[0]) {
        trim_start(s.drop_first(), t)
    } else {
        s
    }
}

/// `s` without the characters that `t` takes off its end.
pub open spec fn trim_end(s: Seq<char>, t: Trim) -> Seq<char>
    decreases s.len(),
{
    if s.len() > 0 && trims(t, s.last()) {
        trim_end(s.drop_last(), t)
    } else {
        s
    }
}

/// `s` without the characters that `t` takes off either end.
pub open spec fn trim(s: Seq<char>, t: Trim) -> Seq<char> {
    trim_end(trim_start(s, t), t)
}

pub(crate) fn is_trimmed(t: Trim, c: char) -> (r: bool)
    ensures
        r == trims(t, c),
{
    match t {
        Trim::Quotes => c == '"',
        Trim::QuotesAndCommas => c == '"' || c == '\'' || c == ',',
        Trim::Colons => c == ':',
        Trim::Slashes => c == '/',
    }
}

pub(crate) fn trim_chars_start<'a>(s: &'a [char], t: Trim) -> (r: &'a [char])
    ensures
        r@ == trim_start(s@, t),
{
    let mut i: usize = 0;
    assert(s@.skip(0) =~= s@);
    while i < s.len() && is_trimmed(t, s[i])
        invariant
            i <= s@.len(),
            trim_start(s@.skip(i as int), t) == trim_start(s@, t),
        decreases s@.len() - i,
    {
        assert(s@.skip(i as int)[0] == s@[i as int]);
        assert(s@.skip(i as int).drop_first() =~= s@.skip(i + 1));
        i += 1;
    }
    assert(i < s@.len() ==> s@.skip(i as int)[0] == s@[i as int]);
    assert(s@.subrange(i as int, s@.len() as int) =~= s@.skip(i as int));
    slice_subrange(s, i, s.len())
}

pub(crate) fn trim_chars_end<'a>(s: &'a [char], t: Trim) -> (r: &'a [char])
    ensures
        r@ == trim_end(s@, t),
{
    let mut n: usize = s.len();
    assert(s@.take(n as int) =~= s@);
    while n > 0 && is_trimmed(t, s[n - 1])
        invariant
            n <= s@.len(),
            trim_end(s@.take(n as int), t) == trim_end(s@, t),
        decreases n,
    {
        assert(s@.take(n as int).last() == s@[n - 1]);
        assert(s@.take(n as int).drop_last() =~= s@.take(n - 1));
        n -= 1;
    }
    assert(n > 0 ==> s@.take(n as int).last() == s@[n - 1]);
    assert(s@.subrange(0, n as int) =~= s@.take(n as int));
    slice_subrange(s, 0, n)
}

pub(crate) fn trim_chars<'a>(s: &'a [char], t: Trim) -> (r: &'a [char])
    ensures
        r@ == trim(s@, t),
{
    trim_chars_end(trim_chars_start(s, t), t)
}

/// The text with `A-Z` in lower case.
pub(crate) fn to_lowercase(s: &[char]) -> (r: Vec<char>)
    ensures
        r@ == lowercase(s@),
{
    let mut r: Vec<char> = Vec::new();
    let mut i: usize = 0;
    while i < s.len()
        invariant
            i <= s@.len(),
            r@ == lowercase(s@).take(i as int),
        decreases s@.len() - i,
    {
        r.push(lower_char(s[i]));
        assert(lowercase(s@).take(i + 1) =~= lowercase(s@).take(i as int).push(
            ascii_lower(s@[i as int]),
        ));
        i += 1;
    }
    assert(lowercase(s@).take(i as int) =~= lowercase(s@));
    r
}

// ---------------------------------------------------------------------------
// Decimal numbers
// ---------------------------------------------------------------------------

/// The digit `d` as a character.
pub open spec fn decimal_digit(d: nat) -> char {
    ('0' as u32 + d) as char
}

/// `n` in decimal, without leading zeros.
pub open spec fn decimal(n: nat) -> Seq<char>
    decreases n,
{
    if n < 10 {
        seq![decimal_digit(n)]
    } else {
        decimal(n / 10).push(decimal_digit(n % 10))
    }
}

/// `n` in decimal, with a minus sign if it is negative.
pub open spec fn signed_decimal(n: int) -> Seq<char> {
    if n < 0 {
        seq!['-'] + decimal((-n) as nat)
    } else {
        decimal(n as nat)
    }
}

/// Appends `n` in decimal.
pub(crate) fn append_decimal(text: &mut String, n: u64)
    ensures
        final(text)@ == old(text)@ + decimal(n as nat),
    decreases n,
{
    if n >= 10 {
        append_decimal(text, n / 10);
    }
    let digit: u8 = (n % 10) as u8;
    text.push(('0' as u8 + digit) as char);
    assert(text@ =~= old(text)@ + decimal(n as nat));
}

/// Appends `n` in decimal, with a minus sign if it is negative.
pub(crate) fn append_signed_decimal(text: &mut String, n: i64)
    ensures
        final(text)@ == old(text)@ + signed_decimal(n as int),
{
    if n < 0 {
        text.push('-');
        let magnitude: u64 = (-(n as i128)) as u64;
        append_decimal(text, magnitude);
        assert(text@ =~= old(text)@ + signed_decimal(n as int));
    } else {
        append_decimal(text, n as u64);
    }
}

/// Decimal digits and nothing else, at least one.
pub proof fn lemma_decimal_digits(n: nat)
    ensures
        decimal(n).len() > 0,
        forall|i: int| 0 <= i < decimal(n).len() ==> '0' <= #[trigger] decimal(n)[i] && decimal(n)[i] <= '9',
    decreases n,
{
    if n >= 10 {
        lemma_decimal_digits(n / 10);
    }
}

/// Different numbers are written differently.
pub proof fn lemma_decimal_is_injective(a: nat, b: nat)
    requires
        decimal(a) == decimal(b),
    ensures
        a == b,
    decreases a,
{
    let x = decimal(a);
    let y = decimal(b);
    assert(x.last() == decimal_digit(a % 10));
    assert(y.last() == decimal_digit(b % 10));
    assert(a % 10 == b % 10);
    if a >= 10 {
        lemma_decimal_digits(a / 10);
        if b >= 10 {
            assert(x.drop_last() =~= decimal(a / 10));
            assert(y.drop_last() =~= decimal(b / 10));
            lemma_decimal_is_injective(a / 10, b / 10);
        } else {
            assert(x.len() == decimal(a / 10).len() + 1);
        }
    } else if b >= 10 {
        lemma_decimal_digits(b / 10);
        assert(y.len() == decimal(b / 10).len() + 1);
    }
}

// ---------------------------------------------------------------------------
// Laws
// ---------------------------------------------------------------------------

/// Space, tab, line feed, form feed or carriage return, by code.
pub open spec fn blank_code(c: char) -> bool {
    c as int == 0x20 || c as int == 0x09 || c as int == 0x0a || c as int == 0x0c || c as int == 0x0d
}

/// A hexadecimal digit of either case, by code.
pub open spec fn hex_code(c: char) -> bool {
    ||| 0x30 <= c as int <= 0x39
    ||| 0x41 <= c as int <= 0x46
    ||| 0x61 <= c as int <= 0x66
}

/// `t` is `s` with the codes of `A-Z` raised to those of `a-z`, and every other
/// character as it is.
pub open spec fn lowers_to(s: Seq<char>, t: Seq<char>) -> bool {
    &&& t.len() == s.len()
    &&& forall|i: int|
        #![trigger t[i]]
        0 <= i < s.len() ==> t[i] as int == if 0x41 <= s[i] as int <= 0x5a {
            s[i] as int + 0x20
        } else {
            s[i] as int
        }
}

/// The classes of characters, by code.
pub proof fn law_classes_by_code(c: char)
    ensures
        is_ascii_whitespace(c) <==> c as int == 0x20 || 0x09 <= c as int <= 0x0a || 0x0c <= c as int
            <= 0x0d,
        is_ascii_whitespace(c) <==> blank_code(c),
        is_hex_digit(c) <==> 0x30 <= c as int <= 0x39 || 0x41 <= c as int <= 0x46 || 0x61
            <= c as int <= 0x66,
        is_hex_digit(c) <==> hex_code(c),
        delimits(Delimiter::Whitespace, c) <==> blank_code(c),
        delimits(Delimiter::LineFeed, c) <==> c as int == 0x0a,
        delimits(Delimiter::Slash, c) <==> c as int == 0x2f,
        delimits(Delimiter::Value, c) <==> c as int == 0x2c || c as int == 0x22 || blank_code(c),
        trims(Trim::Quotes, c) <==> c as int == 0x22,
        trims(Trim::QuotesAndCommas, c) <==> c as int == 0x22 || c as int == 0x27 || c as int
            == 0x2c,
        trims(Trim::Colons, c) <==> c as int == 0x3a,
        trims(Trim::Slashes, c) <==> c as int == 0x2f,
{
}

/// Lower case changes the codes of `A-Z` and nothing else.
pub proof fn law_lowercase_by_code(s: Seq<char>, t: Seq<char>)
    ensures
        lowers_to(s, t) <==> t == lowercase(s),
{
    let u = lowercase(s);
    assert forall|i: int| 0 <= i < s.len() implies #[trigger] u[i] as int == (if 0x41
        <= s[i] as int <= 0x5a {
        s[i] as int + 0x20
    } else {
        s[i] as int
    }) by {
        assert(u[i] == ascii_lower(s[i]));
    }
    if lowers_to(s, t) {
        assert forall|i: int| 0 <= i < s.len() implies t[i] == u[i] by {
            assert(t[i] as int == u[i] as int);
        }
        assert(t =~= u);
    }
}

/// A text without whitespace is one word, if it is not empty.
pub proof fn law_word_is_a_token(w: Seq<char>)
    requires
        w.len() > 0,
        forall|i: int| 0 <= i < w.len() ==> !blank_code(#[trigger] w[i]),
    ensures
        tokens(w) == seq![w],
{
    assert(w[0] == w[0]);
    lemma_run_length_unique(w, Delimiter::Whitespace, w.len());
    assert(w.take(w.len() as int) =~= w);
    assert(w.skip(w.len() as int) =~= seq![]);
    assert(tokens(w.skip(w.len() as int)) =~= seq![]);
    assert(seq![w] + tokens(w.skip(w.len() as int)) =~= seq![w]);
}

/// Whitespace between two texts separates their words, and no text has none.
pub proof fn law_whitespace_separates_tokens(a: Seq<char>, c: char, b: Seq<char>)
    requires
        blank_code(c),
    ensures
        tokens(a + seq![c] + b) == tokens(a) + tokens(b),
        tokens(seq![]) == Seq::<Seq<char>>::empty(),
    decreases a.len(),
{
    let s = a + seq![c] + b;
    if a.len() == 0 {
        assert(s[0] == c);
        assert(s.drop_first() =~= b);
        assert(tokens(a) + tokens(b) =~= tokens(b));
    } else if is_ascii_whitespace(a[0]) {
        assert(s[0] == a[0]);
        assert(s.drop_first() =~= a.drop_first() + seq![c] + b);
        law_whitespace_separates_tokens(a.drop_first(), c, b);
    } else {
        lemma_run_length(a, Delimiter::Whitespace);
        let n = run_length(a, Delimiter::Whitespace);
        assert(n > 0) by {
            if n == 0 {
                assert(delimits(Delimiter::Whitespace, a[0]));
            }
        }
        assert(s[0] == a[0]);
        assert(s[n as int] == if n < a.len() {
            a[n as int]
        } else {
            c
        });
        assert forall|i: int| 0 <= i < n implies !delimits(
            Delimiter::Whitespace,
            #[trigger] s[i],
        ) by {
            assert(s[i] == a[i]);
        }
        lemma_run_length_unique(s, Delimiter::Whitespace, n);
        assert(s.take(n as int) =~= a.take(n as int));
        assert(s.skip(n as int) =~= a.skip(n as int) + seq![c] + b);
        law_whitespace_separates_tokens(a.skip(n as int), c, b);
        assert(tokens(s) == seq![a.take(n as int)] + (tokens(a.skip(n as int)) + tokens(b)));
        assert(tokens(s) =~= tokens(a) + tokens(b));
    }
    assert(tokens(Seq::<char>::empty()) =~= Seq::<Seq<char>>::empty());
}

/// Every word is a non-empty text without whitespace.
pub proof fn law_tokens_hold_no_whitespace(s: Seq<char>, k: int)
    requires
        0 <= k < tokens(s).len(),
    ensures
        tokens(s)[k].len() > 0,
        forall|i: int| 0 <= i < tokens(s)[k].len() ==> !blank_code(#[trigger] tokens(s)[k][i]),
    decreases s.len(),
{
    if s.len() > 0 {
        if is_ascii_whitespace(s[0]) {
            law_tokens_hold_no_whitespace(s.drop_first(), k);
        } else {
            lemma_run_length(s, Delimiter::Whitespace);
            let n = run_length(s, Delimiter::Whitespace) as int;
            assert(n > 0) by {
                if n == 0 {
                    assert(delimits(Delimiter::Whitespace, s[0]));
                }
            }
            if k == 0 {
                assert(tokens(s)[0] == s.take(n));
                assert forall|i: int| 0 <= i < n implies !blank_code(#[trigger] tokens(s)[0][i]) by {
                    assert(tokens(s)[0][i] == s[i]);
                    assert(!delimits(Delimiter::Whitespace, s[i]));
                }
            } else {
                assert(tokens(s)[k] == tokens(s.skip(n))[k - 1]);
                law_tokens_hold_no_whitespace(s.skip(n), k - 1);
            }
        }
    }
}

/// A text begins with the piece before its first delimiter, and the other pieces
/// are those of what follows; without a delimiter a text is one piece, if it is
/// not empty.
pub proof fn law_first_piece(piece: Seq<char>, c: char, rest: Seq<char>, d: Delimiter)
    requires
        delimits(d, c),
        forall|i: int| 0 <= i < piece.len() ==> !delimits(d, #[trigger] piece[i]),
    ensures
        pieces(piece + seq![c] + rest, d) == seq![piece] + pieces(rest, d),
        piece.len() > 0 ==> pieces(piece, d) == seq![piece],
        pieces(seq![], d) == Seq::<Seq<char>>::empty(),
{
    let s = piece + seq![c] + rest;
    let n = piece.len();
    assert forall|i: int| 0 <= i < n implies !delimits(d, #[trigger] s[i]) by {
        assert(s[i] == piece[i]);
    }
    assert(s[n as int] == c);
    lemma_run_length_unique(s, d, n);
    assert(s.take(n as int) =~= piece);
    assert(s.skip(n as int + 1) =~= rest);
    if n > 0 {
        lemma_run_length_unique(piece, d, n);
    }
    assert(pieces(Seq::<char>::empty(), d) =~= Seq::<Seq<char>>::empty());
}

/// A text begins with its first line, which a line feed ends, and the other
/// lines are those of what follows; without a line feed a text is one line, if
/// it is not empty.
pub proof fn law_first_line(line: Seq<char>, rest: Seq<char>)
    requires
        forall|i: int| 0 <= i < line.len() ==> #[trigger] line[i] as int != 0x0a,
    ensures
        lines(line + seq!['\n'] + rest) == seq![line] + lines(rest),
        line.len() > 0 ==> lines(line) == seq![line],
        lines(seq![]) == Seq::<Seq<char>>::empty(),
{
    assert forall|i: int| 0 <= i < line.len() implies !delimits(
        Delimiter::LineFeed,
        #[trigger] line[i],
    ) by {
        assert(line[i] as int != 0x0a);
    }
    law_first_piece(line, '\n', rest, Delimiter::LineFeed);
}

proof fn lemma_trim_start(p: Seq<char>, m: Seq<char>, t: Trim)
    requires
        forall|i: int| 0 <= i < p.len() ==> trims(t, #[trigger] p[i]),
        m.len() > 0 ==> !trims(t, m[0]),
    ensures
        trim_start(p + m, t) == m,
    decreases p.len(),
{
    let s = p + m;
    if p.len() == 0 {
        assert(s =~= m);
    } else {
        assert(s[0] == p[0]);
        assert(s.drop_first() =~= p.drop_first() + m);
        lemma_trim_start(p.drop_first(), m, t);
    }
}

proof fn lemma_trim_end(m: Seq<char>, q: Seq<char>, t: Trim)
    requires
        forall|i: int| 0 <= i < q.len() ==> trims(t, #[trigger] q[i]),
        m.len() > 0 ==> !trims(t, m.last()),
    ensures
        trim_end(m + q, t) == m,
    decreases q.len(),
{
    let s = m + q;
    if q.len() == 0 {
        assert(s =~= m);
    } else {
        assert(s.last() == q.last());
        assert(s.drop_last() =~= m + q.drop_last());
        lemma_trim_end(m, q.drop_last(), t);
    }
}

/// Trimming takes off all that it takes off around a text, and nothing of the
/// text itself.
pub proof fn law_trim_takes_off_the_ends(p: Seq<char>, m: Seq<char>, q: Seq<char>, t: Trim)
    requires
        forall|i: int| 0 <= i < p.len() ==> trims(t, #[trigger] p[i]),
        forall|i: int| 0 <= i < q.len() ==> trims(t, #[trigger] q[i]),
        m.len() > 0 ==> !trims(t, m[0]) && !trims(t, m.last()),
    ensures
        trim(p + m + q, t) == m,
        trim_end(m + q, t) == m,
{
    lemma_trim_end(m, q, t);
    if m.len() > 0 {
        assert(p + m + q =~= p + (m + q));
        assert((m + q)[0] == m[0]);
        lemma_trim_start(p, m + q, t);
    } else {
        let all = p + q;
        assert(p + m + q =~= all + m);
        lemma_trim_start(all, m, t);
        lemma_trim_end(m, Seq::empty(), t);
        assert(m + Seq::<char>::empty() =~= m);
    }
}

/// Where trimming stops: a text is what is taken off its start, the trimmed
/// text, and what is taken off its end.
pub proof fn law_trim_finds_the_ends(s: Seq<char>, t: Trim) -> (ends: (int, int))
    ensures
        0 <= ends.0 <= ends.1 <= s.len(),
        s.subrange(ends.0, ends.1) == trim(s, t),
        forall|i: int| 0 <= i < ends.0 ==> trims(t, #[trigger] s[i]),
        forall|i: int| ends.1 <= i < s.len() ==> trims(t, #[trigger] s[i]),
        ends.0 < ends.1 ==> !trims(t, s[ends.0]) && !trims(t, s[ends.1 - 1]),
    decreases s.len(),
{
    if s.len() == 0 {
        assert(s.subrange(0, 0) =~= s);
        (0, 0)
    } else if trims(t, s[0]) {
        let rest = s.drop_first();
        let (a, b) = law_trim_finds_the_ends(rest, t);
        assert(s.subrange(a + 1, b + 1) =~= rest.subrange(a, b));
        assert forall|i: int| 0 <= i < a + 1 implies trims(t, #[trigger] s[i]) by {
            if i > 0 {
                assert(rest[i - 1] == s[i]);
            }
        }
        assert forall|i: int| b + 1 <= i < s.len() implies trims(t, #[trigger] s[i]) by {
            assert(rest[i - 1] == s[i]);
        }
        (a + 1, b + 1)
    } else if trims(t, s.last()) {
        let rest = s.drop_last();
        assert(rest.len() > 0);
        assert(rest[0] == s[0]);
        let (a, b) = law_trim_finds_the_ends(rest, t);
        assert(s.subrange(a, b) =~= rest.subrange(a, b));
        assert(trim(s, t) == trim(rest, t));
        assert forall|i: int| 0 <= i < a implies trims(t, #[trigger] s[i]) by {
            assert(rest[i] == s[i]);
        }
        assert forall|i: int| b <= i < s.len() implies trims(t, #[trigger] s[i]) by {
            if i < s.len() - 1 {
                assert(rest[i] == s[i]);
            }
        }
        (a, b)
    } else {
        assert(s.subrange(0, s.len() as int) =~= s);
        (0, s.len() as int)
    }
}

/// The number that decimal digits stand for.
pub open spec fn decimal_value(s: Seq<char>) -> int
    decreases s.len(),
{
    if s.len() == 0 {
        0
    } else {
        10 * decimal_value(s.drop_last()) + (s.last() as int - 0x30)
    }
}

/// A number in decimal reads back as itself, has digits only, and no leading
/// zero unless it is zero.
pub proof fn law_decimal_reads_back(n: nat)
    ensures
        decimal_value(decimal(n)) == n,
        decimal(n).len() > 0,
        forall|i: int|
            0 <= i < decimal(n).len() ==> 0x30 <= (#[trigger] decimal(n)[i]) as int <= 0x39,
        n > 0 ==> decimal(n)[0] as int != 0x30,
    decreases n,
{
    let s = decimal(n);
    if n < 10 {
        assert(s.last() as int == 0x30 + n);
        assert(s.drop_last() =~= seq![]);
        assert(decimal_value(s.drop_last()) == 0);
    } else {
        law_decimal_reads_back(n / 10);
        assert(s.drop_last() =~= decimal(n / 10));
        assert(s.last() as int == 0x30 + n % 10);
        assert(s[0] == decimal(n / 10)[0]);
        assert forall|i: int| 0 <= i < s.len() implies 0x30 <= (#[trigger] s[i]) as int <= 0x39 by {
            if i < s.len() - 1 {
                assert(s[i] == decimal(n / 10)[i]);
            }
        }
    }
}

/// A signed number in decimal is its magnitude, behind a minus sign if and only
/// if it is negative.
pub proof fn law_signed_decimal_reads_back(n: int)
    ensures
        n >= 0 ==> decimal_value(signed_decimal(n)) == n,
        n < 0 ==> {
            &&& signed_decimal(n)[0] as int == 0x2d
            &&& decimal_value(signed_decimal(n).skip(1)) == -n
        },
        forall|i: int|
            (n < 0 ==> i > 0) && 0 <= i < signed_decimal(n).len() ==> 0x30 <= (
            #[trigger] signed_decimal(n)[i]) as int <= 0x39,
        signed_decimal(n).len() > if n < 0 {
            1int
        } else {
            0
        },
{
    if n < 0 {
        law_decimal_reads_back((-n) as nat);
        assert(signed_decimal(n).skip(1) =~= decimal((-n) as nat));
        assert forall|i: int| 0 < i < signed_decimal(n).len() implies 0x30 <= (
        #[trigger] signed_decimal(n)[i]) as int <= 0x39 by {
            assert(signed_decimal(n)[i] == decimal((-n) as nat)[i - 1]);
        }
    } else {
        law_decimal_reads_back(n as nat);
    }
}

} // verus!
