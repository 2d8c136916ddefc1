//! The kernel keyring that holds the certificates for dm-verity signatures, as
//! `/proc/keys` lists it.

use crate::text::{
    hex_code, hex_digit, is_hex_digit, law_classes_by_code, law_trim_takes_off_the_ends, lines,
    reads, split_pieces, split_whitespace, texts, to_chars, tokens, trim_chars_end, trim_end, trims,
    Delimiter, Trim,
};
use vstd::prelude::*;
use vstd::slice::slice_subrange;

verus! {

/// The keyring is not there: the kernel lacks the dm-verity keyring.
#[derive(Clone, Copy, Debug, PartialEq, Eq, Structural)]
pub struct KeyringUnavailable;

// ---------------------------------------------------------------------------
// Hexadecimal numbers
// ---------------------------------------------------------------------------

/// The value of a hexadecimal digit.
pub open spec fn hex_digit_value(c: char) -> nat
    recommends
        is_hex_digit(c),
{
    if '0' <= c && c <= '9' {
        (c as int - '0' as int) as nat
    } else if 'a' <= c && c <= 'f' {
        (c as int - 'a' as int + 10) as nat
    } else {
        (c as int - 'A' as int + 10) as nat
    }
}

/// The number that hexadecimal digits stand for.
pub open spec fn hex_number(s: Seq<char>) -> nat
    decreases s.len(),
{
    if s.len() == 0 {
        0
    } else {
        hex_number(s.drop_last()) * 16 + hex_digit_value(s.last())
    }
}

/// The digits of a number that may carry a plus sign.
pub open spec fn unsigned_digits(s: Seq<char>) -> Seq<char> {
    if s.len() > 0 && s[0] == '+' {
        s.drop_first()
    } else {
        s
    }
}

/// The 32-bit number that `s` stands for in hexadecimal, if it does.
pub open spec fn hex_u32(s: Seq<char>) -> Option<u32> {
    let digits = unsigned_digits(s);
    if digits.len() > 0 && (forall|i: int| 0 <= i < digits.len() ==> is_hex_digit(#[trigger] digits[i]))
        && hex_number(digits) <= u32::MAX {
        Some(hex_number(digits) as u32)
    } else {
        None
    }
}

proof fn lemma_hex_prefix(s: Seq<char>, n: int)
    requires
        0 <= n <= s.len(),
    ensures
        hex_number(s.take(n)) <= hex_number(s),
    decreases s.len() - n,
{
    if n < s.len() {
        lemma_hex_prefix(s, n + 1);
        assert(s.take(n + 1).drop_last() =~= s.take(n));
    } else {
        assert(s.take(n) =~= s);
    }
}

fn digit_value(c: char) -> (v: u64)
    requires
        is_hex_digit(c),
    ensures
        v == hex_digit_value(c),
        v < 16,
{
    if '0' <= c && c <= '9' {
        c as u64 - '0' as u64
    } else if 'a' <= c && c <= 'f' {
        c as u64 - 'a' as u64 + 10
    } else {
        c as u64 - 'A' as u64 + 10
    }
}

/// The 32-bit number that `s` stands for in hexadecimal, if it does.
fn parse_hex_u32(s: &[char]) -> (r: Option<u32>)
    ensures
        r == hex_u32(s@),
{
    let digits: &[char] = if s.len() > 0 && s[0] == '+' {
        slice_subrange(s, 1, s.len())
    } else {
        s
    };
    assert(digits@ =~= unsigned_digits(s@));
    if digits.len() == 0 {
        return None;
    }
    let mut value: u64 = 0;
    let mut i: usize = 0;
    while i < digits.len()
        invariant
            digits@ == unsigned_digits(s@),
            i <= digits@.len(),
            value <= u32::MAX,
            value == hex_number(digits@.take(i as int)),
            forall|j: int| 0 <= j < i ==> is_hex_digit(#[trigger] digits@[j]),
        decreases digits@.len() - i,
    {
        if !hex_digit(digits[i]) {
            return None;
        }
        value = value * 16 + digit_value(digits[i]);
        proof {
            assert(digits@.take(i + 1).drop_last() =~= digits@.take(i as int));
            lemma_hex_prefix(digits@, i + 1);
        }
        if value > u32::MAX as u64 {
            return None;
        }
        i += 1;
    }
    assert(digits@.take(i as int) =~= digits@);
    Some(value as u32)
}

// ---------------------------------------------------------------------------
// /proc/keys
// ---------------------------------------------------------------------------

/// The serial number on a line that describes the dm-verity keyring. The
/// fields of a line are: serial number, flags, usage, timeout, permissions,
/// user, group, type, description. The description of a keyring is followed by
/// a colon.
pub open spec fn keyring_serial(line: Seq<char>) -> Option<u32> {
    let fields = tokens(line);
    if fields.len() > 8 && fields[7] == "keyring"@ && trim_end(fields[8], Trim::Colons)
        == ".dm-verity"@ {
        hex_u32(fields[0])
    } else {
        None
    }
}

/// The serial number on the first line that gives one.
pub open spec fn first_serial(content: Seq<Seq<char>>) -> Option<u32>
    decreases content.len(),
{
    if content.len() == 0 {
        None
    } else {
        match keyring_serial(content[0]) {
            Some(serial) => Some(serial),
            None => first_serial(content.drop_first()),
        }
    }
}

/// The identifier of the dm-verity keyring in a listing of keys.
pub open spec fn keyring_id(keys: Seq<char>) -> Option<i64> {
    match first_serial(lines(keys)) {
        Some(serial) => Some(serial as i64),
        None => None,
    }
}

fn serial_of_line(line: &[char]) -> (r: Option<u32>)
    ensures
        r == keyring_serial(line@),
{
    let fields: Vec<&[char]> = split_whitespace(line);
    assert(texts(fields@).len() == fields@.len());
    assert(forall|j: int| 0 <= j < fields@.len() ==> #[trigger] texts(fields@)[j] == fields@[j]@);
    if fields.len() > 8 && reads(fields[7], "keyring") && reads(
        trim_chars_end(fields[8], Trim::Colons),
        ".dm-verity",
    ) {
        parse_hex_u32(fields[0])
    } else {
        None
    }
}

/// The identifier of the dm-verity keyring in `keys`, the text of `/proc/keys`.
pub fn parse_dm_verity_keyring_id(keys: &str) -> (r: Option<i64>)
    ensures
        r == keyring_id(keys@),
{
    let chars: Vec<char> = to_chars(keys);
    let content: Vec<&[char]> = split_pieces(chars.as_slice(), Delimiter::LineFeed);
    let ghost all = lines(keys@);
    let mut i: usize = 0;
    assert(all.skip(0) =~= all);
    while i < content.len()
        invariant
            all == lines(keys@),
            texts(content@) == all,
            i <= content@.len(),
            first_serial(all.skip(i as int)) == first_serial(all),
        decreases content@.len() - i,
    {
        assert(all.len() == content@.len());
        assert(all[i as int] == content@[i as int]@);
        assert(all.skip(i as int)[0] == all[i as int]);
        assert(all.skip(i as int).drop_first() =~= all.skip(i + 1));
        match serial_of_line(content[i]) {
            Some(serial) => {
                return Some(serial as i64);
            },
            None => {},
        }
        i += 1;
    }
    assert(all.len() == content@.len());
    assert(all.skip(i as int) =~= seq![]);
    None
}

/// The identifier of the dm-verity keyring, or that there is none.
pub fn find_dm_verity_keyring(keys: &str) -> (r: Result<i64, KeyringUnavailable>)
    ensures
        r == match keyring_id(keys@) {
            Some(id) => Ok::<i64, KeyringUnavailable>(id),
            None => Err(KeyringUnavailable),
        },
{
    match parse_dm_verity_keyring_id(keys) {
        Some(id) => Ok(id),
        None => Err(KeyringUnavailable),
    }
}

// ---------------------------------------------------------------------------
// Laws
// ---------------------------------------------------------------------------

proof fn lemma_first_serial(content: Seq<Seq<char>>)
    ensures
        match first_serial(content) {
            Some(serial) => exists|k: int|
                0 <= k < content.len() && #[trigger] keyring_serial(content[k]) == Some(serial) && (
                forall|j: int| 0 <= j < k ==> (#[trigger] keyring_serial(content[j])) is None),
            None => forall|j: int|
                0 <= j < content.len() ==> (#[trigger] keyring_serial(content[j])) is None,
        },
    decreases content.len(),
{
    if content.len() > 0 && keyring_serial(content[0]) is None {
        let rest = content.drop_first();
        lemma_first_serial(rest);
        match first_serial(rest) {
            Some(serial) => {
                let k = choose|k: int|
                    0 <= k < rest.len() && #[trigger] keyring_serial(rest[k]) == Some(serial) && (
                    forall|j: int| 0 <= j < k ==> (#[trigger] keyring_serial(rest[j])) is None);
                assert(content[k + 1] == rest[k]);
                assert forall|j: int| 0 <= j < k + 1 implies (#[trigger] keyring_serial(
                    content[j],
                )) is None by {
                    if j > 0 {
                        assert(content[j] == rest[j - 1]);
                    }
                }
            },
            None => {
                assert forall|j: int| 0 <= j < content.len() implies (#[trigger] keyring_serial(
                    content[j],
                )) is None by {
                    if j > 0 {
                        assert(content[j] == rest[j - 1]);
                    }
                }
            },
        }
    } else if content.len() > 0 {
        assert(keyring_serial(content[0]) is Some);
    }
}

/// The keyring is found if and only if some line gives a serial number for it,
/// and it is the first such line that counts.
pub proof fn law_first_listed_keyring_counts(keys: Seq<char>)
    ensures
        match keyring_id(keys) {
            Some(id) => exists|k: int|
                {
                    &&& 0 <= k < lines(keys).len()
                    &&& #[trigger] keyring_serial(lines(keys)[k]) is Some
                    &&& keyring_serial(lines(keys)[k])->0 == id
                    &&& forall|j: int|
                        0 <= j < k ==> (#[trigger] keyring_serial(lines(keys)[j])) is None
                },
            None => forall|j: int|
                0 <= j < lines(keys).len() ==> (#[trigger] keyring_serial(lines(keys)[j])) is None,
        },
{
    lemma_first_serial(lines(keys));
}

/// The value of a hexadecimal digit, by code.
pub open spec fn code_value(c: char) -> int {
    if c as int <= 0x39 {
        c as int - 0x30
    } else if c as int <= 0x46 {
        c as int - 0x37
    } else {
        c as int - 0x57
    }
}

/// Hexadecimal digits are read from the left, each worth sixteen times the next.
pub proof fn law_hex_numbers_are_positional(s: Seq<char>, c: char)
    requires
        hex_code(c),
    ensures
        hex_number(s.push(c)) == 16 * hex_number(s) + code_value(c),
        0 <= code_value(c) < 16,
        c as int <= 0x39 ==> code_value(c) == c as int - 0x30,
        0x41 <= c as int <= 0x46 ==> code_value(c) == c as int - 0x41 + 10,
        c as int >= 0x61 ==> code_value(c) == c as int - 0x61 + 10,
        hex_number(seq![]) == 0,
{
    assert(s.push(c).drop_last() =~= s);
}

/// Hexadecimal digits and nothing else, at least one, by code.
pub open spec fn hex_digits(s: Seq<char>) -> bool {
    s.len() > 0 && forall|i: int| 0 <= i < s.len() ==> hex_code(#[trigger] s[i])
}

/// A 32-bit number in hexadecimal is digits, with or without a plus sign in
/// front, whose value fits; nothing else is one.
pub proof fn law_hex_u32_takes_digits(s: Seq<char>)
    ensures
        hex_digits(s) && hex_number(s) <= 0xffff_ffff ==> hex_u32(s) == Some(hex_number(s) as u32),
        hex_digits(s) && hex_number(s) <= 0xffff_ffff ==> hex_u32(seq!['+'] + s) == Some(
            hex_number(s) as u32,
        ),
        hex_u32(s) is Some ==> {
            ||| hex_digits(s) && hex_number(s) <= 0xffff_ffff
            ||| {
                &&& s.len() > 1
                &&& s[0] as int == 0x2b
                &&& hex_digits(s.skip(1))
                &&& hex_number(s.skip(1)) <= 0xffff_ffff
                &&& hex_u32(s) == Some(hex_number(s.skip(1)) as u32)
            }
        },
{
    if hex_digits(s) {
        assert forall|i: int| 0 <= i < s.len() implies is_hex_digit(#[trigger] s[i]) by {
            assert(hex_code(s[i]));
            law_classes_by_code(s[i]);
        }
        assert(hex_code(s[0]));
        assert(unsigned_digits(s) == s);
        let signed = seq!['+'] + s;
        assert(unsigned_digits(signed) =~= s);
    }
    if hex_u32(s) is Some {
        let d = unsigned_digits(s);
        assert forall|i: int| 0 <= i < d.len() implies hex_code(#[trigger] d[i]) by {
            assert(is_hex_digit(d[i]));
            law_classes_by_code(d[i]);
        }
        if s[0] == '+' {
            assert(s.skip(1) =~= d);
        }
    }
}

/// A line of the listing gives a serial number for the dm-verity keyring if and
/// only if its eighth field is `keyring`, its ninth is `.dm-verity` and any
/// number of colons, and its first is a number; that is the serial number.
pub proof fn law_keyring_line(line: Seq<char>)
    ensures
        ({
            let f = tokens(line);
            let named = {
                &&& f.len() >= 9
                &&& f[7] == "keyring"@
                &&& f[8].len() >= 10
                &&& f[8].take(10) == ".dm-verity"@
                &&& forall|i: int| 10 <= i < f[8].len() ==> (#[trigger] f[8][i]) as int == 0x3a
            };
            keyring_serial(line) == if named {
                hex_u32(f[0])
            } else {
                None
            }
        }),
{
    let f = tokens(line);
    let name = ".dm-verity"@;
    reveal_strlit(".dm-verity");
    assert(name.len() == 10 && name[9] == 'y');
    if f.len() >= 9 {
        let x = f[8];
        lemma_trim_end_is_a_prefix(x, Trim::Colons);
        let n = trim_end(x, Trim::Colons).len() as int;
        if trim_end(x, Trim::Colons) == name {
            assert(x.take(10) =~= name);
            assert forall|i: int| 10 <= i < x.len() implies (#[trigger] x[i]) as int == 0x3a by {
                law_classes_by_code(x[i]);
            }
        }
        if x.len() >= 10 && x.take(10) == name && (forall|i: int|
            10 <= i < x.len() ==> (#[trigger] x[i]) as int == 0x3a) {
            let q = x.skip(10);
            assert forall|i: int| 0 <= i < q.len() implies trims(Trim::Colons, #[trigger] q[i]) by {
                assert(x[10 + i] as int == 0x3a);
                law_classes_by_code(q[i]);
            }
            law_trim_takes_off_the_ends(Seq::empty(), name, q, Trim::Colons);
            assert(name + q =~= x);
        }
    }
}

proof fn lemma_trim_end_is_a_prefix(s: Seq<char>, t: Trim)
    ensures
        trim_end(s, t).len() <= s.len(),
        trim_end(s, t) == s.take(trim_end(s, t).len() as int),
        forall|i: int| trim_end(s, t).len() <= i < s.len() ==> trims(t, #[trigger] s[i]),
    decreases s.len(),
{
    if s.len() > 0 && trims(t, s.last()) {
        let rest = s.drop_last();
        lemma_trim_end_is_a_prefix(rest, t);
        let n = trim_end(rest, t).len() as int;
        assert(s.take(n) =~= rest.take(n));
        assert forall|i: int| n <= i < s.len() implies trims(t, #[trigger] s[i]) by {
            if i < s.len() - 1 {
                assert(rest[i] == s[i]);
            }
        }
    } else {
        assert(s.take(s.len() as int) =~= s);
    }
}

/// Lines that give no serial number, put before a listing, do not change which
/// keyring is found in it, and nothing that is put after the first line that
/// gives one does.
pub proof fn law_only_the_first_keyring_line_counts(line: Seq<char>, rest: Seq<char>)
    requires
        forall|i: int| 0 <= i < line.len() ==> (#[trigger] line[i]) as int != 0x0a,
    ensures
        keyring_serial(line) is None ==> keyring_id(line + seq!['\n'] + rest) == keyring_id(rest),
        keyring_serial(line) matches Some(serial) ==> (keyring_id(line + seq!['\n'] + rest)
            matches Some(id) && id == serial),
        keyring_id(seq![]) is None,
{
    crate::text::law_first_line(line, rest);
    let all = lines(line + seq!['\n'] + rest);
    assert(all[0] == line);
    assert(all.drop_first() =~= lines(rest));
}

} // verus!
