//! The execution policy: everything is allowed but execution, and execution is
//! allowed only from listed dm-verity devices and from devices whose root hash
//! carries a signature that the kernel has checked.

use crate::root_hash::{
    ascending, cmdline_hashes, hash_text, hashes_from_kernel_cmdline, is_hex_digest,
    is_supported_digest_algorithm, law_cmdline_hashes_are_valid,
    law_listing_is_determined_by_elements, lemma_ascending_is_distinct, supported_algorithm,
    valid_hash, RootHashSet, RootHashText, VerityRootHash,
};
use crate::text::{delimits, lemma_run_length_unique, lines, run_length, Delimiter};
use vstd::prelude::*;
use vstd::string::*;

verus! {

/// Why no policy is rendered.
#[derive(Clone, Copy, Debug, PartialEq, Eq, Structural)]
pub enum PolicyError {
    /// No root hash is listed.
    NoRootHash,
    /// A listed root hash has an unknown algorithm or is not hexadecimal.
    InvalidRootHash,
}

/// The rule that allows execution from the device with this root hash.
pub open spec fn allow_rule(hash: RootHashText) -> Seq<char> {
    "op=EXECUTE dmverity_roothash="@ + hash.0 + ":"@ + hash.1 + " action=ALLOW"@
}

/// The rule that allows execution from devices with a signed root hash.
pub open spec fn signature_rule() -> Seq<char> {
    "op=EXECUTE dmverity_signature=TRUE action=ALLOW"@
}

/// The lines before the rules: the policy's name and version, and its defaults.
pub open spec fn policy_head() -> Seq<Seq<char>> {
    seq![
        "policy_name=kata_verity policy_version=0.0.0"@,
        "DEFAULT action=ALLOW"@,
        "DEFAULT op=EXECUTE action=DENY"@,
    ]
}

/// The rules for the listed root hashes, one each.
pub open spec fn allow_rules(listing: Seq<RootHashText>) -> Seq<Seq<char>> {
    listing.map_values(|hash: RootHashText| allow_rule(hash))
}

/// The lines of the policy that lists these root hashes.
pub open spec fn policy_lines(listing: Seq<RootHashText>) -> Seq<Seq<char>> {
    policy_head() + allow_rules(listing) + seq![signature_rule()]
}

/// The text that has these lines, each ended by a line feed.
pub open spec fn text_of_lines(content: Seq<Seq<char>>) -> Seq<char>
    decreases content.len(),
{
    if content.len() == 0 {
        seq![]
    } else {
        text_of_lines(content.drop_last()) + content.last() + seq!['\n']
    }
}

/// Appends `line` and a line feed.
fn push_line(text: &mut String, line: &str)
    ensures
        final(text)@ == old(text)@ + line@ + seq!['\n'],
{
    text.append(line);
    text.push('\n');
    assert(text@ =~= old(text)@ + line@ + seq!['\n']);
}

fn allow_rule_text(hash: &VerityRootHash) -> (rule: String)
    ensures
        rule@ == allow_rule(hash_text(*hash)),
{
    let mut rule: String = String::new();
    rule.append("op=EXECUTE dmverity_roothash=");
    rule.append(hash.0.as_str());
    rule.append(":");
    rule.append(hash.1.as_str());
    rule.append(" action=ALLOW");
    assert(rule@ =~= allow_rule(hash_text(*hash)));
    rule
}

proof fn lemma_push_line(content: Seq<Seq<char>>, line: Seq<char>)
    ensures
        text_of_lines(content.push(line)) == text_of_lines(content) + line + seq!['\n'],
{
    assert(content.push(line).drop_last() =~= content);
}

/// Renders the policy that lists the root hashes of `hashes`.
pub fn render_policy(hashes: &RootHashSet) -> (r: Result<String, PolicyError>)
    requires
        hashes.wf(),
    ensures
        hashes@ == Set::<RootHashText>::empty() <==> r == Err::<String, PolicyError>(
            PolicyError::NoRootHash,
        ),
        (exists|hash: RootHashText| #[trigger] hashes@.contains(hash) && !valid_hash(hash)) <==> r
            == Err::<String, PolicyError>(PolicyError::InvalidRootHash),
        r matches Ok(policy) ==> policy@ == text_of_lines(policy_lines(hashes.listing())),
{
    if hashes.is_empty() {
        return Err(PolicyError::NoRootHash);
    }
    let ghost listing = hashes.listing();
    let mut policy: String = String::new();
    push_line(&mut policy, "policy_name=kata_verity policy_version=0.0.0");
    push_line(&mut policy, "DEFAULT action=ALLOW");
    push_line(&mut policy, "DEFAULT op=EXECUTE action=DENY");
    proof {
        let none = Seq::<Seq<char>>::empty();
        let a = "policy_name=kata_verity policy_version=0.0.0"@;
        let b = "DEFAULT action=ALLOW"@;
        let c = "DEFAULT op=EXECUTE action=DENY"@;
        lemma_push_line(none, a);
        lemma_push_line(none.push(a), b);
        lemma_push_line(none.push(a).push(b), c);
        assert(none.push(a).push(b).push(c) =~= policy_head());
        assert(text_of_lines(none) =~= seq![]);
        assert(text_of_lines(none) + a =~= a);
        assert(policy@ =~= text_of_lines(policy_head()));
        assert(policy_head() + allow_rules(listing.take(0)) =~= policy_head());
    }
    let mut i: usize = 0;
    let n: usize = hashes.len();
    while i < n
        invariant
            listing == hashes.listing(),
            n == listing.len(),
            n > 0,
            i <= n,
            forall|j: int| 0 <= j < i ==> valid_hash(#[trigger] listing[j]),
            policy@ == text_of_lines(policy_head() + allow_rules(listing.take(i as int))),
        decreases n - i,
    {
        let hash: &VerityRootHash = hashes.get(i);
        if !is_supported_digest_algorithm(hash.0.as_str()) || !is_hex_digest(hash.1.as_str()) {
            assert(hashes@.contains(listing[i as int]));
            assert(!valid_hash(listing[i as int]));
            return Err(PolicyError::InvalidRootHash);
        }
        let rule: String = allow_rule_text(hash);
        push_line(&mut policy, rule.as_str());
        proof {
            let before = policy_head() + allow_rules(listing.take(i as int));
            lemma_push_line(before, rule@);
            assert(before.push(rule@) =~= policy_head() + allow_rules(listing.take(i + 1)));
        }
        i += 1;
    }
    push_line(&mut policy, "op=EXECUTE dmverity_signature=TRUE action=ALLOW");
    proof {
        assert forall|hash: RootHashText| #[trigger] hashes@.contains(hash) implies valid_hash(
            hash,
        ) by {
            let j = choose|j: int| 0 <= j < listing.len() && listing[j] == hash;
            assert(valid_hash(listing[j]));
        }
        assert(listing.take(i as int) =~= listing);
        let before = policy_head() + allow_rules(listing);
        lemma_push_line(before, signature_rule());
        assert(before.push(signature_rule()) =~= policy_lines(listing));
    }
    Ok(policy)
}

/// `policy` is the policy that lists the root hashes which `cmdline` names, and
/// `count` is their number.
pub open spec fn is_policy_for(cmdline: Seq<char>, policy: Seq<char>, count: int) -> bool {
    &&& count == cmdline_hashes(cmdline).len()
    &&& count > 0
    &&& exists|listing: Seq<RootHashText>|
        {
            &&& #[trigger] ascending(listing)
            &&& listing.to_set() == cmdline_hashes(cmdline)
            &&& policy == text_of_lines(policy_lines(listing))
        }
}

/// The policy for a kernel command line, and how many root hashes it lists.
pub fn policy_for_cmdline(cmdline: &str) -> (r: Result<(String, usize), PolicyError>)
    ensures
        cmdline_hashes(cmdline@) == Set::<RootHashText>::empty() <==> r is Err,
        r matches Err(e) ==> e == PolicyError::NoRootHash,
        r matches Ok((policy, count)) ==> is_policy_for(cmdline@, policy@, count as int),
{
    let hashes: RootHashSet = hashes_from_kernel_cmdline(cmdline);
    proof {
        assert forall|hash: RootHashText| #[trigger] hashes@.contains(hash) implies valid_hash(
            hash,
        ) by {
            law_cmdline_hashes_are_valid(cmdline@, hash);
        }
    }
    match render_policy(&hashes) {
        Ok(policy) => {
            let count: usize = hashes.len();
            proof {
                if hashes.listing().len() == 0 {
                    assert(hashes@ =~= Set::<RootHashText>::empty());
                }
                assert(ascending(hashes.listing()));
            }
            Ok((policy, count))
        },
        Err(e) => Err(e),
    }
}

// ---------------------------------------------------------------------------
// Laws
// ---------------------------------------------------------------------------

/// No line feed among the characters.
pub open spec fn single_line(s: Seq<char>) -> bool {
    forall|i: int| 0 <= i < s.len() ==> #[trigger] s[i] != '\n'
}

proof fn lemma_first_line(line: Seq<char>, rest: Seq<char>)
    requires
        single_line(line),
    ensures
        lines(line + seq!['\n'] + rest) == seq![line] + lines(rest),
{
    let s = line + seq!['\n'] + rest;
    let n = line.len();
    assert forall|i: int| 0 <= i < n implies !delimits(Delimiter::LineFeed, #[trigger] s[i]) by {
        assert(s[i] == line[i]);
    }
    assert(s[n as int] == '\n');
    lemma_run_length_unique(s, Delimiter::LineFeed, n);
    assert(s.take(n as int) =~= line);
    assert(s.skip(n as int + 1) =~= rest);
}

proof fn lemma_append_line(s: Seq<char>, line: Seq<char>)
    requires
        s.len() == 0 || s.last() == '\n',
        single_line(line),
    ensures
        lines(s + line + seq!['\n']) == lines(s).push(line),
    decreases s.len(),
{
    let none = Seq::<char>::empty();
    if s.len() == 0 {
        lemma_first_line(line, none);
        assert(s + line + seq!['\n'] =~= line + seq!['\n'] + none);
        assert(lines(none) =~= seq![]);
        assert(seq![line] + lines(none) =~= lines(s).push(line));
    } else {
        crate::text::lemma_run_length(s, Delimiter::LineFeed);
        let n = run_length(s, Delimiter::LineFeed) as int;
        assert(n < s.len()) by {
            if n == s.len() {
                assert(!delimits(Delimiter::LineFeed, s[s.len() - 1]));
            }
        }
        let first = s.take(n);
        let rest = s.skip(n + 1);
        assert(single_line(first)) by {
            assert forall|i: int| 0 <= i < first.len() implies #[trigger] first[i] != '\n' by {
                assert(!delimits(Delimiter::LineFeed, s[i]));
            }
        }
        if rest.len() > 0 {
            assert(rest.last() == s.last());
        }
        lemma_append_line(rest, line);
        lemma_first_line(first, rest);
        assert(s =~= first + seq!['\n'] + rest);
        lemma_first_line(first, rest + line + seq!['\n']);
        assert(s + line + seq!['\n'] =~= first + seq!['\n'] + (rest + line + seq!['\n']));
        assert(seq![first] + lines(rest).push(line) =~= (seq![first] + lines(rest)).push(line));
    }
}

/// Writing lines and reading lines are inverse: a text made of lines that hold
/// no line feed has exactly these lines.
pub proof fn law_lines_read_back(content: Seq<Seq<char>>)
    requires
        forall|i: int| 0 <= i < content.len() ==> single_line(#[trigger] content[i]),
    ensures
        lines(text_of_lines(content)) == content,
    decreases content.len(),
{
    if content.len() == 0 {
        assert(lines(text_of_lines(content)) =~= content);
    } else {
        let before = content.drop_last();
        assert forall|i: int| 0 <= i < before.len() implies single_line(#[trigger] before[i]) by {
            assert(before[i] == content[i]);
        }
        law_lines_read_back(before);
        let t = text_of_lines(before);
        if before.len() > 0 {
            assert(t.last() == '\n');
        }
        lemma_append_line(t, content.last());
        assert(before.push(content.last()) =~= content);
    }
}

/// A supported algorithm is written without line feeds and colons.
proof fn lemma_algorithm_characters(s: Seq<char>)
    requires
        supported_algorithm(s),
    ensures
        forall|i: int| 0 <= i < s.len() ==> #[trigger] s[i] != '\n' && s[i] != ':',
{
    reveal_strlit("blake2b-512");
    reveal_strlit("blake2s-256");
    reveal_strlit("sha256");
    reveal_strlit("sha384");
    reveal_strlit("sha512");
    reveal_strlit("sha3-224");
    reveal_strlit("sha3-256");
    reveal_strlit("sha3-384");
    reveal_strlit("sha3-512");
    reveal_strlit("sm3");
    reveal_strlit("rmd160");
}

proof fn lemma_rule_is_single_line(hash: RootHashText)
    requires
        valid_hash(hash),
    ensures
        single_line(allow_rule(hash)),
{
    lemma_algorithm_characters(hash.0);
    reveal_strlit("op=EXECUTE dmverity_roothash=");
    reveal_strlit(":");
    reveal_strlit(" action=ALLOW");
    let a = "op=EXECUTE dmverity_roothash="@;
    let b = a + hash.0;
    let c = b + ":"@;
    let d = c + hash.1;
    let e = d + " action=ALLOW"@;
    assert(single_line(a));
    assert(single_line(b));
    assert(single_line(c));
    assert(single_line(d)) by {
        assert forall|i: int| 0 <= i < d.len() implies #[trigger] d[i] != '\n' by {
            if i >= c.len() {
                assert(d[i] == hash.1[i - c.len()]);
            } else {
                assert(d[i] == c[i]);
            }
        }
    }
    assert(single_line(e));
}

/// A rendered policy has no other lines than its head, one rule for each listed
/// root hash and the signature rule: no root hash can smuggle in a line.
pub proof fn law_policy_has_only_its_lines(listing: Seq<RootHashText>)
    requires
        forall|i: int| 0 <= i < listing.len() ==> valid_hash(#[trigger] listing[i]),
    ensures
        lines(text_of_lines(policy_lines(listing))) == policy_lines(listing),
{
    let content = policy_lines(listing);
    assert forall|i: int| 0 <= i < content.len() implies single_line(#[trigger] content[i]) by {
        if i < 3 {
            reveal_strlit("policy_name=kata_verity policy_version=0.0.0");
            reveal_strlit("DEFAULT action=ALLOW");
            reveal_strlit("DEFAULT op=EXECUTE action=DENY");
        } else if i < 3 + listing.len() {
            lemma_rule_is_single_line(listing[i - 3]);
        } else {
            reveal_strlit("op=EXECUTE dmverity_signature=TRUE action=ALLOW");
        }
    }
    law_lines_read_back(content);
}

proof fn lemma_rule_is_injective(a: RootHashText, b: RootHashText)
    requires
        supported_algorithm(a.0),
        supported_algorithm(b.0),
        allow_rule(a) == allow_rule(b),
    ensures
        a == b,
{
    lemma_algorithm_characters(a.0);
    lemma_algorithm_characters(b.0);
    reveal_strlit(":");
    let p = "op=EXECUTE dmverity_roothash="@;
    let q = " action=ALLOW"@;
    let n = p.len() as int;
    let x = allow_rule(a);
    let y = allow_rule(b);
    assert(x[n + a.0.len()] == ':');
    assert(y[n + b.0.len()] == ':');
    assert(forall|i: int| 0 <= i < a.0.len() ==> x[n + i] == #[trigger] a.0[i]);
    assert(forall|i: int| 0 <= i < b.0.len() ==> y[n + i] == #[trigger] b.0[i]);
    if a.0.len() < b.0.len() {
        assert(y[n + a.0.len()] == b.0[a.0.len() as int]);
    }
    if b.0.len() < a.0.len() {
        assert(x[n + b.0.len()] == a.0[b.0.len() as int]);
    }
    assert(a.0 =~= b.0);
    assert(x.len() == n + a.0.len() + 1 + a.1.len() + q.len());
    assert(y.len() == n + b.0.len() + 1 + b.1.len() + q.len());
    let m = n + a.0.len() + 1;
    assert forall|i: int| 0 <= i < a.1.len() implies a.1[i] == b.1[i] by {
        assert(x[m + i] == a.1[i]);
        assert(y[m + i] == b.1[i]);
    }
    assert(a.1 =~= b.1);
}

/// Execution from a device without a checked signature is allowed exactly for
/// the listed root hashes: the policy holds the rule for a root hash if and
/// only if the root hash is listed.
pub proof fn law_policy_allows_exactly_the_listed_hashes(
    listing: Seq<RootHashText>,
    hash: RootHashText,
)
    requires
        valid_hash(hash),
        forall|i: int| 0 <= i < listing.len() ==> valid_hash(#[trigger] listing[i]),
    ensures
        policy_lines(listing).contains(allow_rule(hash)) <==> listing.contains(hash),
{
    let content = policy_lines(listing);
    let rule = allow_rule(hash);
    if listing.contains(hash) {
        let i = choose|i: int| 0 <= i < listing.len() && listing[i] == hash;
        assert(content[i + 3] == rule);
    }
    if content.contains(rule) {
        let i = choose|i: int| 0 <= i < content.len() && content[i] == rule;
        reveal_strlit("op=EXECUTE dmverity_roothash=");
        assert(rule[0] == 'o');
        assert(rule[20] == 'r');
        if i < 3 {
            reveal_strlit("policy_name=kata_verity policy_version=0.0.0");
            reveal_strlit("DEFAULT action=ALLOW");
            reveal_strlit("DEFAULT op=EXECUTE action=DENY");
            assert(content[i][0] != 'o');
        } else if i < 3 + listing.len() {
            lemma_rule_is_injective(listing[i - 3], hash);
        } else {
            reveal_strlit("op=EXECUTE dmverity_signature=TRUE action=ALLOW");
            assert(content[i][20] == 's');
        }
    }
}

/// The policy depends on the elements of the set alone.
pub proof fn law_policy_is_determined_by_elements(a: &RootHashSet, b: &RootHashSet)
    requires
        a.wf(),
        b.wf(),
        a@ == b@,
    ensures
        policy_lines(a.listing()) == policy_lines(b.listing()),
{
    law_listing_is_determined_by_elements(a.listing(), b.listing());
}

proof fn lemma_policy_text_ends(content: Seq<Seq<char>>)
    requires
        content.len() > 0,
    ensures
        text_of_lines(content).len() > 0,
        text_of_lines(content).last() == '\n',
{
}

/// A policy read line by line: name and version, everything is allowed, but
/// execution is denied; then one line for each listed root hash, in the order of
/// the listing, that allows execution from its device; last the line that allows
/// execution from devices with a checked signature. A line feed ends the text.
pub proof fn law_policy_read_line_by_line(listing: Seq<RootHashText>)
    requires
        forall|i: int| 0 <= i < listing.len() ==> valid_hash(#[trigger] listing[i]),
    ensures
        ({
            let text = text_of_lines(policy_lines(listing));
            let content = lines(text);
            &&& text.last() as int == 0x0a
            &&& content.len() == listing.len() + 4
            &&& content[0] == "policy_name=kata_verity policy_version=0.0.0"@
            &&& content[1] == "DEFAULT action=ALLOW"@
            &&& content[2] == "DEFAULT op=EXECUTE action=DENY"@
            &&& forall|i: int|
                0 <= i < listing.len() ==> content[i + 3] == "op=EXECUTE dmverity_roothash="@ + (
                #[trigger] listing[i]).0 + ":"@ + listing[i].1 + " action=ALLOW"@
            &&& content.last() == "op=EXECUTE dmverity_signature=TRUE action=ALLOW"@
        }),
{
    law_policy_has_only_its_lines(listing);
    lemma_policy_text_ends(policy_lines(listing));
    let content = policy_lines(listing);
    assert(content[content.len() - 1] == signature_rule());
    assert forall|i: int| 0 <= i < listing.len() implies content[i + 3] == allow_rule(
        #[trigger] listing[i],
    ) by {
        assert(content[i + 3] == allow_rules(listing)[i]);
    }
}

/// `s` ends in `t`.
pub open spec fn ends_in(s: Seq<char>, t: Seq<char>) -> bool {
    s.len() >= t.len() && s.skip(s.len() - t.len()) == t
}

/// `s` starts with `t`.
pub open spec fn starts_with(s: Seq<char>, t: Seq<char>) -> bool {
    s.len() >= t.len() && s.take(t.len() as int) == t
}

/// Every line of a policy but the three of its head is about execution and
/// allows it: only the default denies.
pub proof fn law_every_rule_allows_execution(listing: Seq<RootHashText>, k: int)
    requires
        forall|i: int| 0 <= i < listing.len() ==> valid_hash(#[trigger] listing[i]),
        3 <= k < lines(text_of_lines(policy_lines(listing))).len(),
    ensures
        starts_with(lines(text_of_lines(policy_lines(listing)))[k], "op=EXECUTE "@),
        ends_in(lines(text_of_lines(policy_lines(listing)))[k], " action=ALLOW"@),
{
    law_policy_read_line_by_line(listing);
    let line = lines(text_of_lines(policy_lines(listing)))[k];
    reveal_strlit("op=EXECUTE ");
    reveal_strlit(" action=ALLOW");
    let head = "op=EXECUTE "@;
    let tail = " action=ALLOW"@;
    if k - 3 < listing.len() {
        reveal_strlit("op=EXECUTE dmverity_roothash=");
        let hash = listing[k - 3];
        let p = "op=EXECUTE dmverity_roothash="@;
        let n = p.len() + hash.0.len() + ":"@.len() + hash.1.len();
        assert(line.len() == n + tail.len());
        assert(line.skip(n as int) =~= tail);
        assert forall|i: int| 0 <= i < head.len() implies line[i] == head[i] by {
            assert(line[i] == p[i]);
        }
        assert(line.take(head.len() as int) =~= head);
    } else {
        reveal_strlit("op=EXECUTE dmverity_signature=TRUE action=ALLOW");
        assert(line == lines(text_of_lines(policy_lines(listing))).last());
        assert(line.take(head.len() as int) =~= head);
        assert(line.skip(line.len() - tail.len()) =~= tail);
    }
}

/// The policy for a command line lists exactly the root hashes that the command
/// line names, each once and in ascending order, and allows execution from each;
/// its count is their number, and it has four lines more.
pub proof fn law_policy_lists_what_the_cmdline_names(
    cmdline: Seq<char>,
    policy: Seq<char>,
    count: int,
)
    requires
        is_policy_for(cmdline, policy, count),
    ensures
        count > 0,
        count == cmdline_hashes(cmdline).len(),
        lines(policy).len() == count + 4,
        forall|hash: RootHashText| #[trigger]
            cmdline_hashes(cmdline).contains(hash) ==> lines(policy).contains(
                "op=EXECUTE dmverity_roothash="@ + hash.0 + ":"@ + hash.1 + " action=ALLOW"@,
            ),
        exists|listing: Seq<RootHashText>|
            {
                &&& #[trigger] ascending(listing)
                &&& listing.len() == count
                &&& forall|i: int|
                    0 <= i < count ==> cmdline_hashes(cmdline).contains(#[trigger] listing[i])
                        && lines(policy)[i + 3] == "op=EXECUTE dmverity_roothash="@ + listing[i].0
                        + ":"@ + listing[i].1 + " action=ALLOW"@
            },
{
    let listing = choose|listing: Seq<RootHashText>|
        {
            &&& #[trigger] ascending(listing)
            &&& listing.to_set() == cmdline_hashes(cmdline)
            &&& policy == text_of_lines(policy_lines(listing))
        };
    assert forall|i: int| 0 <= i < listing.len() implies valid_hash(#[trigger] listing[i]) by {
        assert(listing.to_set().contains(listing[i]));
        law_cmdline_hashes_are_valid(cmdline, listing[i]);
    }
    law_policy_read_line_by_line(listing);
    lemma_ascending_is_distinct(listing);
    listing.unique_seq_to_set();
    assert forall|hash: RootHashText| #[trigger]
        cmdline_hashes(cmdline).contains(hash) implies lines(policy).contains(
        "op=EXECUTE dmverity_roothash="@ + hash.0 + ":"@ + hash.1 + " action=ALLOW"@,
    ) by {
        assert(listing.to_set().contains(hash));
        let i = choose|i: int| 0 <= i < listing.len() && listing[i] == hash;
        assert(lines(policy)[i + 3] == "op=EXECUTE dmverity_roothash="@ + listing[i].0 + ":"@
            + listing[i].1 + " action=ALLOW"@);
    }
    assert forall|i: int| 0 <= i < count implies cmdline_hashes(cmdline).contains(
        #[trigger] listing[i],
    ) && lines(policy)[i + 3] == "op=EXECUTE dmverity_roothash="@ + listing[i].0 + ":"@ + listing[i].1
        + " action=ALLOW"@ by {
        assert(listing.to_set().contains(listing[i]));
    }
}

} // verus!
