use guest_integrity::policy::{policy_for_cmdline, render_policy, PolicyError};
use guest_integrity::root_hash::{
    add_hash, hashes_from_kernel_cmdline, is_hex_digest, is_supported_digest_algorithm, RootHashSet,
};

fn hash(algorithm: &str, digest: &str) -> (String, String) {
    (algorithm.to_string(), digest.to_string())
}

#[test]
fn parse_rootfs_and_extension_hashes() {
    let root = "aa".repeat(32);
    let extension = "bb".repeat(32);
    let cmdline = format!(
        "dm-mod.create=\"dm-verity,,,ro,0 8 verity 1 /dev/vda1 /dev/vda2 4096 4096 1 0 sha256 {root} -\" kata.extension.gpu.verity_params=root_hash={extension},salt=-"
    );
    let hashes = hashes_from_kernel_cmdline(&cmdline);

    assert!(hashes.contains(&("sha256".to_string(), root)));
    assert!(hashes.contains(&("sha256".to_string(), extension)));
}

#[test]
fn policy_only_denies_untrusted_execution() {
    let mut hashes = RootHashSet::new();
    hashes.insert(("sha256".to_string(), "ab".repeat(32)));
    let policy = render_policy(&hashes).unwrap();

    assert!(policy.contains("DEFAULT action=ALLOW"));
    assert!(policy.contains("DEFAULT op=EXECUTE action=DENY"));
    assert!(policy.contains("dmverity_roothash=sha256:"));
    assert!(policy.contains("dmverity_signature=TRUE"));
}

#[test]
fn policy_text_is_exact() {
    let mut hashes = RootHashSet::new();
    assert!(hashes.insert(hash("sha512", "cd")));
    assert!(hashes.insert(hash("sha256", "ef")));
    assert!(hashes.insert(hash("sha256", "0a")));
    assert!(!hashes.insert(hash("sha256", "ef")));
    assert_eq!(
        render_policy(&hashes).unwrap(),
        "policy_name=kata_verity policy_version=0.0.0\n\
         DEFAULT action=ALLOW\n\
         DEFAULT op=EXECUTE action=DENY\n\
         op=EXECUTE dmverity_roothash=sha256:0a action=ALLOW\n\
         op=EXECUTE dmverity_roothash=sha256:ef action=ALLOW\n\
         op=EXECUTE dmverity_roothash=sha512:cd action=ALLOW\n\
         op=EXECUTE dmverity_signature=TRUE action=ALLOW\n"
    );
}

#[test]
fn policy_is_the_same_in_any_order_of_insertion() {
    let mut forward = RootHashSet::new();
    forward.insert(hash("sm3", "01"));
    forward.insert(hash("rmd160", "02"));
    let mut backward = RootHashSet::new();
    backward.insert(hash("rmd160", "02"));
    backward.insert(hash("sm3", "01"));
    assert_eq!(render_policy(&forward), render_policy(&backward));
}

#[test]
fn policy_without_hashes_is_refused() {
    assert_eq!(render_policy(&RootHashSet::new()), Err(PolicyError::NoRootHash));
    assert_eq!(policy_for_cmdline("console=ttyS0 quiet"), Err(PolicyError::NoRootHash));
}

#[test]
fn policy_with_an_invalid_hash_is_refused() {
    let mut hashes = RootHashSet::new();
    hashes.insert(hash("sha256", "ab"));
    hashes.insert(hash("sha1", "ab"));
    assert_eq!(render_policy(&hashes), Err(PolicyError::InvalidRootHash));
    let mut odd = RootHashSet::new();
    odd.insert(hash("sha256", "abc"));
    assert_eq!(render_policy(&odd), Err(PolicyError::InvalidRootHash));
}

#[test]
fn policy_allows_exactly_the_listed_hashes() {
    let (policy, count) =
        policy_for_cmdline("a.root_hash=ABCD b.root_hash=0123, c.root_hash=abcd").unwrap();
    assert_eq!(count, 2);
    let allowed: Vec<&str> = policy
        .lines()
        .filter(|line| line.contains("dmverity_roothash="))
        .collect();
    assert_eq!(
        allowed,
        vec![
            "op=EXECUTE dmverity_roothash=sha256:0123 action=ALLOW",
            "op=EXECUTE dmverity_roothash=sha256:abcd action=ALLOW",
        ]
    );
    assert_eq!(policy.lines().count(), 6);
}

#[test]
fn hex_digests_have_an_even_number_of_digits() {
    assert!(is_hex_digest("0aF9"));
    assert!(!is_hex_digest(""));
    assert!(!is_hex_digest("abc"));
    assert!(!is_hex_digest("0g"));
    assert!(!is_hex_digest("\u{e9}"));
}

#[test]
fn digest_algorithms_are_listed() {
    for name in [
        "blake2b-512",
        "blake2s-256",
        "sha256",
        "sha384",
        "sha512",
        "sha3-224",
        "sha3-256",
        "sha3-384",
        "sha3-512",
        "sm3",
        "rmd160",
    ] {
        assert!(is_supported_digest_algorithm(name));
    }
    for name in ["", "SHA256", "sha1", "sha256 ", "md5"] {
        assert!(!is_supported_digest_algorithm(name));
    }
}

#[test]
fn added_hashes_are_trimmed_and_lowercase() {
    let mut hashes = RootHashSet::new();
    add_hash(&mut hashes, "SHA384", ",'\"AbCd\"',");
    assert_eq!(hashes.len(), 1);
    assert_eq!(hashes.get(0), &hash("sha384", "abcd"));
    add_hash(&mut hashes, "md5", "abcd");
    add_hash(&mut hashes, "sha256", "a,b");
    assert_eq!(hashes.len(), 1);
    assert!(!hashes.is_empty());
}

#[test]
fn cmdline_target_needs_all_its_words() {
    let complete = "verity 1 d h 4096 4096 1 0 SHA512 AA";
    let hashes = hashes_from_kernel_cmdline(complete);
    assert_eq!(hashes.len(), 1);
    assert!(hashes.contains(&hash("sha512", "aa")));
    assert!(hashes_from_kernel_cmdline("verity 1 d h 4096 4096 1 0 sha512").is_empty());
    assert!(hashes_from_kernel_cmdline("\"verity\" 1 d h 4096 4096 1 0 sha512 bb,")
        .contains(&hash("sha512", "bb")));
    assert!(hashes_from_kernel_cmdline("xverity 1 d h 4096 4096 1 0 sha512 bb").is_empty());
}

#[test]
fn cmdline_parameter_ends_at_comma_quote_or_space() {
    for end in [",x", " x", "\"x", "\tx", "\nx", ""] {
        let hashes = hashes_from_kernel_cmdline(&format!("\u{fc}root_hash=ab{end}"));
        assert_eq!(hashes.len(), 1);
        assert_eq!(hashes.get(0), &hash("sha256", "ab"));
    }
    assert!(hashes_from_kernel_cmdline("root_hash=").is_empty());
    assert!(hashes_from_kernel_cmdline("root_hash=ab;cd").is_empty());
    let nested = hashes_from_kernel_cmdline("root_hash=root_hash=ab");
    assert_eq!(nested.len(), 1);
}
