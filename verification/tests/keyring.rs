use guest_integrity::keyring::{find_dm_verity_keyring, parse_dm_verity_keyring_id};

#[test]
fn parse_dm_verity_keyring() {
    let keys = "1a2b3c4d I------ 1 perm 3f010000 0 0 keyring .dm-verity: empty\n";
    assert_eq!(parse_dm_verity_keyring_id(keys), Some(0x1a2b3c4d));
}

#[test]
fn first_dm_verity_keyring_counts() {
    let keys = "00000001 I------ 1 perm 3f010000 0 0 keyring .other: empty\n\
                00000002 I------ 1 perm 3f010000 0 0 user .dm-verity: 4\n\
                zz I------ 1 perm 3f010000 0 0 keyring .dm-verity: empty\n\
                short line\n\
                \n\
                fFfFfFfF I------ 1 perm 3f010000 0 0 keyring .dm-verity::\n\
                00000003 I------ 1 perm 3f010000 0 0 keyring .dm-verity: empty\n";
    assert_eq!(parse_dm_verity_keyring_id(keys), Some(0xffff_ffff));
    assert!(matches!(find_dm_verity_keyring(keys), Ok(0xffff_ffff)));
}

#[test]
fn keyring_may_be_missing() {
    assert_eq!(parse_dm_verity_keyring_id(""), None);
    let keys = "1a2b3c4d I------ 1 perm 3f010000 0 0 keyring\n";
    assert_eq!(parse_dm_verity_keyring_id(keys), None);
    assert!(find_dm_verity_keyring(keys).is_err());
    let named_otherwise = "1a2b3c4d I------ 1 perm 3f010000 0 0 keyring :.dm-verity:\n";
    assert_eq!(parse_dm_verity_keyring_id(named_otherwise), None);
}

#[test]
fn serial_numbers_are_hexadecimal_and_fit_into_four_bytes() {
    let line = |serial: &str| format!("{serial} I 1 perm 3f 0 0 keyring .dm-verity: empty");
    assert_eq!(parse_dm_verity_keyring_id(&line("100000000")), None);
    assert_eq!(parse_dm_verity_keyring_id(&line("00000000010")), Some(16));
    assert_eq!(parse_dm_verity_keyring_id(&line("+1f")), Some(31));
    assert_eq!(parse_dm_verity_keyring_id(&line("-1f")), None);
    assert_eq!(parse_dm_verity_keyring_id(&line("+")), None);
}
