use dfe_core::errors::CoreError;
use dfe_core::shamir::recover;
use dfe_core::shamir::split;
use dfe_core::shamir::ShamirShare;

#[test]
fn split_shapes_shares() {
    let shares = split(&[1, 2, 3, 4], 3, 5).unwrap();
    assert_eq!(shares.len(), 5);
    for (i, s) in shares.iter().enumerate() {
        assert_eq!(s.index as usize, i + 1);
        assert_eq!(s.value.len(), 4);
    }
}

#[test]
fn recover_from_first_threshold_shares() {
    let shares = split(&[1, 2, 3, 4], 3, 5).unwrap();
    let picked: Vec<ShamirShare> = shares.into_iter().take(3).collect();
    assert_eq!(recover(3, &picked).unwrap(), vec![1, 2, 3, 4]);
}

#[test]
fn recover_from_any_threshold_shares() {
    let secret = [0xde, 0xad, 0xbe, 0xef, 0x42];
    let mut shares = split(&secret, 3, 5).unwrap();
    // Keep shares 5, 3 and 1, in that order.
    shares.remove(3);
    shares.remove(1);
    shares.reverse();
    let recovered = recover(3, &shares).unwrap();
    assert_eq!(recovered, secret.to_vec());
}

#[test]
fn recover_ignores_shares_past_the_threshold() {
    let secret = [7, 7, 7];
    let shares = split(&secret, 2, 4).unwrap();
    assert_eq!(recover(2, &shares).unwrap(), secret.to_vec());
}

#[test]
fn recover_below_threshold_is_insufficient() {
    let shares = split(&[1, 2, 3, 4], 3, 5).unwrap();
    let picked: Vec<ShamirShare> = shares.into_iter().take(2).collect();
    assert_eq!(recover(3, &picked), Err(CoreError::InsufficientShares));
}

#[test]
fn recover_duplicate_index_is_malformed() {
    let shares = split(&[1, 2, 3, 4], 3, 5).unwrap();
    let duplicated = vec![
        shares[0].clone(),
        shares[0].clone(),
        shares[1].clone(),
    ];
    assert_eq!(recover(3, &duplicated), Err(CoreError::MalformedShare));
}

#[test]
fn recover_inconsistent_lengths_is_malformed() {
    let shares = split(&[1, 2, 3, 4], 2, 3).unwrap();
    let mixed = vec![
        shares[0].clone(),
        ShamirShare { index: 9, value: vec![1] },
    ];
    assert_eq!(recover(2, &mixed), Err(CoreError::MalformedShare));
}

#[test]
fn recover_zero_threshold_is_invalid() {
    let shares = split(&[1, 2], 2, 3).unwrap();
    assert_eq!(recover(0, &shares), Err(CoreError::InvalidInput));
}

#[test]
fn recover_zero_index_share_is_malformed() {
    let bad = vec![
        ShamirShare { index: 0, value: vec![1, 2] },
        ShamirShare { index: 1, value: vec![3, 4] },
    ];
    assert_eq!(recover(1, &bad), Err(CoreError::MalformedShare));
}

#[test]
fn split_rejects_bad_parameters() {
    assert_eq!(split(&[1], 0, 3).err(), Some(CoreError::InvalidInput));
    assert_eq!(split(&[1], 4, 3).err(), Some(CoreError::InvalidInput));
    assert_eq!(split(&[1], 1, 256).err(), Some(CoreError::InvalidInput));
    assert_eq!(split(&[], 2, 3).err(), Some(CoreError::InvalidInput));
}

#[test]
fn sub_threshold_shares_reveal_nothing_through_recovery() {
    // Two different secrets; any single share of either dealing is refused
    // below the threshold, so no recovery output distinguishes them.
    let a = split(&[0x00, 0x00], 2, 3).unwrap();
    let b = split(&[0xff, 0xff], 2, 3).unwrap();
    for s in a.into_iter().chain(b.into_iter()) {
        let one = vec![s];
        assert_eq!(recover(2, &one), Err(CoreError::InsufficientShares));
    }
}

#[test]
fn share_bytes_round_trip() {
    let share = ShamirShare { index: 17, value: vec![1, 2, 3] };
    let bytes = share.to_bytes();
    assert_eq!(bytes, vec![17, 1, 2, 3]);
    let back = ShamirShare::from_bytes(&bytes).unwrap();
    assert_eq!(back.index, 17);
    assert_eq!(back.value, vec![1, 2, 3]);
}

#[test]
fn share_hex_round_trip() {
    let share = ShamirShare { index: 1, value: vec![0xab, 0xcd] };
    let hex = share.to_hex();
    assert_eq!(hex, b"01abcd".to_vec());
    let back = ShamirShare::from_hex(&hex).unwrap();
    assert_eq!(back.index, 1);
    assert_eq!(back.value, vec![0xab, 0xcd]);
}

#[test]
fn share_from_bytes_rejects_bad_forms() {
    assert_eq!(ShamirShare::from_bytes(&[]).err(), Some(CoreError::MalformedShare));
    assert_eq!(ShamirShare::from_bytes(&[1]).err(), Some(CoreError::MalformedShare));
    assert_eq!(ShamirShare::from_bytes(&[0, 1]).err(), Some(CoreError::MalformedShare));
}

#[test]
fn share_from_hex_rejects_bad_hex() {
    assert_eq!(ShamirShare::from_hex(b"0").err(), Some(CoreError::InvalidInput));
    assert_eq!(ShamirShare::from_hex(b"zz01").err(), Some(CoreError::InvalidInput));
    assert_eq!(ShamirShare::from_hex(b"0001").err(), Some(CoreError::MalformedShare));
}
