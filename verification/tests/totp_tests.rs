use nicodl::compute_totp;

#[test]
fn test_totp() {
    let k = b"12345678901234567890";
    let time_list: [u64; 6] = [
        59,
        1111111109,
        1111111111,
        1234567890,
        2000000000,
        20000000000,
    ];
    let expected: [&str; 6] = [
        "94287082", "07081804", "14050471", "89005924", "69279037", "65353130",
    ];
    let period = 30;
    let t0 = 0;
    for (t, e) in time_list.iter().zip(expected) {
        assert_eq!(&compute_totp(k, *t, period, t0, 8), e);
    }
}

#[test]
fn totp_pads_with_leading_zeros() {
    // Six-digit codes keep their leading zeros.
    let code = compute_totp(b"12345678901234567890", 1111111109, 30, 0, 6);
    assert_eq!(code.len(), 6);
    assert_eq!(code, "081804");
}
