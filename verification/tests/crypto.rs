use dimpl::crypto::{Dtls12CipherSuite, Dtls13CipherSuite};
use radio_core::crypto::{
    bits, cipher_key, clear_length, hmac, input_fits, join_parts, key_bits, round_blocks,
    sealed_length, sha1_hmac, sha256, signature_length, signing_hash, srtp_aes_128_ecb_round,
    srtp_aes_256_ecb_round, takes_dtls12_suite, takes_dtls13_suite, takes_parts, verify_plan,
    verify_with_group, Key, Profile, ProfileCall, VerifyError, VerifyPlan, ECDSA, SECP256R1,
    SECP384R1, SHA256, SHA384,
};

// A self-signed test certificate on P-256.
const P256_CERTIFICATE: [u8; 458] = [
    48, 130, 1, 198, 48, 130, 1, 107, 160, 3, 2, 1, 2, 2, 20, 24,
    1, 210, 133, 19, 25, 22, 38, 210, 37, 108, 18, 236, 47, 19, 219, 232,
    193, 109, 85, 48, 10, 6, 8, 42, 134, 72, 206, 61, 4, 3, 2, 48,
    55, 49, 24, 48, 22, 6, 3, 85, 4, 3, 12, 15, 100, 105, 109, 112,
    108, 45, 116, 101, 115, 116, 45, 112, 50, 53, 54, 49, 14, 48, 12, 6,
    3, 85, 4, 10, 12, 5, 100, 105, 109, 112, 108, 49, 11, 48, 9, 6,
    3, 85, 4, 6, 19, 2, 85, 83, 48, 32, 23, 13, 50, 53, 49, 49,
    50, 51, 48, 57, 52, 56, 48, 54, 90, 24, 15, 50, 49, 50, 53, 49,
    48, 51, 48, 48, 57, 52, 56, 48, 54, 90, 48, 55, 49, 24, 48, 22,
    6, 3, 85, 4, 3, 12, 15, 100, 105, 109, 112, 108, 45, 116, 101, 115,
    116, 45, 112, 50, 53, 54, 49, 14, 48, 12, 6, 3, 85, 4, 10, 12,
    5, 100, 105, 109, 112, 108, 49, 11, 48, 9, 6, 3, 85, 4, 6, 19,
    2, 85, 83, 48, 89, 48, 19, 6, 7, 42, 134, 72, 206, 61, 2, 1,
    6, 8, 42, 134, 72, 206, 61, 3, 1, 7, 3, 66, 0, 4, 137, 9,
    108, 72, 201, 86, 124, 137, 199, 2, 242, 143, 145, 136, 10, 124, 101, 175,
    68, 80, 145, 11, 152, 187, 248, 99, 185, 3, 71, 220, 219, 181, 183, 29,
    53, 213, 12, 143, 202, 232, 52, 225, 241, 10, 219, 17, 81, 56, 81, 106,
    199, 101, 127, 89, 222, 124, 233, 229, 98, 199, 82, 57, 25, 171, 163, 83,
    48, 81, 48, 29, 6, 3, 85, 29, 14, 4, 22, 4, 20, 250, 129, 24,
    201, 232, 111, 215, 88, 1, 95, 212, 18, 99, 5, 191, 218, 88, 193, 65,
    194, 48, 31, 6, 3, 85, 29, 35, 4, 24, 48, 22, 128, 20, 250, 129,
    24, 201, 232, 111, 215, 88, 1, 95, 212, 18, 99, 5, 191, 218, 88, 193,
    65, 194, 48, 15, 6, 3, 85, 29, 19, 1, 1, 255, 4, 5, 48, 3,
    1, 1, 255, 48, 10, 6, 8, 42, 134, 72, 206, 61, 4, 3, 2, 3,
    73, 0, 48, 70, 2, 33, 0, 187, 122, 86, 62, 100, 133, 99, 244, 27,
    171, 151, 20, 18, 64, 115, 222, 0, 28, 35, 160, 188, 234, 132, 69, 173,
    253, 35, 199, 250, 105, 209, 72, 2, 33, 0, 147, 109, 83, 41, 139, 248,
    91, 189, 58, 144, 131, 162, 141, 253, 212, 170, 128, 240, 206, 157, 2, 26,
    207, 72, 174, 214, 0, 213, 139, 235, 165, 253,
];

fn hex(text: &str) -> Vec<u8> {
    (0..text.len() / 2).map(|i| u8::from_str_radix(&text[2 * i..2 * i + 2], 16).unwrap()).collect()
}

#[test]
fn keys_have_sixteen_or_thirty_two_bytes() {
    let bytes: Vec<u8> = (1..=32).collect();
    for length in 0..=32 {
        match Key::new(&bytes[..length]) {
            Some(key) => {
                assert!(length == 16 || length == 32);
                assert_eq!(key.bytes(), &bytes[..length]);
                assert_eq!(key.describe(), "AesKey { .. }");
            }
            None => assert!(length != 16 && length != 32),
        }
    }
    assert!(cipher_key(&bytes[..16], 16).is_some());
    assert!(cipher_key(&bytes[..16], 32).is_none());
    assert!(cipher_key(&bytes[..24], 24).is_none());
}

#[test]
fn digests_fall_back_to_the_portable_ones() {
    let abc = hex("ba7816bf8f01cfea414140de5dae2223b00361a396177a9cb410ff61f20015ad");
    assert_eq!(sha256(b"abc", None).to_vec(), abc);
    assert_eq!(sha256(b"abc", Some([7; 32])), [7; 32]);
    let mac = hex("effcdf6ae5eb2fa2d27416d5f184df9c259a7c79");
    assert_eq!(sha1_hmac(b"Jefe", &[b"what do ya want ", b"for nothing?"], None).to_vec(), mac);
    assert_eq!(sha1_hmac(b"Jefe", &[b"what do ya want for nothing?"], None).to_vec(), mac);
    assert_eq!(sha1_hmac(b"Jefe", &[], Some([1; 20])), [1; 20]);
    assert!(takes_parts(8) && !takes_parts(9));
}

#[test]
fn codes_are_written_in_front_of_the_room() {
    let mut out = [9; 64];
    let message = b"what do ya want for nothing?";
    assert_eq!(hmac(SHA256, b"Jefe", message, false, &mut out), Some(32));
    assert_eq!(
        out[..32].to_vec(),
        hex("5bdcc146bf60754e6a042426089575c75a003f089d2739839dec58b964ec3843")
    );
    assert_eq!(out[32..], [9; 32]);
    assert_eq!(hmac(SHA384, b"Jefe", message, false, &mut out), Some(48));
    assert_eq!(out[..4], hex("af45d2e3")[..]);
    let mut native = [5; 64];
    assert_eq!(hmac(SHA384, b"Jefe", message, true, &mut native), Some(48));
    assert_eq!(native, [5; 64]);
    assert_eq!(hmac(2, b"Jefe", message, true, &mut native), None);
    assert_eq!(native, [5; 64]);
    assert_eq!((bits(SHA256), bits(SHA384), bits(6)), (Some(256), Some(384), None));
}

#[test]
fn rounds_encrypt_a_block_and_its_padding() {
    let key: Vec<u8> = (0..16).collect();
    let input = hex("00112233445566778899aabbccddeeff");
    let mut out = [1; 40];
    srtp_aes_128_ecb_round(&key, &input, None, &mut out);
    assert_eq!(out[..16].to_vec(), hex("69c4e0d86a7b0430d8cdb78070b4c55a"));
    assert_eq!(out[16..32].to_vec(), hex("954f64f2e4e86e9eee82d20216684899"));
    assert_eq!(out[32..], [1; 8]);
    let long: Vec<u8> = (0..32).collect();
    srtp_aes_256_ecb_round(&long, &input, None, &mut out);
    assert_eq!(out[..16].to_vec(), hex("8ea2b7ca516745bfeafc49904b496089"));
    let (first, padding) = round_blocks(&input, 32).unwrap();
    assert_eq!((first.to_vec(), padding), (input.clone(), [0x10; 16]));
    assert!(round_blocks(&input[..15], 32).is_none());
    assert!(round_blocks(&input, 31).is_none());
    srtp_aes_128_ecb_round(&key, &input, Some(([2; 16], [3; 16])), &mut out);
    srtp_aes_256_ecb_round(&long, &input, Some(([2; 16], [3; 16])), &mut out);
    assert_eq!((out[0], out[15], out[16], out[31], out[32]), (2, 2, 3, 3, 1));
}

#[test]
fn records_have_room_for_their_tag() {
    assert_eq!(sealed_length(0), Some(16));
    assert_eq!(sealed_length(16_384), Some(16_400));
    assert_eq!(sealed_length(16_385), None);
    assert_eq!(clear_length(16_400), Some(16_384));
    assert_eq!(clear_length(16), Some(0));
    assert_eq!(clear_length(15), None);
    assert_eq!(join_parts(&[b"ab", b"", b"c"]), b"abc");
    assert_eq!(join_parts(&[]), b"");
    assert!(input_fits(4, 4) && !input_fits(5, 4));
}

#[test]
fn native_keys_and_signatures_are_checked() {
    assert_eq!(key_bits(0, 256), Some(256));
    assert_eq!(key_bits(0, 384), Some(384));
    assert_eq!(key_bits(0, 521), None);
    assert_eq!(key_bits(-1, 256), None);
    assert_eq!((signing_hash(256), signing_hash(384)), (SHA256, SHA384));
    assert_eq!(signature_length(0, 72, 128), Some(72));
    assert_eq!(signature_length(0, 0, 128), None);
    assert_eq!(signature_length(0, 129, 128), None);
    assert_eq!(signature_length(1, 72, 128), None);
}

#[test]
fn signatures_are_checked_by_known_schemes() {
    for group in [SECP256R1, SECP384R1] {
        for (hash, bits) in [(SHA256, 256), (SHA384, 384)] {
            assert_eq!(
                verify_with_group(Some(group), hash, ECDSA),
                Ok(VerifyPlan { group, bits })
            );
        }
        assert_eq!(verify_with_group(Some(group), SHA256, 1), Err(VerifyError::Scheme(group)));
        assert_eq!(verify_with_group(Some(group), 6, ECDSA), Err(VerifyError::Scheme(group)));
    }
    assert_eq!(verify_with_group(Some(29), SHA256, ECDSA), Err(VerifyError::Scheme(29)));
    assert_eq!(verify_with_group(None, SHA256, ECDSA), Err(VerifyError::Certificate));
    assert_eq!(
        verify_plan(&P256_CERTIFICATE, SHA384, ECDSA),
        Ok(VerifyPlan { group: SECP256R1, bits: 384 })
    );
    assert_eq!(verify_plan(&P256_CERTIFICATE, SHA256, 1), Err(VerifyError::Scheme(SECP256R1)));
    assert_eq!(verify_plan(&P256_CERTIFICATE[..20], SHA256, ECDSA), Err(VerifyError::Certificate));
}

#[test]
fn profiles_warm_up_measure_once_and_are_done() {
    let mut profile = Profile::Waiting;
    let mut calls = Vec::new();
    for now in [0, 4_999_999, 5_000_000, 34_999_999, 35_000_000, 99_000_000] {
        let (next, call) = profile.tick(now);
        profile = next;
        calls.push(call);
    }
    assert_eq!(
        calls,
        [
            ProfileCall::Nothing,
            ProfileCall::Nothing,
            ProfileCall::Start,
            ProfileCall::Nothing,
            ProfileCall::Finish,
            ProfileCall::Nothing
        ]
    );
    assert_eq!(profile, Profile::Complete);
}

#[test]
fn profiles_tick_up_to_the_end_of_the_clock() {
    let end = u64::MAX;
    assert_eq!(Profile::Complete.tick(end), (Profile::Complete, ProfileCall::Nothing));
    assert_eq!(Profile::Measuring(end).tick(end), (Profile::Complete, ProfileCall::Finish));
    assert_eq!(Profile::Warmup(end).tick(end - 1), (Profile::Warmup(end), ProfileCall::Nothing));
    assert_eq!(
        Profile::Waiting.tick(end - 5_000_000),
        (Profile::Warmup(end), ProfileCall::Nothing)
    );
}

#[test]
fn the_hardware_takes_over_the_aes_suites() {
    assert!(takes_dtls12_suite(Dtls12CipherSuite::ECDHE_ECDSA_AES128_GCM_SHA256.as_u16()));
    assert!(takes_dtls12_suite(Dtls12CipherSuite::ECDHE_ECDSA_AES256_GCM_SHA384.as_u16()));
    assert!(!takes_dtls12_suite(Dtls12CipherSuite::ECDHE_ECDSA_CHACHA20_POLY1305_SHA256.as_u16()));
    assert!(takes_dtls13_suite(Dtls13CipherSuite::AES_128_GCM_SHA256.as_u16()));
    assert!(takes_dtls13_suite(Dtls13CipherSuite::AES_256_GCM_SHA384.as_u16()));
    assert!(!takes_dtls13_suite(Dtls13CipherSuite::CHACHA20_POLY1305_SHA256.as_u16()));
}
