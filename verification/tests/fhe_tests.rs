use tfhe_regex::{gen_keys, EncodedCipher2bits, EncodedCipherTrait, LimbWidth};

// The round-trip below is the one homomorphic test that fits the harness's
// per-test time against an unoptimised build of the back end: key
// generation plus limb encryptions and decryptions, no bootstraps.  A
// single homomorphic comparison already costs several bootstraps and does
// not finish in time, so the comparison and machine paths are covered by
// their verified contracts and by the plaintext-machine tests.

#[test]
fn check_encrypt_decrypt() {
    let (client_key, _server_key) = gen_keys(LimbWidth::TwoBits);
    for value in [1_u8, 245_u8, 56_u8, 67_u8, 23_u8, 69_u8, 52_u8, 123_u8, 59_u8] {
        let cipher = EncodedCipher2bits::encrypt(&client_key, value);
        let result = cipher.decrypt(&client_key);
        assert!(value == result);
    }
}
