use mkem::decryption::{all_small, measure_noise};
use mkem::pke::{
    decrypt, encrypt_recipient, encrypt_shared, expand_matrix_entry, expand_noise, keygen,
};
use mkem::theorems::round_trip_is_sure;
use mkem::xof::hash_tagged;
use mkem::{
    dec, decapsulate, encapsulate_message, keypair_from_coins, KeyPair, PublicKey, Seed,
};

fn fingerprint(bytes: &[u8]) -> u64 {
    let mut h: u64 = 0xcbf29ce484222325;
    for b in bytes {
        h ^= *b as u64;
        h = h.wrapping_mul(0x100000001b3);
    }
    h
}

fn seed() -> Seed {
    let mut s = [0u8; 16];
    for j in 0..16 {
        s[j] = j as u8;
    }
    s
}

fn coins(i: usize) -> [u8; 32] {
    let mut c = [0u8; 32];
    for j in 0..32 {
        c[j] = ((i * 7 + j) % 256) as u8;
    }
    c
}

fn rejection_value(i: usize) -> [u8; 16] {
    let mut z = [0u8; 16];
    for j in 0..16 {
        z[j] = ((i * 11 + 3 * j) % 256) as u8;
    }
    z
}

fn message() -> [u8; 16] {
    let mut m = [0u8; 16];
    for j in 0..16 {
        m[j] = ((5 * j + 1) % 256) as u8;
    }
    m
}

fn keypair(i: usize) -> KeyPair {
    keypair_from_coins(&seed(), &coins(i), &rejection_value(i))
}

const SECRET: [u8; 16] = [
    0, 191, 197, 245, 241, 137, 14, 70, 246, 150, 214, 188, 42, 20, 4, 6,
];

#[test]
fn hash_is_shake256_of_tag_and_data() {
    let out: [u8; 16] = hash_tagged(4, b"abc");
    assert_eq!(
        out,
        [145, 188, 106, 235, 129, 254, 84, 202, 219, 149, 235, 161, 130, 141, 214, 146]
    );
}

#[test]
fn hash_output_grows_with_the_length_asked_for() {
    let short: [u8; 16] = hash_tagged(4, b"abc");
    let long: [u8; 32] = hash_tagged(4, b"abc");
    assert_eq!(short[..], long[..16]);
    assert_ne!(long[..16], long[16..]);
}

#[test]
fn noise_expands_from_coins() {
    let s = expand_noise(&coins(1), 0);
    assert_eq!(s.len(), 256);
    assert_eq!(
        s[..16],
        [3328, 0, 0, 0, 0, 3328, 3328, 0, 0, 0, 3328, 3327, 1, 1, 0, 1]
    );
    assert_ne!(s, expand_noise(&coins(1), 1));
}

#[test]
fn matrix_expands_from_seed() {
    let a01 = expand_matrix_entry(&seed(), 0, 1);
    let a10 = expand_matrix_entry(&seed(), 1, 0);
    assert_eq!(a01.len(), 256);
    assert_eq!(a01[..8], [237, 716, 1047, 2264, 1977, 2433, 3282, 1078]);
    assert_eq!(a10[..8], [2527, 3301, 3253, 1702, 2942, 3100, 2710, 718]);
    assert!(a01.iter().all(|c| *c < 3329));
}

#[test]
fn keypair_from_coins_known_answer() {
    let kp = keypair(1);
    assert_eq!(kp.pk[..8], [57, 192, 203, 204, 177, 138, 31, 202]);
    assert_eq!(fingerprint(&kp.pk), 0x2aafeb8e066390a3);
    assert_eq!(kp.sk[..8], [0, 13, 0, 0, 0, 0, 0, 0]);
    assert_eq!(
        kp.sk[760..776],
        [0, 208, 0, 0, 208, 0, 32, 0, 0, 1, 2, 3, 4, 5, 6, 7]
    );
    assert_eq!(fingerprint(&kp.sk), 0xbbefee04cfe8cc8d);

    let kp = keypair(2);
    assert_eq!(fingerprint(&kp.pk), 0x6b584e6b3ac5ec97);
    assert_eq!(fingerprint(&kp.sk), 0xa337686f7104f194);

    let kp = keypair(3);
    assert_eq!(fingerprint(&kp.pk), 0x0c9d502dfdfa4fef);
    assert_eq!(fingerprint(&kp.sk), 0x140c34916b65294c);
}

#[test]
fn secret_key_holds_decryption_key_seed_and_rejection_value() {
    let kp = keypair(1);
    let keys = keygen(&seed(), &coins(1));
    assert_eq!(kp.pk, keys.0);
    assert_eq!(kp.sk[..768], keys.1[..]);
    assert_eq!(kp.sk[768..784], seed()[..]);
    assert_eq!(kp.sk[784..], rejection_value(1)[..]);
}

#[test]
fn encapsulate_message_known_answer() {
    let pks: Vec<PublicKey> = (1..4).map(|i| keypair(i).pk).collect();
    let e = encapsulate_message(&seed(), &pks, &message());

    assert_eq!(e.cti[..8], [14, 211, 166, 153, 139, 101, 199, 34]);
    assert_eq!(fingerprint(&e.cti), 0xfb1cc8ce61bd4324);
    assert_eq!(e.ctds.len(), 3);
    assert_eq!(
        e.ctds[0],
        [
            186, 52, 50, 3, 146, 29, 45, 120, 140, 131, 204, 198, 71, 64, 61, 223, 19, 55, 226,
            94, 168, 62, 201, 253, 187, 157, 48, 173, 255, 108, 141, 205, 109, 97, 67, 216, 113,
            180, 33, 162, 225, 159, 247, 163, 26, 255, 226, 221
        ]
    );
    assert_eq!(fingerprint(&e.ctds[1]), 0xee29b5e1e4c140b4);
    assert_eq!(fingerprint(&e.ctds[2]), 0x0d94ee9ba275b980);
    assert_eq!(e.ss, SECRET);
}

#[test]
fn encapsulation_parts_are_the_two_encryptions() {
    let pks: Vec<PublicKey> = (1..4).map(|i| keypair(i).pk).collect();
    let e = encapsulate_message(&seed(), &pks, &message());

    let shared_coins: [u8; 32] = hash_tagged(2, &message());
    assert_eq!(
        shared_coins,
        [
            72, 254, 177, 189, 226, 88, 29, 232, 126, 156, 222, 97, 157, 165, 47, 143, 38, 237,
            108, 182, 193, 111, 173, 25, 9, 231, 6, 139, 47, 237, 88, 152
        ]
    );
    assert_eq!(e.cti, encrypt_shared(&seed(), &shared_coins));

    let mut bound = message().to_vec();
    bound.extend_from_slice(&pks[0]);
    let own_coins: [u8; 32] = hash_tagged(3, &bound);
    assert_eq!(
        own_coins,
        [
            59, 53, 51, 239, 149, 221, 198, 14, 38, 65, 19, 6, 197, 100, 71, 19, 226, 157, 73, 13,
            202, 66, 226, 188, 13, 87, 253, 120, 5, 33, 61, 81
        ]
    );
    assert_eq!(
        e.ctds[0],
        encrypt_recipient(&pks[0], &message(), &shared_coins, &own_coins)
    );

    let mut bound = message().to_vec();
    bound.extend_from_slice(&e.cti);
    let ss: [u8; 16] = hash_tagged(4, &bound);
    assert_eq!(e.ss, ss);
}

#[test]
fn decrypt_recovers_the_message() {
    let kp = keypair(1);
    let pks: Vec<PublicKey> = (1..4).map(|i| keypair(i).pk).collect();
    let e = encapsulate_message(&seed(), &pks, &message());
    let key: [u8; 768] = kp.sk[..768].try_into().unwrap();
    assert_eq!(decrypt(&key, &e.cti, &e.ctds[0]), message());
}

#[test]
fn every_recipient_decapsulates_the_known_secret() {
    let kps: Vec<KeyPair> = (1..4).map(keypair).collect();
    let pks: Vec<PublicKey> = kps.iter().map(|kp| kp.pk).collect();
    let e = encapsulate_message(&seed(), &pks, &message());
    for (i, kp) in kps.iter().enumerate() {
        assert_eq!(decapsulate(&e.cti, &e.ctds[i], &seed(), &kp.pk, &kp.sk), SECRET);
        assert_eq!(dec(&e.cti, &e.ctds[i], &seed(), &kp.pk, &kp.sk), Some(SECRET));
    }
}

#[test]
fn part_of_another_recipient_gives_the_rejection_secret() {
    let kps: Vec<KeyPair> = (1..4).map(keypair).collect();
    let pks: Vec<PublicKey> = kps.iter().map(|kp| kp.pk).collect();
    let e = encapsulate_message(&seed(), &pks, &message());
    let ss = decapsulate(&e.cti, &e.ctds[1], &seed(), &kps[0].pk, &kps[0].sk);
    assert_eq!(
        ss,
        [10, 5, 8, 122, 151, 15, 141, 41, 59, 41, 217, 62, 170, 203, 55, 1]
    );
    assert_eq!(dec(&e.cti, &e.ctds[1], &seed(), &kps[0].pk, &kps[0].sk), None);

    let mut whole = rejection_value(1).to_vec();
    whole.extend_from_slice(&e.cti);
    whole.extend_from_slice(&e.ctds[1]);
    let expected: [u8; 16] = hash_tagged(5, &whole);
    assert_eq!(ss, expected);
}

#[test]
fn another_seed_gives_the_rejection_secret() {
    let kps: Vec<KeyPair> = (1..4).map(keypair).collect();
    let pks: Vec<PublicKey> = kps.iter().map(|kp| kp.pk).collect();
    let e = encapsulate_message(&seed(), &pks, &message());
    let mut other = [0u8; 16];
    for j in 0..16 {
        other[j] = j as u8 + 1;
    }
    assert_eq!(
        decapsulate(&e.cti, &e.ctds[0], &other, &kps[0].pk, &kps[0].sk),
        [190, 38, 40, 183, 192, 167, 114, 145, 109, 150, 107, 252, 150, 83, 247, 66]
    );
    assert_eq!(dec(&e.cti, &e.ctds[0], &other, &kps[0].pk, &kps[0].sk), None);
}

#[test]
fn changed_shared_part_gives_the_rejection_secret() {
    let kps: Vec<KeyPair> = (1..4).map(keypair).collect();
    let pks: Vec<PublicKey> = kps.iter().map(|kp| kp.pk).collect();
    let e = encapsulate_message(&seed(), &pks, &message());
    let mut cti = e.cti;
    cti[0] ^= 1;
    assert_eq!(
        decapsulate(&cti, &e.ctds[0], &seed(), &kps[0].pk, &kps[0].sk),
        [45, 216, 222, 213, 1, 209, 64, 42, 235, 184, 145, 239, 156, 53, 67, 144]
    );
    assert_eq!(dec(&cti, &e.ctds[0], &seed(), &kps[0].pk, &kps[0].sk), None);
}

#[test]
fn no_recipient_still_gives_shared_part_and_secret() {
    let e = encapsulate_message(&seed(), &[], &message());
    assert_eq!(fingerprint(&e.cti), 0xfb1cc8ce61bd4324);
    assert!(e.ctds.is_empty());
    assert_eq!(e.ss, SECRET);
}

#[test]
fn noise_of_the_known_answer_is_small() {
    let kp = keypair(1);
    let shared_coins: [u8; 32] = hash_tagged(2, &message());
    let mut bound = message().to_vec();
    bound.extend_from_slice(&kp.pk);
    let own_coins: [u8; 32] = hash_tagged(3, &bound);
    let noise = measure_noise(&seed(), &coins(1), &shared_coins, &own_coins, &message());
    assert_eq!(noise.len(), 128);
    assert_eq!(noise[..8], [3215, 135, 154, 3165, 3130, 3187, 174, 3151]);
    assert!(all_small(&noise));
    let largest = noise
        .iter()
        .map(|x| if *x <= 1664 { *x } else { 3329 - *x })
        .max()
        .unwrap();
    assert_eq!(largest, 274);
}

#[test]
fn round_trip_of_the_known_answer_is_sure() {
    for i in 1..4 {
        assert!(round_trip_is_sure(
            &seed(),
            &coins(i),
            &rejection_value(i),
            &message()
        ));
    }
}
