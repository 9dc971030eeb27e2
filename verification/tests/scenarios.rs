use mkem::decryption::{all_small, measure_noise};
use mkem::theorems::round_trip_is_sure;
use mkem::xof::hash_tagged;
use mkem::{
    dec, decapsulate, enc, encapsulate_message, gen_keypair, gen_seed, keypair_from_coins,
    KeyPair, PublicKey,
};

#[test]
fn three_recipients_share_one_secret() {
    let s = gen_seed();
    let kps: Vec<KeyPair> = (0..3).map(|_| gen_keypair(&s)).collect();
    let pks: Vec<PublicKey> = kps.iter().map(|kp| kp.pk).collect();
    let e = enc(&s, &pks);

    assert_eq!(e.cti.len(), 704);
    assert_eq!(e.ctds.len(), 3);
    assert!(e.ctds.iter().all(|ctd| ctd.len() == 48));
    assert_eq!(e.ss.len(), 16);

    assert_eq!(decapsulate(&e.cti, &e.ctds[1], &s, &kps[1].pk, &kps[1].sk), e.ss);
    assert_ne!(decapsulate(&e.cti, &e.ctds[1], &s, &kps[0].pk, &kps[0].sk), e.ss);
}

#[test]
fn keys_have_the_stated_sizes() {
    let s = gen_seed();
    let kp = gen_keypair(&s);
    assert_eq!(s.len(), 16);
    assert_eq!(kp.pk.len(), 768);
    assert_eq!(kp.sk.len(), 800);
}

#[test]
fn seeds_differ_and_are_not_zero() {
    let seeds: Vec<[u8; 16]> = (0..50).map(|_| gen_seed()).collect();
    for (i, s) in seeds.iter().enumerate() {
        assert_ne!(*s, [0u8; 16]);
        for t in &seeds[..i] {
            assert_ne!(s, t);
        }
    }
}

#[test]
fn keypairs_of_one_seed_differ() {
    let s = gen_seed();
    let a = gen_keypair(&s);
    let b = gen_keypair(&s);
    assert_ne!(a.pk, b.pk);
    assert_ne!(a.sk, b.sk);
}

#[test]
fn keypairs_of_two_seeds_differ() {
    let a = gen_keypair(&gen_seed());
    let b = gen_keypair(&gen_seed());
    assert_ne!(a.pk, b.pk);
    assert_ne!(a.sk, b.sk);
}

#[test]
fn same_coins_under_two_seeds_give_different_keys() {
    let coins = [9u8; 32];
    let z = [3u8; 16];
    let a = keypair_from_coins(&[1u8; 16], &coins, &z);
    let b = keypair_from_coins(&[2u8; 16], &coins, &z);
    assert_ne!(a.pk, b.pk);
    assert_ne!(a.sk, b.sk);
    // the decryption key comes from the coins alone
    assert_eq!(a.sk[..768], b.sk[..768]);
}

#[test]
fn secret_key_carries_its_seed() {
    let s = gen_seed();
    let kp = gen_keypair(&s);
    assert_eq!(kp.sk[768..784], s[..]);
}

#[test]
fn every_recipient_recovers_the_secret() {
    for n in [1usize, 2, 5] {
        let s = gen_seed();
        let kps: Vec<KeyPair> = (0..n).map(|_| gen_keypair(&s)).collect();
        let pks: Vec<PublicKey> = kps.iter().map(|kp| kp.pk).collect();
        let e = enc(&s, &pks);
        assert_eq!(e.ctds.len(), n);
        for (i, kp) in kps.iter().enumerate() {
            assert_eq!(dec(&e.cti, &e.ctds[i], &s, &kp.pk, &kp.sk), Some(e.ss));
            assert_eq!(decapsulate(&e.cti, &e.ctds[i], &s, &kp.pk, &kp.sk), e.ss);
        }
    }
}

#[test]
fn key_of_another_seed_is_turned_away() {
    let s = gen_seed();
    let other = gen_seed();
    let kp = gen_keypair(&other);
    let e = enc(&s, &[kp.pk]);
    assert_eq!(dec(&e.cti, &e.ctds[0], &other, &kp.pk, &kp.sk), None);
    assert_eq!(dec(&e.cti, &e.ctds[0], &s, &kp.pk, &kp.sk), None);
    assert_ne!(decapsulate(&e.cti, &e.ctds[0], &other, &kp.pk, &kp.sk), e.ss);
    assert_ne!(decapsulate(&e.cti, &e.ctds[0], &s, &kp.pk, &kp.sk), e.ss);
}

#[test]
fn right_key_under_the_wrong_seed_is_turned_away() {
    let s = gen_seed();
    let kp = gen_keypair(&s);
    let e = enc(&s, &[kp.pk]);
    let mut wrong = s;
    wrong[15] ^= 0x80;
    assert_eq!(dec(&e.cti, &e.ctds[0], &wrong, &kp.pk, &kp.sk), None);
    assert_eq!(dec(&e.cti, &e.ctds[0], &s, &kp.pk, &kp.sk), Some(e.ss));
}

#[test]
fn wrong_keypair_is_turned_away() {
    let s = gen_seed();
    let kp = gen_keypair(&s);
    let wrong = gen_keypair(&s);
    let e = enc(&s, &[kp.pk]);
    assert_eq!(dec(&e.cti, &e.ctds[0], &s, &wrong.pk, &wrong.sk), None);
    assert_ne!(decapsulate(&e.cti, &e.ctds[0], &s, &wrong.pk, &wrong.sk), e.ss);
}

#[test]
fn unrelated_secret_key_is_turned_away() {
    let s = gen_seed();
    let kp = gen_keypair(&s);
    let wrong = gen_keypair(&s);
    let e = enc(&s, &[kp.pk]);
    assert_eq!(dec(&e.cti, &e.ctds[0], &s, &kp.pk, &wrong.sk), None);
    assert_ne!(decapsulate(&e.cti, &e.ctds[0], &s, &kp.pk, &wrong.sk), e.ss);
    assert_eq!(dec(&e.cti, &e.ctds[0], &s, &wrong.pk, &kp.sk), None);
    assert_ne!(decapsulate(&e.cti, &e.ctds[0], &s, &wrong.pk, &kp.sk), e.ss);
}

#[test]
fn parts_of_two_encapsulations_do_not_mix() {
    let s = gen_seed();
    let kp = gen_keypair(&s);
    let first = enc(&s, &[kp.pk]);
    let second = enc(&s, &[kp.pk]);
    assert_eq!(dec(&first.cti, &second.ctds[0], &s, &kp.pk, &kp.sk), None);
    assert_eq!(dec(&second.cti, &first.ctds[0], &s, &kp.pk, &kp.sk), None);
}

#[test]
fn two_encapsulations_differ() {
    let s = gen_seed();
    let kps: Vec<KeyPair> = (0..2).map(|_| gen_keypair(&s)).collect();
    let pks: Vec<PublicKey> = kps.iter().map(|kp| kp.pk).collect();
    let first = enc(&s, &pks);
    let second = enc(&s, &pks);
    assert_ne!(first.cti, second.cti);
    assert_ne!(first.ctds, second.ctds);
    assert_ne!(first.ss, second.ss);
}

#[test]
fn one_message_gives_one_encapsulation() {
    let s = gen_seed();
    let kp = gen_keypair(&s);
    let msg = [0xA5u8; 16];
    let first = encapsulate_message(&s, &[kp.pk], &msg);
    let second = encapsulate_message(&s, &[kp.pk], &msg);
    assert_eq!(first.cti, second.cti);
    assert_eq!(first.ctds, second.ctds);
    assert_eq!(first.ss, second.ss);
}

#[test]
fn shared_part_does_not_depend_on_the_recipients() {
    let s = gen_seed();
    let a = gen_keypair(&s);
    let b = gen_keypair(&s);
    let msg = [0x3Cu8; 16];
    let one = encapsulate_message(&s, &[a.pk], &msg);
    let two = encapsulate_message(&s, &[b.pk, a.pk], &msg);
    assert_eq!(one.cti, two.cti);
    assert_eq!(one.ss, two.ss);
    assert_eq!(one.ctds[0], two.ctds[1]);
    assert_ne!(two.ctds[0], two.ctds[1]);
}

#[test]
fn rejection_secret_is_fixed_by_key_and_ciphertext() {
    let s = gen_seed();
    let kp = gen_keypair(&s);
    let wrong = gen_keypair(&s);
    let e = enc(&s, &[kp.pk]);
    let first = decapsulate(&e.cti, &e.ctds[0], &s, &wrong.pk, &wrong.sk);
    let second = decapsulate(&e.cti, &e.ctds[0], &s, &wrong.pk, &wrong.sk);
    assert_eq!(first, second);
    let mut ctd = e.ctds[0];
    ctd[47] ^= 1;
    assert_ne!(decapsulate(&e.cti, &ctd, &s, &wrong.pk, &wrong.sk), first);
}

#[test]
fn changed_part_is_turned_away() {
    let s = gen_seed();
    let kp = gen_keypair(&s);
    let e = enc(&s, &[kp.pk]);
    let mut ctd = e.ctds[0];
    ctd[0] ^= 0x01;
    assert_eq!(dec(&e.cti, &ctd, &s, &kp.pk, &kp.sk), None);
    let mut cti = e.cti;
    cti[703] ^= 0x80;
    assert_eq!(dec(&cti, &e.ctds[0], &s, &kp.pk, &kp.sk), None);
}

#[test]
fn no_recipients_is_no_error() {
    let s = gen_seed();
    let e = enc(&s, &[]);
    assert!(e.ctds.is_empty());
    assert_eq!(e.cti.len(), 704);
}

#[test]
fn noise_stays_small_and_the_secret_comes_back() {
    for _ in 0..5 {
        let s = gen_seed();
        let mut coins = [0u8; 32];
        coins[..16].copy_from_slice(&gen_seed());
        coins[16..].copy_from_slice(&gen_seed());
        let z = gen_seed();
        let msg = gen_seed();
        let kp = keypair_from_coins(&s, &coins, &z);
        let e = encapsulate_message(&s, &[kp.pk], &msg);

        let shared_coins: [u8; 32] = hash_tagged(2, &msg);
        let mut bound = msg.to_vec();
        bound.extend_from_slice(&kp.pk);
        let own_coins: [u8; 32] = hash_tagged(3, &bound);
        let noise = measure_noise(&s, &coins, &shared_coins, &own_coins, &msg);
        assert!(all_small(&noise));
        assert_eq!(dec(&e.cti, &e.ctds[0], &s, &kp.pk, &kp.sk), Some(e.ss));
    }
}

#[test]
fn where_the_round_trip_is_sure_the_secret_comes_back() {
    for _ in 0..5 {
        let s = gen_seed();
        let mut coins = [0u8; 32];
        coins[..16].copy_from_slice(&gen_seed());
        coins[16..].copy_from_slice(&gen_seed());
        let z = gen_seed();
        let msg = gen_seed();
        assert!(round_trip_is_sure(&s, &coins, &z, &msg));
        let kp = keypair_from_coins(&s, &coins, &z);
        let e = encapsulate_message(&s, &[kp.pk], &msg);
        assert_eq!(decapsulate(&e.cti, &e.ctds[0], &s, &kp.pk, &kp.sk), e.ss);
    }
}

#[test]
fn secret_keys_of_one_seed_differ_with_their_rejection_values() {
    let s = [7u8; 16];
    let coins = [9u8; 32];
    let a = keypair_from_coins(&s, &coins, &[1u8; 16]);
    let b = keypair_from_coins(&s, &coins, &[2u8; 16]);
    assert_eq!(a.pk, b.pk);
    assert_ne!(a.sk, b.sk);
    assert_eq!(a.sk[..784], b.sk[..784]);
}
