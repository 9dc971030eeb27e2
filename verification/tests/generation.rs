use mkem::{decapsulate, enc, gen_keypair, gen_seed, KeyPair, PublicKey, Seed};

#[test]
fn test_gen_non_zeroes_and_unique() {
    (0..10).for_each(|_| {
        let s0 = gen_seed().to_vec();

        assert_ne!(s0, vec![0; 16]);

        let s1 = gen_seed().to_vec();

        assert_ne!(s1, vec![0; 16]);
        assert_ne!(s0, s1);

        let seed0: Seed = s0.clone().try_into().unwrap();
        let kp0 = gen_keypair(&seed0);
        let pk0 = kp0.pk.to_vec();
        let sk0 = kp0.sk.to_vec();

        assert_ne!(pk0, vec![0; 768]);
        assert_ne!(sk0, vec![0; 800]);

        let seed1: Seed = s1.clone().try_into().unwrap();
        let kp1 = gen_keypair(&seed1);
        let pk1 = kp1.pk.to_vec();
        let sk1 = kp1.sk.to_vec();

        assert_ne!(pk1, vec![0; 768]);
        assert_ne!(pk0, pk1);
        assert_ne!(sk1, vec![0; 800]);
        assert_ne!(sk0, sk1);
    });
}

#[test]
fn ffi_test_enc_dec() {
    let seed = gen_seed();

    let keys: Vec<KeyPair> = (0..10).map(|_| gen_keypair(&seed)).collect();

    let pks: Vec<PublicKey> = keys.iter().map(|kp| kp.pk).collect();
    let encapsulated = enc(&seed, &pks);
    let ref_ss = encapsulated.ss.to_vec();

    assert_eq!(encapsulated.ctds.len(), keys.len());

    keys.iter().enumerate().for_each(|(idx, kp)| {
        let ss = decapsulate(
            &encapsulated.cti,
            &encapsulated.ctds[idx],
            &seed,
            &kp.pk,
            &kp.sk,
        )
        .to_vec();

        assert_eq!(ss, ref_ss);
    })
}

#[test]
fn test_dec_fails_with_seed_mismatch() {
    let ref_seed = gen_seed();

    let keys: Vec<(KeyPair, Seed)> = (0..10)
        .map(|_| {
            // each of these keys has its own seed, so nothing binds them
            let seed = gen_seed();

            assert_ne!(seed, ref_seed);

            (gen_keypair(&seed), seed)
        })
        .collect();

    let pks: Vec<PublicKey> = keys.iter().map(|kp| kp.0.pk).collect();

    // encapsulation does yield a "shared" secret
    let encapsulated = enc(&ref_seed, &pks);
    let ref_ss = encapsulated.ss.to_vec();

    keys.iter().enumerate().for_each(|(idx, kp)| {
        // but the key's own seed does not decapsulate it
        let ss = decapsulate(
            &encapsulated.cti,
            &encapsulated.ctds[idx],
            &kp.1,
            &kp.0.pk,
            &kp.0.sk,
        )
        .to_vec();
        assert_ne!(ss, ref_ss);

        // nor does the seed of the encapsulation: the key is bound to another
        let ss = decapsulate(
            &encapsulated.cti,
            &encapsulated.ctds[idx],
            &ref_seed,
            &kp.0.pk,
            &kp.0.sk,
        )
        .to_vec();
        assert_ne!(ss, ref_ss);
    })
}

#[test]
fn test_dec_fails_with_keys_mismatch() {
    let seed = gen_seed();

    let n_keys = 10;

    let ref_keys: Vec<KeyPair> = (0..n_keys).map(|_| gen_keypair(&seed)).collect();

    let pks: Vec<PublicKey> = ref_keys.iter().map(|kp| kp.pk).collect();
    let encapsulated = enc(&seed, &pks);
    let cti = encapsulated.cti;
    let ctds = encapsulated.ctds;
    let ref_ss = encapsulated.ss.to_vec();

    // decapsulation succeeds with the right keys
    ref_keys.iter().enumerate().for_each(|(idx, kp)| {
        let ss = decapsulate(&cti, &ctds[idx], &seed, &kp.pk, &kp.sk).to_vec();
        assert_eq!(ss, ref_ss);
    });

    let wrong_keys: Vec<KeyPair> = (0..n_keys).map(|_| gen_keypair(&seed)).collect();

    // but fails with the wrong keys
    wrong_keys.iter().enumerate().for_each(|(idx, kp)| {
        let ss = decapsulate(&cti, &ctds[idx], &seed, &kp.pk, &kp.sk).to_vec();
        assert_ne!(ss, ref_ss);
    });

    // as well as with mismatched pk-sk pairs
    wrong_keys.iter().enumerate().for_each(|(idx, kp)| {
        let ss = decapsulate(&cti, &ctds[idx], &seed, &ref_keys[idx].pk, &kp.sk).to_vec();
        assert_ne!(ss, ref_ss);

        let ss = decapsulate(&cti, &ctds[idx], &seed, &kp.pk, &ref_keys[idx].sk).to_vec();
        assert_ne!(ss, ref_ss);
    });
}
