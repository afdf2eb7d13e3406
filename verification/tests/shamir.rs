use shamir::{recover_secret, Dealer, Error, GfElem, Shard};

fn make_shards(dealer: &Dealer, count: usize) -> Vec<Shard> {
    let mut shards = Vec::new();
    for _ in 0..count {
        let shard = dealer.next_shard();
        assert_eq!(shard.id().len(), Shard::ID_LENGTH);
        shards.push(shard);
    }
    shards
}

#[test]
fn round_trip_empty_secret() {
    let dealer = Dealer::new(1, &[]).unwrap();
    assert_eq!(dealer.secret(), Vec::<u8>::new());
}

#[test]
fn round_trip_various_lengths() {
    let secret: Vec<u8> = (0u8..23).collect();
    for len in 0..secret.len() {
        for threshold in [1u32, 2, 3, 5] {
            let dealer = Dealer::new(threshold, &secret[..len]).unwrap();
            assert_eq!(dealer.secret(), &secret[..len]);
            assert_eq!(dealer.threshold(), threshold);
        }
    }
}

#[test]
fn threshold_zero_is_refused() {
    assert_eq!(Dealer::new(0, &[1, 2, 3]).unwrap_err(), Error::InvalidConfiguration);
}

#[test]
fn threshold_sufficiency() {
    let secret = [0xde, 0xad, 0xbe, 0xef, 0x01, 0x02, 0x03];
    for threshold in [1u32, 2, 3, 4] {
        let dealer = Dealer::new(threshold, &secret).unwrap();
        let shards = make_shards(&dealer, threshold as usize);
        assert_eq!(recover_secret(shards.as_slice()).unwrap(), secret.to_vec());
    }
}

#[test]
fn threshold_necessity() {
    let secret = [0x55u8; 9];
    let dealer = Dealer::new(3, &secret).unwrap();
    let mut shards = make_shards(&dealer, 2);
    for shard in shards.iter_mut() {
        shard.threshold -= 1;
    }
    let wrong = recover_secret(shards.as_slice()).unwrap();
    assert_eq!(wrong.len(), secret.len());
    assert_ne!(wrong, secret.to_vec());
}

#[test]
fn concrete_two_chunk_scenario() {
    let secret = [0x01u8, 0x02, 0x03, 0x04, 0x05];
    let dealer = Dealer::new(3, &secret).unwrap();
    let shards = make_shards(&dealer, 3);
    assert_eq!(recover_secret(shards.as_slice()).unwrap(), secret.to_vec());
    for drop in 0..3 {
        let mut pair: Vec<Shard> = Vec::new();
        for (i, shard) in shards.iter().enumerate() {
            if i != drop {
                let mut patched = shard.clone();
                patched.threshold = 2;
                pair.push(patched);
            }
        }
        let wrong = recover_secret(pair.as_slice()).unwrap();
        assert_eq!(wrong.len(), 5);
        assert_ne!(wrong, secret.to_vec());
    }
}

#[test]
fn recovered_dealer_equivalence() {
    let secret = [0xaau8, 0xbb, 0xcc, 0xdd, 0xee, 0xff, 0x11, 0x22, 0x33];
    for threshold in [2u32, 3, 5, 12] {
        let dealer = Dealer::new(threshold, &secret).unwrap();
        let shards = make_shards(&dealer, threshold as usize);
        let recovered = Dealer::recover(shards.as_slice()).unwrap();
        assert_eq!(recovered.threshold(), threshold);
        assert_eq!(recovered.secret(), secret.to_vec());
        assert_eq!(dealer.shard(GfElem(0)), None);
        assert_eq!(recovered.shard(GfElem(0)), None);
        for x in [1u32, 2, 7, 0x1234_5678, 0xffff_ffff] {
            assert_eq!(dealer.shard(GfElem(x)), recovered.shard(GfElem(x)));
        }
        for shard in &shards {
            assert_eq!(dealer.shard(shard.x), recovered.shard(shard.x));
        }
    }
}

#[test]
fn recovered_dealer_mints_working_shards() {
    let secret = [9u8, 8, 7, 6, 5, 4, 3, 2, 1];
    let dealer = Dealer::new(3, &secret).unwrap();
    let shards = make_shards(&dealer, 3);
    let recovered = Dealer::recover(shards.as_slice()).unwrap();
    let fresh = make_shards(&recovered, 3);
    assert_eq!(recover_secret(fresh.as_slice()).unwrap(), secret.to_vec());
}

#[test]
fn shard_ids_are_stable_and_fixed_length() {
    let dealer = Dealer::new(2, &[1, 2, 3, 4, 5, 6, 7, 8, 9, 10]).unwrap();
    let shard = dealer.next_shard();
    assert_eq!(shard.id().len(), Shard::ID_LENGTH);
    assert_eq!(shard.id(), shard.id());
    let tiny = Dealer::new(1, &[]).unwrap().next_shard();
    assert_eq!(tiny.id().len(), Shard::ID_LENGTH);
    let same_x = Shard { x: shard.x, ys: Vec::new(), threshold: 9, secret_len: 0 };
    assert_eq!(same_x.id(), shard.id());
    let zero_id = Shard { x: GfElem(0), ys: Vec::new(), threshold: 1, secret_len: 0 };
    assert_eq!(zero_id.id(), b"00000000".to_vec());
    let mixed = Shard { x: GfElem(0x0123_abcd), ys: Vec::new(), threshold: 1, secret_len: 0 };
    assert_eq!(mixed.id(), b"0123abcd".to_vec());
}

#[test]
fn next_shard_never_samples_at_zero() {
    let dealer = Dealer::new(1, &[42]).unwrap();
    for _ in 0..200 {
        assert_ne!(dealer.next_shard().x, GfElem(0));
    }
}

#[test]
fn empty_shard_set_is_refused() {
    assert_eq!(recover_secret(&[]).unwrap_err(), Error::WrongShardCount);
    assert_eq!(Dealer::recover(&[]).unwrap_err(), Error::WrongShardCount);
}

#[test]
fn wrong_shard_count_is_refused() {
    let dealer = Dealer::new(3, &[1, 2, 3, 4]).unwrap();
    let two = make_shards(&dealer, 2);
    assert_eq!(recover_secret(two.as_slice()).unwrap_err(), Error::WrongShardCount);
    assert_eq!(Dealer::recover(two.as_slice()).unwrap_err(), Error::WrongShardCount);
    let four = make_shards(&dealer, 4);
    assert_eq!(recover_secret(four.as_slice()).unwrap_err(), Error::WrongShardCount);
    assert_eq!(Dealer::recover(four.as_slice()).unwrap_err(), Error::WrongShardCount);
}

#[test]
fn inconsistent_shards_are_refused() {
    let dealer = Dealer::new(2, &[1, 2, 3, 4, 5]).unwrap();
    let mut shards = make_shards(&dealer, 2);
    shards[1].secret_len = 4;
    assert_eq!(recover_secret(shards.as_slice()).unwrap_err(), Error::InconsistentShardSet);
    assert_eq!(Dealer::recover(shards.as_slice()).unwrap_err(), Error::InconsistentShardSet);
    let mut shards = make_shards(&dealer, 2);
    shards[0].ys.pop();
    assert_eq!(recover_secret(shards.as_slice()).unwrap_err(), Error::InconsistentShardSet);
    let mut shards = make_shards(&dealer, 2);
    shards[0].threshold = 3;
    assert_eq!(recover_secret(shards.as_slice()).unwrap_err(), Error::InconsistentShardSet);
}

#[test]
fn duplicate_abscissae_are_refused() {
    let dealer = Dealer::new(2, &[1, 2, 3, 4, 5]).unwrap();
    let shard = dealer.next_shard();
    let twice = vec![shard.clone(), shard.clone()];
    assert_eq!(recover_secret(twice.as_slice()).unwrap_err(), Error::InterpolationFailure);
    assert_eq!(Dealer::recover(twice.as_slice()).unwrap_err(), Error::InterpolationFailure);
}

#[test]
fn shard_equality_is_structural() {
    let dealer = Dealer::new(2, &[1, 2, 3]).unwrap();
    let shard = dealer.next_shard();
    assert_eq!(shard, shard.clone());
    let mut other = shard.clone();
    other.threshold += 1;
    assert_ne!(shard, other);
    let mut other = shard.clone();
    other.ys[0] = GfElem(other.ys[0].0 ^ 1);
    assert_ne!(shard, other);
}

#[test]
fn field_constants_and_addition() {
    assert_eq!(GfElem::zero(), GfElem(0));
    assert_eq!(GfElem::one(), GfElem(1));
    let a = GfElem(0x1234_5678);
    let b = GfElem(0x9abc_def0);
    assert_eq!(a.add(GfElem(0)), a);
    assert_eq!(a.add(a), GfElem(0));
    assert_eq!(a.add(b), b.add(a));
    assert_eq!(a.add(b).add(b), a);
}

#[test]
fn field_multiplication_and_inverse() {
    let one = GfElem::one();
    for w in [1u32, 2, 3, 0x53, 0x1234_5678, 0xdead_beef, 0xffff_ffff] {
        let a = GfElem(w);
        assert_eq!(a.mul(one), a);
        assert_eq!(one.mul(a), a);
        assert_eq!(a.mul(GfElem(0)), GfElem(0));
        let inv = a.inverse().unwrap();
        assert_eq!(a.mul(inv), one, "inverse failed for {w:#x}");
        assert_eq!(inv.mul(a), one);
    }
    assert_eq!(GfElem(0).inverse(), None);
    let a = GfElem(0x0101_0101);
    let b = GfElem(0xf00f_1234);
    assert_eq!(a.mul(b), b.mul(a));
}

#[test]
fn field_multiplication_exact_values() {
    // x * (x + 1) = x^2 + x, with no reduction.
    assert_eq!(GfElem(2).mul(GfElem(3)), GfElem(6));
    // x^31 * x = x^32, which reduces to x^22 + x^2 + x + 1.
    assert_eq!(GfElem(0x8000_0000).mul(GfElem(2)), GfElem(shamir::gf::REDUCTION));
    assert_eq!(GfElem(0x8000_0000).mul(GfElem(2)), GfElem(0x0040_0007));
    // (x + 1)^2 = x^2 + 1 in characteristic 2.
    assert_eq!(GfElem(3).mul(GfElem(3)), GfElem(5));
}

#[test]
fn field_bytes_round_trip() {
    let a = GfElem(0x0403_0201);
    assert_eq!(a.to_bytes(), vec![0x01, 0x02, 0x03, 0x04]);
    assert_eq!(GfElem::from_bytes(&[0x01, 0x02, 0x03, 0x04]), a);
    assert_eq!(GfElem::from_bytes(&[]), GfElem(0));
    assert_eq!(GfElem::from_bytes(&[0xff]), GfElem(0xff));
    assert_eq!(GfElem::from_bytes(&[0x01, 0x02]), GfElem(0x0201));
    for w in [0u32, 1, 0x8000_0000, 0x1234_5678, 0xffff_ffff] {
        assert_eq!(GfElem::from_bytes(GfElem(w).to_bytes().as_slice()), GfElem(w));
    }
}

#[test]
fn lagrange_constant_direct() {
    // Two samples of the line y = c0 + c1 x, taken through a dealer
    // with a 4-byte secret, recover c0 whatever the pair.
    let secret = [0x11u8, 0x22, 0x33, 0x44];
    let dealer = Dealer::new(2, &secret).unwrap();
    let s1 = dealer.next_shard();
    let s2 = dealer.next_shard();
    if s1.x == s2.x {
        return;
    }
    let points = vec![(s1.x, s1.ys[0]), (s2.x, s2.ys[0])];
    let c0 = shamir::lagrange_constant(1, points.as_slice()).unwrap();
    assert_eq!(c0.to_bytes(), secret.to_vec());
    let dup = vec![(s1.x, s1.ys[0]), (s1.x, s1.ys[0])];
    assert_eq!(shamir::lagrange_constant(1, dup.as_slice()).unwrap_err(),
        Error::InterpolationFailure);
    assert_eq!(shamir::lagrange_constant(2, points.as_slice()).unwrap_err(),
        Error::InterpolationFailure);
}
