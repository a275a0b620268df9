use deal_survey::cards::{Deal, Direction};
use deal_survey::hash::{canonical_pbn, content_hash};

#[test]
fn rotations_hash_identically() {
    let deal =
        Deal::from_pbn("S:94.QJ76.KQ65.AJ6 QJ3.432.A873.T42 A76.A98.JT9.KQ85 KT852.KT5.42.973")
            .unwrap();
    // The same board rotated one seat (the "nonstandard" presentation).
    let rotated =
        Deal::from_pbn("N:QJ3.432.A873.T42 A76.A98.JT9.KQ85 KT852.KT5.42.973 94.QJ76.KQ65.AJ6")
            .unwrap();
    assert_eq!(content_hash(&deal), content_hash(&rotated));
}

#[test]
fn distinct_deals_hash_differently() {
    let a =
        Deal::from_pbn("N:K843.T542.J6.863 AQJ7.K.Q75.AT942 962.AJ7.KT82.J75 T5.Q9863.A943.KQ")
            .unwrap();
    // b swaps North and East only — a reflection, not a rotation.
    let b =
        Deal::from_pbn("N:AQJ7.K.Q75.AT942 K843.T542.J6.863 962.AJ7.KT82.J75 T5.Q9863.A943.KQ")
            .unwrap();
    assert_ne!(content_hash(&a), content_hash(&b));
}

#[test]
fn hash_is_sha256_hex_of_canonical_text() {
    let deal =
        Deal::from_pbn("S:94.QJ76.KQ65.AJ6 QJ3.432.A873.T42 A76.A98.JT9.KQ85 KT852.KT5.42.973")
            .unwrap();
    assert_eq!(
        canonical_pbn(&deal),
        "N:94.QJ76.KQ65.AJ6 QJ3.432.A873.T42 A76.A98.JT9.KQ85 KT852.KT5.42.973"
    );
    assert_eq!(
        content_hash(&deal),
        "4ee0f17c61b737c8562a12b7af638f062645e05b444be948f83a03cdb746d514"
    );
    let other =
        Deal::from_pbn("N:K843.T542.J6.863 AQJ7.K.Q75.AT942 962.AJ7.KT82.J75 T5.Q9863.A943.KQ")
            .unwrap();
    assert_eq!(
        content_hash(&other),
        "a0fa69d82b783ef533843c1bb201def8cb4629982f9c81b5e79e76745436f16b"
    );
}

#[test]
fn every_rotation_shares_the_hash() {
    let deal =
        Deal::from_pbn("N:K843.T542.J6.863 AQJ7.K.Q75.AT942 962.AJ7.KT82.J75 T5.Q9863.A943.KQ")
            .unwrap();
    let h = content_hash(&deal);
    for k in 0..4 {
        assert_eq!(content_hash(&deal.rotate(k)), h);
    }
}

#[test]
fn pbn_round_trip_and_rendering() {
    let text = "N:K843.T542.J6.863 AQJ7.K.Q75.AT942 962.AJ7.KT82.J75 T5.Q9863.A943.KQ";
    let deal = Deal::from_pbn(text).unwrap();
    assert_eq!(deal.to_pbn(Direction::North), text);
    assert_eq!(
        deal.to_pbn(Direction::East),
        "E:AQJ7.K.Q75.AT942 962.AJ7.KT82.J75 T5.Q9863.A943.KQ K843.T542.J6.863"
    );
    assert_eq!(deal.hand(Direction::West).len(), 13);
}

#[test]
fn malformed_pbn_is_rejected() {
    assert!(Deal::from_pbn("N:AK.Q.J").is_none());
    assert!(Deal::from_pbn("X:... ... ... ...").is_none());
    assert!(Deal::from_pbn("N... ... ... ...").is_none());
    assert!(Deal::from_pbn("N:AKZ... ... ... ...").is_none());
    assert!(Deal::from_pbn("N:.... ... ... ...").is_none());
    assert!(Deal::from_pbn("N:... ... ... ...").is_some());
}

#[test]
fn canonical_texts_differ_unless_rotated() {
    let a =
        Deal::from_pbn("N:K843.T542.J6.863 AQJ7.K.Q75.AT942 962.AJ7.KT82.J75 T5.Q9863.A943.KQ")
            .unwrap();
    // Two clubs exchanged between North and East: no rotation of `a`.
    let b =
        Deal::from_pbn("N:K843.T542.J6.862 AQJ7.K.Q75.AT943 962.AJ7.KT82.J75 T5.Q9863.A943.KQ")
            .unwrap();
    assert_ne!(canonical_pbn(&a), canonical_pbn(&b));
    for k in 0..4 {
        assert_eq!(canonical_pbn(&a.rotate(k)), canonical_pbn(&a));
    }
}
