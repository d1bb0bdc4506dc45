use trendlab_core::ids::{ConfigHash, DatasetHash, FullHash, IdGen, OrderId, RunId};

#[test]
fn id_gen_is_monotonic() {
    let mut gen = IdGen::default();
    let a = gen.next_order_id();
    let b = gen.next_order_id();
    assert!(b.0 > a.0);
}

#[test]
fn blake3_hash_is_deterministic() {
    let h1 = ConfigHash::from_bytes(b"donchian+atr_trail+worst_case+no_filter");
    let h2 = ConfigHash::from_bytes(b"donchian+atr_trail+worst_case+no_filter");
    assert_eq!(h1, h2);
}

#[test]
fn different_input_different_hash() {
    let h1 = ConfigHash::from_bytes(b"donchian+atr_trail");
    let h2 = ConfigHash::from_bytes(b"donchian+chandelier");
    assert_ne!(h1, h2);
}

#[test]
fn hash_hex_is_64_chars() {
    let h = RunId::from_bytes(b"run-1");
    assert_eq!(h.as_hex().len(), 64);
}

#[test]
fn id_gen_draws_all_kinds_from_one_counter() {
    let mut gen = IdGen::default();
    let a = gen.next_order_id();
    let s = gen.next_signal_event_id();
    let g = gen.next_oco_group_id();
    let b = gen.next_order_id();
    assert_eq!(a, OrderId(0));
    assert_eq!(s.0, 1);
    assert_eq!(g.0, 2);
    assert_eq!(b, OrderId(3));
}

#[test]
fn hash_is_not_the_input_copied() {
    let data = [7u8; 32];
    let h = FullHash::from_bytes(&data);
    assert_ne!(h.0, data);
}

#[test]
fn blake3_known_digest_of_empty_input() {
    let h = DatasetHash::from_bytes(b"");
    assert_eq!(
        h.as_hex(),
        "af1349b9f5f9a1a6a0404dea36dcc9499bcb25c9adc112b7cc9a93cae41f3262"
    );
}

#[test]
fn hex_roundtrip_gives_back_the_digest() {
    let h = ConfigHash::from_bytes(b"test data");
    let text = h.as_hex();
    assert!(text.chars().all(|c| c.is_ascii_digit() || ('a'..='f').contains(&c)));
    let back = ConfigHash::from_hex(&text).unwrap();
    assert_eq!(back, h);
    let run = RunId::from_hex(&RunId::from_bytes(b"run-1").as_hex()).unwrap();
    assert_eq!(run, RunId::from_bytes(b"run-1"));
}

#[test]
fn from_hex_rejects_wrong_length_and_bad_digits() {
    assert!(ConfigHash::from_hex("abcd").is_none());
    let mut bad = "zz".to_string();
    bad.push_str(&"00".repeat(31));
    assert!(ConfigHash::from_hex(&bad).is_none());
}

#[test]
fn interleaved_kinds_are_consecutive() {
    let mut gen = IdGen::default();
    let vals = [
        gen.next_oco_group_id().0,
        gen.next_order_id().0,
        gen.next_signal_event_id().0,
        gen.next_order_id().0,
    ];
    assert_eq!(vals, [0, 1, 2, 3]);
}

#[test]
fn id_gen_any_interleaving_hands_out_consecutive_values() {
    let patterns: [&[u8]; 4] = [&[0, 0, 0], &[2, 1, 0, 2, 1], &[1, 2, 2, 0, 1, 0, 2], &[]];
    for pattern in patterns {
        let mut gen = IdGen::default();
        for _ in 0..5 {
            gen.next_signal_event_id();
        }
        let start = gen.peek_next();
        assert_eq!(start, 5);
        for (k, kind) in pattern.iter().enumerate() {
            let v = match kind {
                0 => gen.next_order_id().0,
                1 => gen.next_signal_event_id().0,
                _ => gen.next_oco_group_id().0,
            };
            assert_eq!(v, start + k as u64);
        }
        assert_eq!(gen.peek_next(), start + pattern.len() as u64);
    }
}
