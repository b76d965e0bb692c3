//! Masking kernels and keys.
use std::collections::HashSet;

use websocket_io::mask::variants::{apply_mask_naive, apply_mask_portable};
use websocket_io::mask::keys::ByteOrder;
use websocket_io::mask::{apply_mask, copy_masked, rotate, MaskKeys};

/// xorshift64*, good enough for test data.
struct Rng(u64);

impl Rng {
    fn new(seed: u64) -> Self {
        Self(seed.wrapping_mul(0x9E37_79B9_7F4A_7C15) | 1)
    }

    fn next(&mut self) -> u64 {
        self.0 ^= self.0 >> 12;
        self.0 ^= self.0 << 25;
        self.0 ^= self.0 >> 27;
        self.0.wrapping_mul(0x2545_F491_4F6C_DD1D)
    }

    fn bytes(&mut self, len: usize) -> Vec<u8> {
        (0..len).map(|_| self.next() as u8).collect()
    }

    fn key(&mut self) -> [u8; 4] {
        (self.next() as u32).to_le_bytes()
    }
}

#[test]
fn exact_masking() {
    let mut buf = *b"Hello";
    apply_mask(&mut buf, [0x37, 0xfa, 0x21, 0x3d], 0);
    assert_eq!(buf, [0x7f, 0x9f, 0x4d, 0x51, 0x58]);
    apply_mask(&mut buf, [0x37, 0xfa, 0x21, 0x3d], 0);
    assert_eq!(&buf, b"Hello");
    assert_eq!(rotate([1, 2, 3, 4], 6), [3, 4, 1, 2]);
}

#[test]
fn apply_matches_naive() {
    let mut rng = Rng::new(1);
    for len in (0..200).chain([255, 256, 257, 999]) {
        for offset in [0, 1, 2, 3, 7, 15, usize::MAX] {
            for start in 0..8usize {
                let data = rng.bytes(len);
                let key = rng.key();
                let start = start.min(len);
                let mut expected = data.clone();
                apply_mask_naive(&mut expected[start..], key, offset);
                for (i, byte) in expected[start..].iter().enumerate() {
                    assert_eq!(*byte, data[start + i] ^ key[(offset % 4 + i) % 4]);
                }
                let mut actual = data.clone();
                apply_mask(&mut actual[start..], key, offset);
                assert_eq!(actual, expected);
                let mut portable = data.clone();
                apply_mask_portable(&mut portable[start..], rotate(key, offset));
                assert_eq!(portable, expected);
            }
        }
    }
}

#[test]
fn copy_matches_naive() {
    let mut rng = Rng::new(2);
    for len in (0..200).chain([255, 256, 257, 999]) {
        for offset in 0..16 {
            let data = rng.bytes(len);
            let key = rng.key();
            let mut expected = data.clone();
            apply_mask_naive(&mut expected, key, offset);
            expected.extend_from_slice(&[9; 7]);
            let mut dst = vec![9; len + 7];
            copy_masked(&mut dst, &data, key, offset);
            assert_eq!(dst, expected);
        }
    }
}

#[test]
fn piecewise_equals_whole() {
    let mut rng = Rng::new(3);
    for _ in 0..50 {
        let data = rng.bytes(700);
        let key = rng.key();
        let mut expected = data.clone();
        apply_mask(&mut expected, key, 0);

        let mut splits = (0..5).map(|_| rng.next() as usize % 700).collect::<Vec<_>>();
        splits.push(0);
        splits.push(data.len());
        splits.sort_unstable();
        let mut actual = data.clone();
        for window in splits.windows(2) {
            apply_mask(&mut actual[window[0]..window[1]], key, window[0]);
        }
        assert_eq!(actual, expected);
    }
}

#[test]
fn masking_twice_and_zero_keys() {
    let data = Rng::new(4).bytes(300);
    let mut buf = data.clone();
    apply_mask(&mut buf, [1, 2, 3, 4], 5);
    assert_ne!(buf, data);
    apply_mask(&mut buf, [1, 2, 3, 4], 5);
    assert_eq!(buf, data);
    apply_mask(&mut buf, [0; 4], 3);
    assert_eq!(buf, data);
}

#[test]
fn keys_vary() {
    let mut keys = MaskKeys::new();
    let drawn = (0..200)
        .map(|_| keys.next())
        .collect::<HashSet<_>>();
    assert!(drawn.len() > 190);
}

#[test]
fn keys_vary_past_the_pool() {
    let mut keys = MaskKeys::new();
    let drawn = (0..3000)
        .map(|_| keys.next())
        .collect::<HashSet<_>>();
    assert!(drawn.len() > 2950);
}

fn unavailable() -> Result<(), getrandom::Error> {
    Err(getrandom::Error::UNSUPPORTED)
}

#[test]
fn keys_from_the_clock() {
    // The SplitMix64 stream of seed 1234567, as a fresh source has an all-zero pool.
    for order in [ByteOrder::Little, ByteOrder::Big] {
        let number = |keys: &mut MaskKeys| {
            let bytes = [keys.next(), keys.next()].concat().try_into().unwrap();
            match order {
                ByteOrder::Little => u64::from_le_bytes(bytes),
                ByteOrder::Big => u64::from_be_bytes(bytes),
            }
        };
        let mut keys = MaskKeys::new();
        keys.refill_with(unavailable(), [7; 4096], 1_234_567, order);
        assert_eq!(number(&mut keys), 6457827717110365317);
        assert_eq!(number(&mut keys), 3203168211198807973);

        // The previous keys are part of the next seed.
        keys.refill_with(unavailable(), [7; 4096], 6457827717110365317 ^ 1_234_567, order);
        assert_eq!(number(&mut keys), 6457827717110365317);
    }
}

#[test]
fn order_of_bytes() {
    assert_eq!(
        ByteOrder::that_stores([1, 0, 0, 0, 0, 0, 0, 0]),
        ByteOrder::Little
    );
    assert_eq!(
        ByteOrder::that_stores([0, 0, 0, 0, 0, 0, 0, 1]),
        ByteOrder::Big
    );
}

#[test]
fn keys_are_the_pool_in_order() {
    let pool: [u8; 4096] = std::array::from_fn(|i| (i * 7 + i / 256) as u8);
    let mut keys = MaskKeys::new();
    keys.refill_with(Ok(()), pool, 1_234_567, ByteOrder::Little);
    for i in 0..1024 {
        assert_eq!(keys.next()[..], pool[4 * i..4 * i + 4]);
    }
}
