use std::collections::{HashMap, HashSet};

use nanoid::alphabet::SAFE;
use nanoid::generator::{
    accept_bytes, batch_len_of, fast, map_bytes, mask_of, universal, MAX_ROUNDS,
};
use rand::Rng;

fn standard(size: usize) -> Vec<u8> {
    let mut result: Vec<u8> = vec![0; size];
    rand::thread_rng().fill(&mut result[..]);
    result
}

fn repeating(size: usize) -> Vec<u8> {
    [2, 255, 0, 1].iter().cloned().cycle().take(size).collect()
}

fn counting(size: usize) -> Vec<u8> {
    (0..size).map(|i| (i % 256) as u8).collect()
}

fn never_called(_size: usize) -> Vec<u8> {
    panic!("no byte may be requested")
}

#[test]
fn generator_generates_random_string() {
    assert_eq!(
        universal(repeating, &['a', 'b', 'c'], 4),
        Some(String::from("cabc"))
    );
}

#[test]
fn correct_length() {
    let lengths = [21, 5, 17, 134, 1];

    for &l in &lengths {
        let id = fast(standard, &SAFE, l);

        assert_eq!(id.len(), l);
    }
}

#[test]
fn url_friendly() {
    for _ in 0..10 {
        let id = fast(standard, &SAFE, 21);

        for ch in id.chars() {
            assert!(SAFE.contains(&ch));
        }
    }
}

#[test]
fn no_collisions() {
    let count = 1_000_000;
    let length: usize = 21;

    let mut ids = HashSet::with_capacity(count);

    for _ in 0..count {
        let id = fast(standard, &SAFE, length);
        assert!(ids.insert(id));
    }
}

#[test]
fn flat_distribution() {
    let count = 1_000_000;
    let length: usize = 21;

    let mut counts = [0usize; 128];

    for _ in 0..count {
        let id = fast(standard, &SAFE, length);

        for ch in id.chars() {
            counts[ch as usize] += 1;
        }
    }

    let mut chars: HashMap<char, usize> = HashMap::with_capacity(SAFE.len());
    for &ch in SAFE.iter() {
        chars.insert(ch, counts[ch as usize]);
    }

    for value in chars.values() {
        let distribution = (value * SAFE.len()) as f32 / (count as f32 * length as f32);

        assert_eq!(distribution.round(), 1.0)
    }
}

#[test]
fn universal_flat_distribution() {
    let count = 100_000;
    let length: usize = 21;
    let alphabet = &SAFE[0..40];

    let mut counts = [0usize; 128];

    for _ in 0..count {
        let id = universal(standard, alphabet, length).unwrap();

        for ch in id.chars() {
            counts[ch as usize] += 1;
        }
    }

    for &ch in alphabet.iter() {
        let distribution =
            (counts[ch as usize] * alphabet.len()) as f32 / (count as f32 * length as f32);
        assert_eq!(distribution.round(), 1.0);
    }
}

#[test]
fn universal_size_zero_draws_nothing() {
    assert_eq!(universal(never_called, &['a', 'b', 'c'], 0), Some(String::new()));
}

#[test]
fn universal_lengths_and_membership() {
    let alphabet = &SAFE[0..62];
    for &l in &[1usize, 2, 7, 21, 100, 257] {
        let id = universal(standard, alphabet, l).unwrap();
        assert_eq!(id.chars().count(), l);
        assert!(id.chars().all(|c| alphabet.contains(&c)));
    }
}

#[test]
fn universal_single_symbol_alphabet() {
    assert_eq!(universal(standard, &['x'], 5), Some(String::from("xxxxx")));
}

#[test]
fn universal_skips_rejected_bytes_across_batches() {
    // alphabet of 5: mask 7; 5, 6 and 7 are rejected
    fn source(size: usize) -> Vec<u8> {
        [7, 6, 5, 4, 13].iter().cloned().cycle().take(size).collect()
    }
    // size 3: batches of 4 bytes, 7 6 5 4 | 7 6 5 4 | 7 6 5 4
    assert_eq!(
        universal(source, &['a', 'b', 'c', 'd', 'e'], 3),
        Some(String::from("eee"))
    );
}

#[test]
fn universal_non_ascii_symbols() {
    assert_eq!(
        universal(repeating, &['é', 'ß', 'ø'], 4),
        Some(String::from("øéßø"))
    );
}

#[test]
fn fast_picks_remainder_without_skipping() {
    let id = fast(counting, &['w', 'x', 'y', 'z'], 10);
    assert_eq!(id, "wxyzwxyzwx");
}

#[test]
fn fast_size_zero_draws_nothing() {
    assert_eq!(fast(never_called, &['a', 'b'], 0), "");
}

#[test]
fn map_bytes_uses_remainder() {
    assert_eq!(map_bytes(&['a', 'b', 'c', 'd'], &[0, 5, 255, 130, 3]), "abdcd");
    assert_eq!(map_bytes(&['a', 'b'], &[]), "");
}

#[test]
fn accept_bytes_filters_and_stops_at_size() {
    let mut symbols: Vec<char> = vec!['z'];
    let full = accept_bytes(&['a', 'b', 'c'], 3, &[2, 255, 0, 3, 1, 2], &mut symbols, 4);
    assert!(full);
    assert_eq!(symbols, vec!['z', 'c', 'a', 'b']);

    let mut symbols: Vec<char> = Vec::new();
    let full = accept_bytes(&['a', 'b', 'c'], 3, &[3, 7, 1], &mut symbols, 4);
    assert!(!full);
    assert_eq!(symbols, vec!['b']);
}

#[test]
fn masks_cover_the_alphabet() {
    assert_eq!(mask_of(0), 0);
    assert_eq!(mask_of(1), 0);
    assert_eq!(mask_of(2), 1);
    assert_eq!(mask_of(3), 3);
    assert_eq!(mask_of(4), 3);
    assert_eq!(mask_of(6), 7);
    assert_eq!(mask_of(62), 63);
    assert_eq!(mask_of(64), 63);
    assert_eq!(mask_of(129), 255);
    assert_eq!(mask_of(256), 255);
}

#[test]
fn batch_lengths() {
    assert_eq!(batch_len_of(0), 0);
    assert_eq!(batch_len_of(1), 1);
    assert_eq!(batch_len_of(4), 6);
    assert_eq!(batch_len_of(21), 33);
    assert_eq!(batch_len_of(usize::MAX), usize::MAX);
    assert_eq!(MAX_ROUNDS, u64::MAX);
}
