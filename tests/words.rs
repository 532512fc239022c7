use nanoid::format::{accept_words, word_batch_len_of};

#[test]
fn format_generates_random_string() {
    fn random(size: usize) -> Vec<u32> {
        let sequence: Vec<u32> = vec![2, 255, 0, 1];

        let mut bytes: Vec<u32> = vec![];

        let mut i = 0;
        while i < size {
            let (elements, _) = sequence.split_at(if size - i > sequence.len() {
                sequence.len()
            } else {
                size - i
            });

            for &el in elements {
                bytes.push(el);
            }

            i += sequence.len();
        }

        bytes
    }

    assert_eq!(nanoid::format::format(random, &['a', 'b', 'c'], 4), Some(String::from("cabc")));
}

#[test]
fn words_are_masked_not_truncated() {
    fn random(size: usize) -> Vec<u32> {
        [0x1_0002, 0xffff_fff3, 0x4_0001].iter().cloned().cycle().take(size).collect()
    }
    // mask 3: 0x1_0002 -> 2, 0xffff_fff3 -> 3 (rejected), 0x4_0001 -> 1
    assert_eq!(nanoid::format::format(random, &['a', 'b', 'c'], 3), Some(String::from("cbc")));
}

#[test]
fn words_size_zero() {
    fn never_called(_size: usize) -> Vec<u32> {
        panic!("no word may be requested")
    }
    assert_eq!(nanoid::format::format(never_called, &['a', 'b'], 0), Some(String::new()));
}

#[test]
fn word_batch_lengths() {
    assert_eq!(word_batch_len_of(3, 4), 20);
    assert_eq!(word_batch_len_of(1, 1), 2);
    assert_eq!(word_batch_len_of(0, 5), 5);
    assert_eq!(word_batch_len_of(1, 0), 0);
    assert_eq!(word_batch_len_of(63, 21), 2117);
    assert_eq!(word_batch_len_of(255, usize::MAX), usize::MAX);
}

#[test]
fn accept_words_filters() {
    let mut symbols: Vec<char> = Vec::new();
    let full = accept_words(&['a', 'b', 'c'], 3, &[7, 6, 5, 4], &mut symbols, 2);
    assert!(full);
    assert_eq!(symbols, vec!['c', 'b']);
}

#[test]
fn words_single_symbol_alphabet() {
    fn random(size: usize) -> Vec<u32> {
        assert_eq!(size, 5);
        vec![0xdead_beef; size]
    }
    assert_eq!(nanoid::format::format(random, &['x'], 5), Some(String::from("xxxxx")));
}
