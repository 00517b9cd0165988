use pi_core::order::{precedes, sort_indices, SortKey};

fn key(score: i64, preferred: bool, first: &str, second: &str) -> SortKey {
    SortKey {
        score,
        preferred,
        first: first.chars().collect(),
        second: second.chars().collect(),
    }
}

#[test]
fn keys_are_sorted_part_by_part() {
    let keys = vec![
        key(1, true, "a", "a"),
        key(2, false, "b", "a"),
        key(2, true, "z", "a"),
        key(2, false, "a", "b"),
        key(2, false, "a", "a"),
    ];
    assert_eq!(sort_indices(&keys), vec![2, 4, 3, 1, 0]);
}

#[test]
fn equal_keys_keep_their_order() {
    let keys = vec![key(0, false, "x", ""), key(0, false, "", ""), key(0, false, "x", "")];
    assert_eq!(sort_indices(&keys), vec![1, 0, 2]);
    assert_eq!(sort_indices(&Vec::new()), Vec::<usize>::new());
}

#[test]
fn texts_are_ordered_as_std_does() {
    let samples = ["", "a", "aa", "ab", "b", "B", "\u{e4}", "\u{ffff}", "\u{10000}", "a\u{0}"];
    for a in samples {
        for b in samples {
            let (x, y): (Vec<char>, Vec<char>) = (a.chars().collect(), b.chars().collect());
            assert_eq!(precedes(&x, &y), a < b, "{a:?} {b:?}");
        }
    }
}

#[test]
fn long_lists_are_sorted_stably() {
    let mut seed: u64 = 12345;
    let mut next = move || {
        seed = seed.wrapping_mul(6364136223846793005).wrapping_add(1442695040888963407);
        (seed >> 33) % 4
    };
    let keys: Vec<SortKey> = (0..200)
        .map(|_| {
            let texts = ["", "a", "b", "ab"];
            let first = texts[next() as usize];
            let second = texts[next() as usize];
            key(next() as i64, next() % 2 == 0, first, second)
        })
        .collect();
    let mut expected: Vec<usize> = (0..keys.len()).collect();
    expected.sort_by(|&i, &j| {
        let (a, b) = (&keys[i], &keys[j]);
        b.score
            .cmp(&a.score)
            .then_with(|| b.preferred.cmp(&a.preferred))
            .then_with(|| a.first.cmp(&b.first))
            .then_with(|| a.second.cmp(&b.second))
    });
    assert_eq!(sort_indices(&keys), expected);
}
