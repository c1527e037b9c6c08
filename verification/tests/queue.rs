use route_schedule::queue::MinKeyValueQueue;

#[test]
fn smallest_key_leaves_first() {
    let mut queue: MinKeyValueQueue<u64, &str> = MinKeyValueQueue::new();
    assert!(queue.is_empty());
    assert_eq!(queue.peek(), None);
    assert_eq!(queue.pop(), None);

    queue.push((3, "c"));
    queue.push((1, "a"));
    queue.push((2, "b"));
    assert!(!queue.is_empty());
    assert_eq!(queue.peek(), Some((&1, &"a")));
    assert_eq!(queue.pop(), Some((1, "a")));

    queue.push((0, "z"));
    assert_eq!(queue.pop(), Some((0, "z")));
    assert_eq!(queue.pop(), Some((2, "b")));
    assert_eq!(queue.pop(), Some((3, "c")));
    assert_eq!(queue.pop(), None);
    assert!(queue.is_empty());
}

#[test]
fn leaves_in_key_order_and_loses_nothing() {
    // Every residue occurs, in an order that is anything but sorted, and some keys repeat.
    let pairs: Vec<(u64, u64)> = (0..500).map(|i| ((i * 7919) % 211, i)).collect();
    let mut queue: MinKeyValueQueue<u64, u64> = MinKeyValueQueue::new();
    for pair in pairs.iter() {
        queue.push(*pair);
    }
    let mut out: Vec<(u64, u64)> = vec![];
    while let Some(pair) = queue.pop() {
        out.push(pair);
    }
    assert!(out.windows(2).all(|w| w[0].0 <= w[1].0));
    let (mut expected, mut actual) = (pairs, out);
    expected.sort();
    actual.sort();
    assert_eq!(actual, expected);
}

#[test]
fn pairs_with_equal_keys_are_all_kept() {
    let mut queue: MinKeyValueQueue<u64, char> = MinKeyValueQueue::new();
    queue.push((1, 'x'));
    queue.push((1, 'y'));
    queue.push((1, 'x'));
    let mut values: Vec<char> = vec![];
    while let Some((key, value)) = queue.pop() {
        assert_eq!(key, 1);
        values.push(value);
    }
    values.sort();
    assert_eq!(values, vec!['x', 'x', 'y']);
}
