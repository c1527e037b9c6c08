use route_schedule::stream::{swap_item, InputPoll, QueuedPoll, QueuedStream};

type Item = (u64, &'static str);

fn stream_of(items: Vec<Item>) -> QueuedStream<u64, &'static str> {
    let mut stream = QueuedStream::new();
    for item in items {
        assert_eq!(stream.poll_next(InputPoll::Ready(item)), QueuedPoll::PollInput);
    }
    stream
}

#[test]
fn waits_or_ends_with_its_input() {
    let mut stream: QueuedStream<u64, &str> = QueuedStream::new();
    assert_eq!(stream.poll_next(InputPoll::Pending), QueuedPoll::Pending);
    assert_eq!(stream.poll_next(InputPoll::Ended), QueuedPoll::Ready(None));
    assert_eq!(stream.poll_next(InputPoll::Terminated), QueuedPoll::Ready(None));
}

#[test]
fn emits_first_of_all_at_hand() {
    let mut stream = stream_of(vec![(2, "two"), (0, "zero"), (1, "one")]);
    assert_eq!(
        stream.poll_next(InputPoll::Pending),
        QueuedPoll::Ready(Some((0, "zero")))
    );
    // Items that came later go before ones that are already cached.
    stream.poll_next(InputPoll::Ready((0, "late")));
    assert_eq!(
        stream.poll_next(InputPoll::Ended),
        QueuedPoll::Ready(Some((0, "late")))
    );
    assert_eq!(
        stream.poll_next(InputPoll::Terminated),
        QueuedPoll::Ready(Some((1, "one")))
    );
    assert_eq!(
        stream.poll_next(InputPoll::Terminated),
        QueuedPoll::Ready(Some((2, "two")))
    );
    assert_eq!(stream.poll_next(InputPoll::Terminated), QueuedPoll::Ready(None));
}

#[test]
fn terminated_only_with_nothing_cached() {
    let mut stream = stream_of(vec![(5, "five")]);
    assert!(!stream.is_terminated(false));
    assert!(!stream.is_terminated(true));
    stream.poll_next(InputPoll::Terminated);
    assert!(!stream.is_terminated(false));
    assert!(stream.is_terminated(true));
}

#[test]
fn items_swap_halves() {
    assert_eq!(swap_item(InputPoll::Ready((1, 'a'))), InputPoll::Ready(('a', 1)));
    assert_eq!(swap_item::<u8, char>(InputPoll::Pending), InputPoll::Pending);
    assert_eq!(swap_item::<u8, char>(InputPoll::Ended), InputPoll::Ended);
    assert_eq!(swap_item::<u8, char>(InputPoll::Terminated), InputPoll::Terminated);
}
