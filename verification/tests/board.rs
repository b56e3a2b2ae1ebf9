use flock::board::Board;
use flock::event::WorkerId;

fn pairs(board: &Board<u64>, topic: &String) -> Vec<(WorkerId, u64)> {
    match board.query(topic) {
        Some(v) => v.clone(),
        None => Vec::new(),
    }
}

#[test]
fn subscribe_then_query_contains_pair() {
    let mut board: Board<u64> = Board::new();
    board.subscribe(String::from("a"), WorkerId(0), 7);
    let subs = pairs(&board, &String::from("a"));
    assert!(subs.contains(&(WorkerId(0), 7)));
    assert_eq!(subs.len(), 1);
}

#[test]
fn repeated_subscribe_does_not_grow() {
    let mut board: Board<u64> = Board::new();
    board.subscribe(String::from("a"), WorkerId(0), 7);
    board.subscribe(String::from("a"), WorkerId(0), 7);
    let subs = pairs(&board, &String::from("a"));
    assert_eq!(subs.len(), 1);
    assert!(subs.contains(&(WorkerId(0), 7)));
}

#[test]
fn unsubscribe_removes_only_the_worker() {
    let mut board: Board<u64> = Board::new();
    board.subscribe(String::from("a"), WorkerId(0), 7);
    board.subscribe(String::from("a"), WorkerId(1), 8);
    board.unsubscribe(String::from("a"), WorkerId(0));
    let subs = pairs(&board, &String::from("a"));
    assert!(!subs.iter().any(|p| p.0 == WorkerId(0)));
    assert!(subs.contains(&(WorkerId(1), 8)));
    assert_eq!(subs.len(), 1);
}

#[test]
fn unsubscribe_never_subscribed_is_noop() {
    let mut board: Board<u64> = Board::new();
    board.subscribe(String::from("a"), WorkerId(0), 7);
    board.unsubscribe(String::from("a"), WorkerId(1));
    board.unsubscribe(String::from("b"), WorkerId(0));
    let subs = pairs(&board, &String::from("a"));
    assert_eq!(subs.len(), 1);
    assert!(subs.contains(&(WorkerId(0), 7)));
    assert!(board.query(&String::from("b")).is_none());
}

#[test]
fn unknown_topic_queries_empty() {
    let board: Board<u64> = Board::new();
    assert!(board.query(&String::from("nothing")).is_none());
}

#[test]
fn subscriptions_are_per_topic() {
    let mut board: Board<u64> = Board::new();
    board.subscribe(String::from("a"), WorkerId(0), 7);
    board.subscribe(String::from("b"), WorkerId(0), 7);
    board.subscribe(String::from("b"), WorkerId(2), 9);
    board.unsubscribe(String::from("a"), WorkerId(0));
    let a = pairs(&board, &String::from("a"));
    let b = pairs(&board, &String::from("b"));
    assert_eq!(a.len(), 0);
    assert_eq!(b.len(), 2);
    assert!(b.contains(&(WorkerId(0), 7)));
    assert!(b.contains(&(WorkerId(2), 9)));
}
