use flock::board::Board;
use flock::event::{CoreCommand, Event, WorkerId};
use flock::flock::{dec_string, handle_command, thread_name, Flock};

fn three_listeners() -> Vec<u64> {
    vec![100, 101, 102]
}

#[test]
fn event_new_keeps_its_parts() {
    let e = Event::new(String::from("t"), vec![1, 2, 3], true, 9);
    assert_eq!(e.topic, String::from("t"));
    assert_eq!(e.payload, vec![1, 2, 3]);
    assert!(e.is_last);
    assert_eq!(e.sequence, 9);
}

#[test]
fn publish_fans_out_one_event_per_subscriber() {
    let mut board: Board<u64> = Board::new();
    let listeners = three_listeners();
    let mut counter: u64 = 0;
    handle_command(
        &mut board,
        &listeners,
        &mut counter,
        CoreCommand::Listen(WorkerId(1), String::from("jobs")),
    );
    handle_command(
        &mut board,
        &listeners,
        &mut counter,
        CoreCommand::Listen(WorkerId(2), String::from("jobs")),
    );
    let deliveries = handle_command(
        &mut board,
        &listeners,
        &mut counter,
        CoreCommand::Publish(String::from("jobs"), vec![5, 6], false),
    );
    assert_eq!(deliveries.len(), 2);
    let mut workers: Vec<usize> = deliveries.iter().map(|d| d.worker.0).collect();
    workers.sort();
    assert_eq!(workers, vec![1, 2]);
    for d in &deliveries {
        assert_eq!(d.event.topic, String::from("jobs"));
        assert_eq!(d.event.payload, vec![5, 6]);
        assert!(!d.event.is_last);
        assert_eq!(d.event.sequence, 0);
    }
    assert_eq!(counter, 1);
}

#[test]
fn sequence_numbers_increase_across_publishes() {
    let mut board: Board<u64> = Board::new();
    let listeners = three_listeners();
    let mut counter: u64 = 0;
    handle_command(
        &mut board,
        &listeners,
        &mut counter,
        CoreCommand::Listen(WorkerId(0), String::from("a")),
    );
    handle_command(
        &mut board,
        &listeners,
        &mut counter,
        CoreCommand::Listen(WorkerId(1), String::from("b")),
    );
    let first = handle_command(
        &mut board,
        &listeners,
        &mut counter,
        CoreCommand::Publish(String::from("a"), vec![1], false),
    );
    let second = handle_command(
        &mut board,
        &listeners,
        &mut counter,
        CoreCommand::Publish(String::from("b"), vec![2], false),
    );
    assert_eq!(first[0].event.sequence, 0);
    assert_eq!(second[0].event.sequence, 1);
    assert!(first[0].event.sequence < second[0].event.sequence);
}

#[test]
fn publish_without_subscribers_is_dropped() {
    let mut board: Board<u64> = Board::new();
    let listeners = three_listeners();
    let mut counter: u64 = 0;
    let deliveries = handle_command(
        &mut board,
        &listeners,
        &mut counter,
        CoreCommand::Publish(String::from("quiet"), vec![1], true),
    );
    assert!(deliveries.is_empty());
    assert_eq!(counter, 0);
    // the dropped publish consumed no sequence number
    handle_command(
        &mut board,
        &listeners,
        &mut counter,
        CoreCommand::Listen(WorkerId(0), String::from("quiet")),
    );
    let later = handle_command(
        &mut board,
        &listeners,
        &mut counter,
        CoreCommand::Publish(String::from("quiet"), vec![2], false),
    );
    assert_eq!(later[0].event.sequence, 0);
}

#[test]
fn driver_session_delivers_then_goes_silent() {
    let mut board: Board<u64> = Board::new();
    let listeners = three_listeners();
    let mut counter: u64 = 0;
    handle_command(
        &mut board,
        &listeners,
        &mut counter,
        CoreCommand::Listen(WorkerId(0), String::from("a")),
    );
    let first = handle_command(
        &mut board,
        &listeners,
        &mut counter,
        CoreCommand::Publish(String::from("a"), vec![7, 7], false),
    );
    assert_eq!(first.len(), 1);
    assert_eq!(first[0].worker, WorkerId(0));
    assert_eq!(first[0].event.topic, String::from("a"));
    assert_eq!(first[0].event.payload, vec![7, 7]);
    assert_eq!(first[0].event.sequence, 0);
    assert!(!first[0].event.is_last);
    handle_command(
        &mut board,
        &listeners,
        &mut counter,
        CoreCommand::Ignore(WorkerId(0), String::from("a")),
    );
    let second = handle_command(
        &mut board,
        &listeners,
        &mut counter,
        CoreCommand::Publish(String::from("a"), vec![8, 8], true),
    );
    assert!(second.is_empty());
}

#[test]
fn default_configuration_has_workers() {
    let f = Flock::new();
    assert!(f.worker_count >= 1);
    assert_eq!(f.prefix, String::from("flock-"));
    assert!(f.validate());
}

#[test]
fn builder_steps_replace_one_field_each() {
    let f = Flock::new().num_workers(4).name_prefix(String::from("w-"));
    assert_eq!(f.worker_count, 4);
    assert_eq!(f.prefix, String::from("w-"));
    let g = f.num_workers(2);
    assert_eq!(g.worker_count, 2);
    assert_eq!(g.prefix, String::from("w-"));
}

#[test]
fn zero_workers_is_invalid() {
    let f = Flock::new().num_workers(0);
    assert!(!f.validate());
}

#[test]
fn worker_names_follow_prefix_and_index() {
    let f = Flock::new().num_workers(3).name_prefix(String::from("flock-"));
    let names = f.worker_names();
    assert_eq!(
        names,
        vec![
            String::from("flock-0"),
            String::from("flock-1"),
            String::from("flock-2")
        ]
    );
}

#[test]
fn decimal_rendering_is_exact() {
    assert_eq!(dec_string(0), String::from("0"));
    assert_eq!(dec_string(7), String::from("7"));
    assert_eq!(dec_string(10), String::from("10"));
    assert_eq!(dec_string(12034), String::from("12034"));
    assert_eq!(
        dec_string(usize::MAX),
        format!("{}", usize::MAX)
    );
    assert_eq!(thread_name("w-", 12), String::from("w-12"));
}
