use death_rs::error::Error;
use death_rs::shutdown::{Event, Shutdown};

fn failure() -> Event {
    Event::Finished(Err(Error::Worker(String::from("fail shutdown"))))
}

fn clean() -> Event {
    Event::Finished(Ok(()))
}

fn notify_all(s: &mut Shutdown) -> Vec<usize> {
    let mut stopped = Vec::new();
    while let Some(i) = s.next_stop() {
        stopped.push(i);
    }
    stopped
}

fn run(workers: usize, events: Vec<Event>) -> Vec<Error> {
    let mut s = Shutdown::new(workers);
    notify_all(&mut s);
    for e in events {
        if s.record(e) {
            break;
        }
    }
    s.into_errors()
}

#[test]
fn test_shutdown_failure() {
    let errors = run(1, vec![failure()]);
    assert_eq!(errors.len(), 1);
}

#[test]
fn test_shutdown_success() {
    let errors = run(1, vec![clean()]);
    assert_eq!(errors.len(), 0);
}

#[test]
fn test_shutdown_multiple_failures() {
    let errors = run(10, (0..10).map(|_| failure()).collect());
    assert_eq!(errors.len(), 10);
    assert!(errors.iter().all(|e| !e.is_timed_out()));
}

#[test]
fn test_shutdown_some_failures() {
    let mut events: Vec<Event> = (0..10).map(|_| failure()).collect();
    events.extend((0..10).map(|_| clean()));
    let errors = run(20, events);
    assert_eq!(errors.len(), 10);
}

#[test]
fn test_timeout_failures() {
    // the ten quick workers report, the ten slow ones miss the deadline
    let mut events: Vec<Event> = (0..10).map(|_| clean()).collect();
    events.push(Event::TimerFired);
    events.extend((0..10).map(|_| failure()));
    let errors = run(20, events);
    assert_eq!(errors.len(), 1);
    assert_eq!(errors[0], Error::TimedOut(10));
    assert!(errors[0].is_timed_out());
}

#[test]
fn all_clean_gives_no_errors() {
    let errors = run(5, (0..5).map(|_| clean()).collect());
    assert!(errors.is_empty());
}

#[test]
fn no_workers_is_finished_at_once() {
    let mut s = Shutdown::new(0);
    assert!(s.is_finished());
    assert_eq!(s.next_stop(), None);
    assert!(s.record(Event::TimerFired));
    assert!(s.into_errors().is_empty());
}

#[test]
fn every_worker_is_notified_once_in_order() {
    let mut s = Shutdown::new(4);
    assert_eq!(notify_all(&mut s), vec![0, 1, 2, 3]);
    assert_eq!(s.next_stop(), None);
    assert!(!s.is_finished());
}

#[test]
fn deadline_counts_the_stragglers() {
    let errors = run(5, vec![failure(), clean(), Event::TimerFired]);
    assert_eq!(errors, vec![Error::Worker(String::from("fail shutdown")), Error::TimedOut(3)]);
}

#[test]
fn nothing_is_added_after_the_deadline() {
    let mut s = Shutdown::new(2);
    assert!(!s.record(clean()));
    assert!(s.record(Event::TimerFired));
    assert!(s.record(failure()));
    assert!(s.record(Event::ChannelFailed));
    assert_eq!(s.into_errors(), vec![Error::TimedOut(1)]);
}

#[test]
fn failed_receive_counts_as_a_failure() {
    let errors = run(2, vec![Event::ChannelFailed, clean()]);
    assert_eq!(errors, vec![Error::Channel]);
}

#[test]
fn timed_out_is_told_apart() {
    assert!(Error::TimedOut(0).is_timed_out());
    assert!(!Error::Channel.is_timed_out());
    assert!(!Error::Io(String::from("refused")).is_timed_out());
}
