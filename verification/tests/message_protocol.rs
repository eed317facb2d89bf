use thpool::dispatch::Dispatch;
use thpool::message::{on_message, Message, Step};

#[test]
fn work_message_is_run() {
    match on_message(Message::Work(7u64)) {
        Step::Run(job) => assert_eq!(job, 7),
        Step::Exit => panic!("a work message must be run"),
    }
}

#[test]
fn terminate_message_ends_the_loop() {
    match on_message(Message::<u64>::Terminate) {
        Step::Run(_) => panic!("the terminate sentinel must end the loop"),
        Step::Exit => {}
    }
}

#[test]
fn dispatch_delivers_in_order_and_exactly_once() {
    let mut d: Dispatch<u64> = Dispatch::new();
    assert_eq!(d.len(), 0);
    d.send(Message::Work(1));
    d.send(Message::Work(2));
    d.send(Message::Terminate);
    assert_eq!(d.len(), 3);
    assert!(matches!(d.recv(), Message::Work(1)));
    assert!(matches!(d.recv(), Message::Work(2)));
    assert!(matches!(d.recv(), Message::Terminate));
    assert_eq!(d.len(), 0);
}
