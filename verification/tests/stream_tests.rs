use rowshell::lang::stream::{Offered, RecvOutcome, RowStream};
use rowshell::lang::table::Row;
use rowshell::lang::value::Value;

fn row(i: i128) -> Row {
    Row::new(vec![Value::Integer(i)])
}

fn sent(r: Offered) -> bool {
    matches!(r, Offered::Sent)
}

fn received(r: RecvOutcome) -> Option<Row> {
    match r {
        RecvOutcome::Received(row) => Some(row),
        _ => None,
    }
}

#[test]
fn stream_keeps_the_order() {
    let mut stream = RowStream::new(4);
    assert!(sent(stream.offer(row(1))));
    assert!(sent(stream.offer(row(2))));
    assert_eq!(received(stream.take()), Some(row(1)));
    assert!(sent(stream.offer(row(3))));
    assert_eq!(received(stream.take()), Some(row(2)));
    assert_eq!(received(stream.take()), Some(row(3)));
    assert!(matches!(stream.take(), RecvOutcome::Empty));
}

#[test]
fn full_stream_hands_the_row_back() {
    let mut stream = RowStream::new(1);
    assert!(sent(stream.offer(row(1))));
    match stream.offer(row(2)) {
        Offered::Full(back) => assert_eq!(back, row(2)),
        _ => panic!("the stream took a row it has no room for"),
    }
    assert_eq!(received(stream.take()), Some(row(1)));
    assert!(sent(stream.offer(row(2))));
}

#[test]
fn sender_gone_ends_the_stream_after_its_rows() {
    let mut stream = RowStream::new(2);
    assert!(sent(stream.offer(row(1))));
    stream.close_sender();
    assert_eq!(received(stream.take()), Some(row(1)));
    assert!(matches!(stream.take(), RecvOutcome::EndOfStream));
    assert!(matches!(stream.take(), RecvOutcome::EndOfStream));
    assert!(matches!(stream.offer(row(2)), Offered::Disconnected(_)));
}

#[test]
fn receiver_gone_fails_sends_at_once() {
    let mut stream = RowStream::new(1);
    assert!(sent(stream.offer(row(1))));
    stream.close_receiver();
    match stream.offer(row(2)) {
        Offered::Disconnected(back) => assert_eq!(back, row(2)),
        _ => panic!("a send into a stream without reader did not fail"),
    }
    assert!(matches!(stream.take(), RecvOutcome::EndOfStream));
}

#[test]
fn stream_without_room_is_always_full() {
    let mut stream = RowStream::new(0);
    assert!(matches!(stream.offer(row(1)), Offered::Full(_)));
    assert!(matches!(stream.take(), RecvOutcome::Empty));
}
