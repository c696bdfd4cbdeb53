use mesh_msg::table::{Socket, SocketTable};

#[test]
fn save_puts_the_entry_under_the_smallest_free_key() {
    let mut table = SocketTable::new();
    assert_eq!(table.vacant_key(), 0);
    let a = Socket::Control.save(&mut table);
    let b = Socket::Listen.save(&mut table);
    let c = Socket::framed_stream().save(&mut table);
    assert_eq!((a, b, c), (0, 1, 2));
    assert!(matches!(table.get(a), Some(Socket::Control)));
    assert!(matches!(table.get(b), Some(Socket::Listen)));
    match table.get(c) {
        Some(Socket::Stream(stream)) => assert_eq!(stream.pending(), 0),
        _ => panic!("the stream is not where it was saved"),
    }
    assert!(table.get(3).is_none());
    assert_eq!(table.vacant_key(), 3);
}

#[test]
fn insert_fills_the_smallest_gap_first() {
    let mut table = SocketTable::new();
    for _ in 0..5 {
        table.insert(Socket::Listen);
    }
    assert!(matches!(table.remove(1), Some(Socket::Listen)));
    assert!(matches!(table.remove(3), Some(Socket::Listen)));
    assert_eq!(table.vacant_key(), 1);
    assert_eq!(table.insert(Socket::Control), 1);
    assert_eq!(table.vacant_key(), 3);
    assert_eq!(table.insert(Socket::framed_stream()), 3);
    assert_eq!(table.insert(Socket::Listen), 5);
    assert!(matches!(table.get(1), Some(Socket::Control)));
    assert!(matches!(table.get(3), Some(Socket::Stream(_))));
    // Removed in the other order, the smaller is still first.
    table.remove(4);
    table.remove(2);
    assert_eq!(table.insert(Socket::Listen), 2);
    assert_eq!(table.insert(Socket::Listen), 4);
}

#[test]
fn remove_gives_the_entry_once() {
    let mut table = SocketTable::new();
    let a = table.insert(Socket::framed_stream());
    let b = table.insert(Socket::Listen);
    assert!(matches!(table.remove(a), Some(Socket::Stream(_))));
    assert!(table.remove(a).is_none());
    assert!(table.get(a).is_none());
    assert!(matches!(table.get(b), Some(Socket::Listen)));
    assert!(table.remove(77).is_none());
}

#[test]
fn get_mut_changes_the_entry_in_place() {
    let mut table = SocketTable::new();
    table.insert(Socket::Control);
    let id = table.insert(Socket::framed_stream());
    let other = table.insert(Socket::framed_stream());
    match table.get_mut(id) {
        Some(Socket::Stream(stream)) => {
            stream.queue_write(b"abc").unwrap();
        }
        _ => panic!("no stream under its identifier"),
    }
    assert!(table.get_mut(9).is_none());
    match (table.get(id), table.get(other)) {
        (Some(Socket::Stream(changed)), Some(Socket::Stream(same))) => {
            assert_eq!(changed.pending(), 5);
            assert_eq!(same.pending(), 0);
        }
        _ => panic!("the streams are not where they were"),
    }
}
