use mesh_msg::channel::ControlMsg;
use mesh_msg::{App, ConnectionDetails, Context, Core, ListenDetails};
use std::cell::RefCell;
use std::rc::Rc;

#[test]
fn details_are_unit_records() {
    assert_eq!(ConnectionDetails::new(), ConnectionDetails);
    assert_eq!(ListenDetails::new(), ListenDetails);
}

type Seen = Rc<RefCell<Vec<(Vec<usize>, Vec<usize>)>>>;

struct Lists(Seen);

impl App for Lists {
    fn handle_connect(&mut self, ctx: &Context, _id: usize) {
        let mut c = ctx.connection_ids();
        c.sort();
        let mut l = ctx.listener_ids();
        l.sort();
        self.0.borrow_mut().push((c, l));
    }
}

#[test]
fn connection_ids_lists_each_connection_once() {
    let seen: Seen = Rc::new(RefCell::new(vec![]));
    let (mut core, _rx) = Core::new(Lists(seen.clone()));
    let l = core.listen();
    let mut ids = vec![];
    for _ in 0..10 {
        ids.push(core.connect());
    }
    ids.sort();
    let last = seen.borrow().last().cloned().unwrap();
    assert_eq!(last.0, ids);
    assert_eq!(last.1, vec![l]);
}

struct Writer(Rc<RefCell<Vec<bool>>>);

impl App for Writer {
    fn handle_connect(&mut self, ctx: &Context, id: usize) {
        self.0.borrow_mut().push(ctx.write_frame(id, b"hi".to_vec()));
    }
}

#[test]
fn context_write_frame_goes_through_the_channel() {
    let sent = Rc::new(RefCell::new(vec![]));
    let (mut core, rx) = Core::new(Writer(sent.clone()));
    let c = core.connect();
    assert_eq!(*sent.borrow(), vec![true]);
    match rx.try_recv() {
        Ok(ControlMsg::WriteFrame(id, payload)) => {
            assert_eq!(id, c);
            assert_eq!(payload, b"hi".to_vec());
        }
        Err(_) => panic!("nothing was sent"),
    }
    assert!(rx.try_recv().is_err());
    drop(rx);
    core.connect();
    assert_eq!(*sent.borrow(), vec![true, false]);
}

#[test]
fn write_request_carries_the_identifier_and_the_payload() {
    match mesh_msg::channel::write_request(7, b"abc".to_vec()) {
        ControlMsg::WriteFrame(id, payload) => {
            assert_eq!(id, 7);
            assert_eq!(payload, b"abc".to_vec());
        }
    }
}
