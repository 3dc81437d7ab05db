use std::collections::VecDeque;
use std::sync::{Arc, Mutex};
use std::time::{Duration, Instant};

use chanselect::context::Context;
use chanselect::handle::{endpoint_addr, RecvEndpoint, SelectHandle, SendEndpoint, Token};
use chanselect::ops::{Operation, Selected};
use chanselect::select::{
    RecvError, ReadyTimeoutError, Select, SelectTimeoutError, SendError, TryReadyError,
    TrySelectError,
};

// A small channel used to exercise the select machinery from the outside:
// unbounded when built with capacity `None`, and a zero-capacity channel
// (used by the scenarios only through its disconnected states) when built
// with `Some(0)`. Messages are plain `usize` values.

const TAG_MSG: usize = 1;
const TAG_DISCONNECTED: usize = 2;
const TAG_CAN_WRITE: usize = 3;

struct State {
    queue: VecDeque<usize>,
    zero_capacity: bool,
    senders: usize,
    receivers: usize,
    stamp: usize,
    recv_registered: Vec<(Operation, Context)>,
    recv_watchers: Vec<(Operation, Context)>,
    send_registered: Vec<(Operation, Context)>,
    send_watchers: Vec<(Operation, Context)>,
    register_false_calls: usize,
    unregister_calls: usize,
    read_calls: usize,
    write_calls: usize,
}

type Chan = Arc<Mutex<State>>;

fn wake(list: &mut Vec<(Operation, Context)>, outcome_is_message: bool) {
    while let Some((oper, cx)) = list.pop() {
        let sel = if outcome_is_message {
            Selected::Operation(oper)
        } else {
            Selected::Disconnected
        };
        if cx.try_select(sel).is_ok() {
            cx.unpark();
            if outcome_is_message {
                break;
            }
        }
    }
}

fn notify_watchers(list: &mut Vec<(Operation, Context)>) {
    while let Some((oper, cx)) = list.pop() {
        if cx.try_select(Selected::Operation(oper)).is_ok() {
            cx.unpark();
        }
    }
}

pub struct TestSender {
    chan: Chan,
}

pub struct TestReceiver {
    chan: Chan,
}

fn channel(capacity: Option<usize>) -> (TestSender, TestReceiver) {
    let st = Arc::new(Mutex::new(State {
        queue: VecDeque::new(),
        zero_capacity: capacity == Some(0),
        senders: 1,
        receivers: 1,
        stamp: 0,
        recv_registered: Vec::new(),
        recv_watchers: Vec::new(),
        send_registered: Vec::new(),
        send_watchers: Vec::new(),
        register_false_calls: 0,
        unregister_calls: 0,
        read_calls: 0,
        write_calls: 0,
    }));
    (TestSender { chan: st.clone() }, TestReceiver { chan: st })
}

impl TestSender {
    fn send(&self, msg: usize) {
        let mut st = self.chan.lock().unwrap();
        assert!(!st.zero_capacity, "direct send is only for the unbounded flavor");
        st.queue.push_back(msg);
        st.stamp += 1;
        let st = &mut *st;
        wake(&mut st.recv_registered, true);
        notify_watchers(&mut st.recv_watchers);
    }
}

impl TestReceiver {
    fn try_recv(&self) -> Result<usize, ()> {
        let mut st = self.chan.lock().unwrap();
        match st.queue.pop_front() {
            Some(m) => {
                st.stamp += 1;
                Ok(m)
            }
            None => Err(()),
        }
    }

    fn balance_counters(&self) -> (usize, usize) {
        let st = self.chan.lock().unwrap();
        (st.register_false_calls, st.unregister_calls)
    }

    fn completion_counters(&self) -> (usize, usize) {
        let st = self.chan.lock().unwrap();
        (st.read_calls, st.write_calls)
    }
}

impl Drop for TestSender {
    fn drop(&mut self) {
        let mut st = self.chan.lock().unwrap();
        st.senders -= 1;
        if st.senders == 0 {
            st.stamp += 1;
            let mut regs = std::mem::take(&mut st.recv_registered);
            let mut watchers = std::mem::take(&mut st.recv_watchers);
            drop(st);
            wake(&mut regs, false);
            notify_watchers(&mut watchers);
        }
    }
}

impl Drop for TestReceiver {
    fn drop(&mut self) {
        let mut st = self.chan.lock().unwrap();
        st.receivers -= 1;
        if st.receivers == 0 {
            st.stamp += 1;
            let mut regs = std::mem::take(&mut st.send_registered);
            let mut watchers = std::mem::take(&mut st.send_watchers);
            drop(st);
            wake(&mut regs, false);
            notify_watchers(&mut watchers);
        }
    }
}

impl SelectHandle for TestReceiver {
    // The erased form of the endpoint-identity specification; never called
    // at run time. It mirrors `addr`.
    fn id(&self) -> usize {
        endpoint_addr(self)
    }

    fn addr(&self) -> usize {
        endpoint_addr(self)
    }

    fn try_select(&self, token: &mut Token) -> bool {
        let mut st = self.chan.lock().unwrap();
        if let Some(m) = st.queue.pop_front() {
            st.stamp += 1;
            token.tag = TAG_MSG;
            token.stamp = m;
            true
        } else if st.senders == 0 {
            token.tag = TAG_DISCONNECTED;
            true
        } else {
            false
        }
    }

    fn deadline(&self) -> Option<u64> {
        None
    }

    fn register(&self, oper: Operation, cx: &Context) -> bool {
        let mut st = self.chan.lock().unwrap();
        if !st.queue.is_empty() || st.senders == 0 {
            true
        } else {
            st.recv_registered.push((oper, cx.clone()));
            st.register_false_calls += 1;
            false
        }
    }

    fn unregister(&self, oper: Operation) {
        let mut st = self.chan.lock().unwrap();
        st.unregister_calls += 1;
        st.recv_registered.retain(|(o, _)| *o != oper);
    }

    fn accept(&self, token: &mut Token, _cx: &Context) -> bool {
        self.try_select(token)
    }

    fn is_ready(&self) -> bool {
        let st = self.chan.lock().unwrap();
        !st.queue.is_empty() || st.senders == 0
    }

    fn watch(&self, oper: Operation, cx: &Context) -> bool {
        let mut st = self.chan.lock().unwrap();
        if !st.queue.is_empty() || st.senders == 0 {
            true
        } else {
            st.recv_watchers.push((oper, cx.clone()));
            false
        }
    }

    fn unwatch(&self, oper: Operation) {
        let mut st = self.chan.lock().unwrap();
        st.recv_watchers.retain(|(o, _)| *o != oper);
    }

    fn state(&self) -> usize {
        self.chan.lock().unwrap().stamp
    }
}

impl RecvEndpoint<usize> for TestReceiver {
    fn read(&self, token: &mut Token) -> Result<usize, ()> {
        self.chan.lock().unwrap().read_calls += 1;
        if token.tag == TAG_MSG {
            Ok(token.stamp)
        } else {
            Err(())
        }
    }
}

impl SelectHandle for TestSender {
    // The erased form of the endpoint-identity specification; never called
    // at run time. It mirrors `addr`.
    fn id(&self) -> usize {
        endpoint_addr(self)
    }

    fn addr(&self) -> usize {
        endpoint_addr(self)
    }

    fn try_select(&self, token: &mut Token) -> bool {
        let st = self.chan.lock().unwrap();
        if st.receivers == 0 {
            token.tag = TAG_DISCONNECTED;
            true
        } else if st.zero_capacity {
            false
        } else {
            token.tag = TAG_CAN_WRITE;
            true
        }
    }

    fn deadline(&self) -> Option<u64> {
        None
    }

    fn register(&self, oper: Operation, cx: &Context) -> bool {
        let mut st = self.chan.lock().unwrap();
        if st.receivers == 0 || !st.zero_capacity {
            true
        } else {
            st.send_registered.push((oper, cx.clone()));
            st.register_false_calls += 1;
            false
        }
    }

    fn unregister(&self, oper: Operation) {
        let mut st = self.chan.lock().unwrap();
        st.unregister_calls += 1;
        st.send_registered.retain(|(o, _)| *o != oper);
    }

    fn accept(&self, token: &mut Token, _cx: &Context) -> bool {
        self.try_select(token)
    }

    fn is_ready(&self) -> bool {
        let st = self.chan.lock().unwrap();
        st.receivers == 0 || !st.zero_capacity
    }

    fn watch(&self, oper: Operation, cx: &Context) -> bool {
        let mut st = self.chan.lock().unwrap();
        if st.receivers == 0 || !st.zero_capacity {
            true
        } else {
            st.send_watchers.push((oper, cx.clone()));
            false
        }
    }

    fn unwatch(&self, oper: Operation) {
        let mut st = self.chan.lock().unwrap();
        st.send_watchers.retain(|(o, _)| *o != oper);
    }

    fn state(&self) -> usize {
        self.chan.lock().unwrap().stamp
    }
}

impl SendEndpoint<usize> for TestSender {
    fn write(&self, token: &mut Token, msg: usize) -> Result<(), usize> {
        self.chan.lock().unwrap().write_calls += 1;
        if token.tag == TAG_DISCONNECTED {
            return Err(msg);
        }
        let mut st = self.chan.lock().unwrap();
        if st.receivers == 0 {
            return Err(msg);
        }
        st.queue.push_back(msg);
        st.stamp += 1;
        let st = &mut *st;
        wake(&mut st.recv_registered, true);
        notify_watchers(&mut st.recv_watchers);
        Ok(())
    }
}

fn busy_sleep(d: Duration) {
    let start = Instant::now();
    while start.elapsed() < d {
        std::hint::spin_loop();
    }
}

#[test]
fn two_ready_receivers() {
    let (s1, r1) = channel(None);
    let (s2, r2) = channel(None);
    s1.send(10);
    s2.send(20);
    let mut sel: Select<&TestReceiver> = Select::new();
    let oper1 = sel.recv(&r1);
    let oper2 = sel.recv(&r2);
    let oper = sel.try_select().expect("both operations are ready");
    let i = oper.index();
    assert!(i == oper1 || i == oper2);
    if i == oper1 {
        assert_eq!(oper.recv(&r1), Ok(10));
    } else {
        assert_eq!(oper.recv(&r2), Ok(20));
    }
}

#[test]
fn blocking_until_ready() {
    let (s1, r1) = channel(None);
    let (s2, r2) = channel(None);
    crossbeam_utils::thread::scope(|scope| {
        scope.spawn(|_| {
            busy_sleep(Duration::from_millis(500));
            s1.send(10);
        });
        scope.spawn(|_| {
            s2.send(20);
        });
        let mut sel: Select<&TestReceiver> = Select::new();
        let _oper1 = sel.recv(&r1);
        let oper2 = sel.recv(&r2);
        let oper = sel.select();
        assert_eq!(oper.index(), oper2);
        assert_eq!(oper.recv(&r2), Ok(20));
    })
    .unwrap();
    // Drain the late message so the channel state is consistent.
    busy_sleep(Duration::from_millis(50));
    assert_eq!(r1.try_recv(), Ok(10));
}

#[test]
fn blocked_select_wakes_on_send() {
    let (s, r) = channel(None);
    crossbeam_utils::thread::scope(|scope| {
        scope.spawn(|_| {
            busy_sleep(Duration::from_millis(200));
            s.send(42);
        });
        let mut sel: Select<&TestReceiver> = Select::new();
        let oper0 = sel.recv(&r);
        let oper = sel.select();
        assert_eq!(oper.index(), oper0);
        assert_eq!(oper.recv(&r), Ok(42));
    })
    .unwrap();
}

#[test]
fn select_timeout_elapses() {
    let (_s1, r1) = channel(None);
    let (_s2, r2) = channel(None);
    let mut sel: Select<&TestReceiver> = Select::new();
    sel.recv(&r1);
    sel.recv(&r2);
    let start = Instant::now();
    let res = sel.select_timeout(Duration::from_millis(400));
    let elapsed = start.elapsed();
    assert!(matches!(res, Err(SelectTimeoutError)));
    assert!(elapsed >= Duration::from_millis(300));
    assert!(elapsed < Duration::from_secs(5));
}

#[test]
fn ready_timeout_elapses() {
    let (_s, r) = channel(None);
    let mut sel: Select<&TestReceiver> = Select::new();
    sel.recv(&r);
    let res = sel.ready_timeout(Duration::from_millis(300));
    assert!(matches!(res, Err(ReadyTimeoutError)));
}

#[test]
fn disconnected_recv_is_ready() {
    let (s, r) = channel(Some(0));
    drop(s);
    let mut sel: Select<&TestReceiver> = Select::new();
    let oper0 = sel.recv(&r);
    let oper = sel.select();
    assert_eq!(oper.index(), oper0);
    assert_eq!(oper.recv(&r), Err(RecvError));
}

#[test]
fn disconnected_send_on_zero_capacity() {
    let (s, r) = channel(Some(0));
    drop(r);
    let mut sel: Select<&TestSender> = Select::new();
    let oper0 = sel.send(&s);
    let oper = sel.select();
    assert_eq!(oper.index(), oper0);
    assert_eq!(oper.send(&s, 10), Err(SendError(10)));
}

#[test]
fn ready_reports_disconnected_entry() {
    let (s1, r1) = channel(None);
    drop(s1);
    let (_s2, r2) = channel(Some(0));
    let mut sel: Select<&TestReceiver> = Select::new();
    let oper1 = sel.recv(&r1);
    let _oper2 = sel.recv(&r2);
    let i = sel.ready();
    assert_eq!(i, oper1);
    assert_eq!(r1.try_recv(), Err(()));
}

#[test]
fn ready_wakes_through_watchers() {
    let (s1, r1) = channel(None);
    let (_s2, r2) = channel(None);
    crossbeam_utils::thread::scope(|scope| {
        scope.spawn(|_| {
            busy_sleep(Duration::from_millis(300));
            s1.send(7);
        });
        let mut sel: Select<&TestReceiver> = Select::new();
        let oper1 = sel.recv(&r1);
        let _oper2 = sel.recv(&r2);
        let i = sel.ready();
        assert_eq!(i, oper1);
        assert_eq!(r1.try_recv(), Ok(7));
    })
    .unwrap();
}

#[test]
fn empty_select_fails_without_blocking() {
    let mut sel: Select<&TestReceiver> = Select::new();
    assert!(matches!(sel.try_select(), Err(TrySelectError)));
    assert!(matches!(sel.try_ready(), Err(TryReadyError)));
    assert!(matches!(
        sel.select_timeout(Duration::from_millis(10)),
        Err(SelectTimeoutError)
    ));
    assert!(matches!(
        sel.ready_timeout(Duration::from_millis(10)),
        Err(ReadyTimeoutError)
    ));
}

#[test]
fn try_select_on_quiet_channels_fails() {
    let (_s1, r1) = channel(None);
    let (_s2, r2) = channel(None);
    let mut sel: Select<&TestReceiver> = Select::new();
    sel.recv(&r1);
    sel.recv(&r2);
    assert!(matches!(sel.try_select(), Err(TrySelectError)));
    assert!(matches!(sel.try_ready(), Err(TryReadyError)));
}

#[test]
fn send_select_on_unbounded_channel() {
    let (s, r) = channel(None);
    let mut sel: Select<&TestSender> = Select::new();
    let oper0 = sel.send(&s);
    let oper = sel.try_select().expect("an unbounded send is always ready");
    assert_eq!(oper.index(), oper0);
    assert_eq!(oper.send(&s, 5), Ok(()));
    assert_eq!(r.try_recv(), Ok(5));
}

#[test]
fn completion_with_wrong_endpoint_is_refused() {
    let (s1, r1) = channel(None);
    let (_s2, r2) = channel(None);
    s1.send(1);
    let mut sel: Select<&TestReceiver> = Select::new();
    let oper1 = sel.recv(&r1);
    let oper = sel.select();
    assert_eq!(oper.index(), oper1);
    // Completing with a foreign endpoint breaks the completion contract
    // (only unverified code can do it); the call is refused defensively and
    // nothing is read from the wrong channel.
    assert_eq!(oper.recv(&r2), Err(RecvError));
    // The reservation made for the right endpoint was consumed by the
    // select; the refused completion leaks it, and the other channel was
    // never touched.
    assert_eq!(r2.try_recv(), Err(()));
}

#[test]
fn registration_balances_with_unregistration() {
    let (_s1, r1) = channel(None);
    let (_s2, r2) = channel(None);
    let mut sel: Select<&TestReceiver> = Select::new();
    sel.recv(&r1);
    sel.recv(&r2);
    let res = sel.select_timeout(Duration::from_millis(300));
    assert!(matches!(res, Err(SelectTimeoutError)));
    let (reg1, unreg1) = r1.balance_counters();
    let (reg2, unreg2) = r2.balance_counters();
    assert!(reg1 + reg2 > 0);
    assert_eq!(reg1, unreg1);
    assert_eq!(reg2, unreg2);
}

#[test]
fn fairness_over_two_ready_operations() {
    let (s1, r1) = channel(None);
    let (s2, r2) = channel(None);
    let mut hits = [0usize, 0usize];
    for _ in 0..300 {
        s1.send(1);
        s2.send(2);
        let mut sel: Select<&TestReceiver> = Select::new();
        let oper1 = sel.recv(&r1);
        let oper2 = sel.recv(&r2);
        let oper = sel.try_select().expect("both operations are ready");
        let i = oper.index();
        if i == oper1 {
            hits[0] += 1;
            assert_eq!(oper.recv(&r1), Ok(1));
            let _ = r2.try_recv();
        } else {
            assert_eq!(i, oper2);
            hits[1] += 1;
            assert_eq!(oper.recv(&r2), Ok(2));
            let _ = r1.try_recv();
        }
    }
    // A uniform random choice between two ready operations does not starve
    // either side over 300 rounds.
    assert!(hits[0] >= 50, "index 0 chosen only {} times", hits[0]);
    assert!(hits[1] >= 50, "index 1 chosen only {} times", hits[1]);
}

#[test]
fn indexes_are_assigned_in_order() {
    let (_s1, r1) = channel(None);
    let (_s2, r2) = channel(None);
    let (_s3, r3) = channel(None);
    let mut sel: Select<&TestReceiver> = Select::new();
    assert_eq!(sel.recv(&r1), 0);
    assert_eq!(sel.recv(&r2), 1);
    assert_eq!(sel.recv(&r3), 2);
}

#[test]
fn completion_invokes_the_flavor_exactly_once() {
    let (s, r) = channel(None);
    s.send(9);
    let mut sel: Select<&TestReceiver> = Select::new();
    let oper0 = sel.recv(&r);
    let oper = sel.select();
    assert_eq!(oper.index(), oper0);
    assert_eq!(r.completion_counters(), (0, 0));
    // Completing consumes the operation, so `read` runs exactly once and a
    // second completion cannot even be written.
    assert_eq!(oper.recv(&r), Ok(9));
    assert_eq!(r.completion_counters(), (1, 0));

    let mut sel2: Select<&TestSender> = Select::new();
    let oper1 = sel2.send(&s);
    let oper = sel2.try_select().expect("an unbounded send is ready");
    assert_eq!(oper.index(), oper1);
    assert_eq!(oper.send(&s, 11), Ok(()));
    assert_eq!(r.completion_counters(), (1, 1));
    assert_eq!(r.try_recv(), Ok(11));
}

#[test]
fn select_timeout_succeeds_when_a_message_arrives() {
    let (s, r) = channel(None);
    crossbeam_utils::thread::scope(|scope| {
        scope.spawn(|_| {
            busy_sleep(Duration::from_millis(150));
            s.send(30);
        });
        let mut sel: Select<&TestReceiver> = Select::new();
        let oper0 = sel.recv(&r);
        let oper = sel
            .select_timeout(Duration::from_secs(10))
            .expect("the message arrives well before the deadline");
        assert_eq!(oper.index(), oper0);
        assert_eq!(oper.recv(&r), Ok(30));
    })
    .unwrap();
}
