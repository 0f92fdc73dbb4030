use madsim::addr::Addr;
use madsim::net::{NetError, Network, PartitionMode, Side};
use madsim::node::{node_key, Registry};
use madsim::rand::{mix64, Rng};
use madsim::sched::{Scheduler, TaskStatus};

#[test]
fn splitmix_known_values() {
    // The first outputs of the SplitMix64 stream seeded with zero.
    let mut rng = Rng::new(0, 0);
    assert_eq!(rng.next_u64(), 0xE220A8397B1DCDAF);
    assert_eq!(rng.next_u64(), 0x6E789E6AA1B965F4);
    assert_eq!(rng.next_u64(), 0x06C45D188009454F);
    assert_eq!(mix64(0), 0);
}

#[test]
fn rng_derived_values() {
    let mut a = Rng::new(7, 3);
    let mut b = Rng::new(4, 0);
    assert_eq!(a.state, 4);
    assert_eq!(a.next_u64(), b.next_u64());
    let mut c = Rng::new(0, 0);
    assert_eq!(c.next_u32(), 0xE220A839);
    let mut d = Rng::new(0, 0);
    assert_eq!(d.next_below(10), 0xE220A8397B1DCDAFu64 % 10);
}

#[test]
fn same_seed_same_streams_regardless_of_interleaving() {
    let a = Addr::new(1, 1);
    let b = Addr::new(2, 1);
    let mut r1 = Registry::new(42);
    let ia = r1.register(a);
    let ib = r1.register(b);
    let x1 = r1.next_u64(ia);
    let y1 = r1.next_u64(ib);
    let x2 = r1.next_u64(ia);

    let mut r2 = Registry::new(42);
    let jb = r2.register(b);
    let ja = r2.register(a);
    let y2 = r2.next_u64(jb);
    let z = r2.next_u64(jb);
    let x1b = r2.next_u64(ja);
    let x2b = r2.next_u64(ja);
    assert_eq!((x1, x2), (x1b, x2b));
    assert_eq!(y1, y2);
    assert_ne!(y2, z);

    let mut expected = Rng::new(42, node_key(a));
    assert_eq!(expected.next_u64(), x1);
}

#[test]
fn registry_lookup() {
    let mut r = Registry::new(1);
    let a = Addr::new(10, 80);
    assert_eq!(r.lookup(a), None);
    let i = r.register(a);
    assert_eq!(r.lookup(a), Some(i));
    assert_eq!(r.addr(i), a);
    assert_eq!(node_key(Addr::new(1, 2)), 0x1_0002);
}

#[test]
fn partition_scoping() {
    let (a, b, c) = (Addr::new(1, 1), Addr::new(2, 1), Addr::new(3, 1));
    let mut net = Network::new(PartitionMode::Fail, 0);
    net.bind(a).unwrap();
    net.bind(b).unwrap();
    net.bind(c).unwrap();
    net.partition(a, b);
    assert!(net.is_partitioned(b, a));
    assert_eq!(net.send(a, b, vec![1], 0), Err(NetError::Dropped));
    assert_eq!(net.send(b, a, vec![1], 0), Err(NetError::Dropped));
    assert_eq!(net.send(a, c, vec![2], 0), Ok(()));
    let m = net.recv(c).unwrap().unwrap();
    assert_eq!(m.from, a);
    assert_eq!(m.payload, vec![2]);
    assert!(net.recv(b).unwrap().is_none());
    net.heal(b, a);
    assert!(!net.is_partitioned(a, b));
    assert_eq!(net.send(a, b, vec![3], 0), Ok(()));
    assert_eq!(net.recv(b).unwrap().unwrap().payload, vec![3]);
}

#[test]
fn partition_in_drop_mode_loses_silently() {
    let (a, b) = (Addr::new(1, 1), Addr::new(2, 1));
    let mut net = Network::new(PartitionMode::Drop, 0);
    net.bind(a).unwrap();
    net.bind(b).unwrap();
    net.partition(a, b);
    assert_eq!(net.send(a, b, vec![9], 0), Ok(()));
    assert!(net.recv(b).unwrap().is_none());
}

#[test]
fn messages_keep_their_order_and_errors() {
    let (a, b) = (Addr::new(1, 1), Addr::new(2, 1));
    let mut net = Network::new(PartitionMode::Fail, 500_000);
    net.bind(a).unwrap();
    assert_eq!(net.bind(a), Err(NetError::AlreadyExists));
    assert_eq!(net.send(a, b, vec![1], 999_999), Err(NetError::NotFound));
    net.bind(b).unwrap();
    net.send(a, b, vec![1], 999_999).unwrap();
    net.send(a, b, vec![2], 10).unwrap(); // lost: roll under the loss rate
    net.send(a, b, vec![3], 500_000).unwrap();
    assert_eq!(net.recv(b).unwrap().unwrap().payload, vec![1]);
    assert_eq!(net.recv(b).unwrap().unwrap().payload, vec![3]);
    assert!(net.recv(b).unwrap().is_none());
    net.close(b).unwrap();
    assert_eq!(net.send(a, b, vec![4], 999_999), Err(NetError::ConnectionClosed));
    assert_eq!(net.recv(b).err(), Some(NetError::ConnectionClosed));
    assert_eq!(net.close(Addr::new(9, 9)), Err(NetError::NotFound));
}

#[test]
fn scheduler_runs_in_key_order_and_advances_clock() {
    let node = Addr::new(1, 1);
    let mut s = Scheduler::new(5);
    let t0 = s.spawn(node);
    let t1 = s.spawn(node);
    let first = s.step().unwrap();
    assert!(first == t0 || first == t1);
    assert_eq!(s.current(), Some((first, node)));
    s.sleep_for(10);
    assert_eq!(s.status(first), TaskStatus::Pending);
    let second = s.step().unwrap();
    assert_ne!(first, second);
    assert_eq!(s.now(), 0);
    s.complete();
    // Only the sleeper is left: the clock jumps to its deadline.
    assert_eq!(s.step(), Some(first));
    assert_eq!(s.now(), 10);
    s.complete();
    assert_eq!(s.step(), None);
    assert_eq!(s.status(second), TaskStatus::Completed);
}

#[test]
fn scheduler_is_reproducible() {
    let run = |seed: u64| {
        let mut s = Scheduler::new(seed);
        for i in 0..5u32 {
            s.spawn(Addr::new(i, 1));
        }
        let mut order = Vec::new();
        while let Some(t) = s.step() {
            order.push(t);
            s.complete();
        }
        order
    };
    assert_eq!(run(9), run(9));
    assert_eq!(run(9).len(), 5);
}

#[test]
fn cancelled_task_never_runs() {
    let node = Addr::new(1, 1);
    let mut s = Scheduler::new(0);
    let t0 = s.spawn(node);
    let t1 = s.spawn(node);
    s.cancel(t0);
    assert_eq!(s.status(t0), TaskStatus::Cancelled);
    assert_eq!(s.step(), Some(t1));
    s.sleep_until(100);
    s.cancel(t1);
    assert_eq!(s.step(), None);
    assert_eq!(s.now(), 0);
}

#[test]
fn wake_and_yield() {
    let node = Addr::new(1, 1);
    let mut s = Scheduler::new(3);
    let t = s.spawn(node);
    assert_eq!(s.step(), Some(t));
    s.suspend();
    assert_eq!(s.step(), None);
    s.wake(t);
    assert_eq!(s.status(t), TaskStatus::Runnable);
    assert_eq!(s.step(), Some(t));
    s.yield_now();
    assert_eq!(s.step(), Some(t));
    s.sleep_until(50);
    s.wake(t);
    assert_eq!(s.step(), Some(t));
    assert_eq!(s.now(), 0);
}

#[test]
fn connections_keep_order_and_report_close() {
    let (a, b, c) = (Addr::new(1, 1), Addr::new(2, 1), Addr::new(3, 1));
    let mut net = Network::new(PartitionMode::Fail, 0);
    net.bind(a).unwrap();
    net.bind(b).unwrap();
    net.bind(c).unwrap();
    assert_eq!(net.accept(b), None);
    let conn = net.connect(a, b).unwrap();
    assert_eq!(net.accept(b), Some((conn, a)));
    assert_eq!(net.accept(b), None);
    net.send_on(conn, Side::Client, vec![1], 0).unwrap();
    net.send_on(conn, Side::Client, vec![2], 0).unwrap();
    net.send_on(conn, Side::Server, vec![9], 0).unwrap();
    assert_eq!(net.recv_on(conn, Side::Server), Ok(Some(vec![1])));
    assert_eq!(net.recv_on(conn, Side::Server), Ok(Some(vec![2])));
    assert_eq!(net.recv_on(conn, Side::Server), Ok(None));
    assert_eq!(net.recv_on(conn, Side::Client), Ok(Some(vec![9])));
    net.close_conn(conn);
    assert_eq!(net.recv_on(conn, Side::Server), Err(NetError::ConnectionClosed));
    assert_eq!(net.send_on(conn, Side::Server, vec![3], 0), Err(NetError::ConnectionClosed));

    net.partition(a, c);
    assert_eq!(net.connect(a, c), Err(NetError::Dropped));
    assert_eq!(net.connect(a, Addr::new(7, 7)), Err(NetError::NotFound));
    let other = net.connect(b, c).unwrap();
    assert_eq!(net.accept(c), Some((other, b)));
}

#[test]
fn partition_cuts_open_connections() {
    let (a, b) = (Addr::new(1, 1), Addr::new(2, 1));
    let mut net = Network::new(PartitionMode::Fail, 0);
    net.bind(a).unwrap();
    net.bind(b).unwrap();
    let conn = net.connect(a, b).unwrap();
    net.partition(b, a);
    assert_eq!(net.send_on(conn, Side::Client, vec![1], 0), Err(NetError::Dropped));
    net.heal(a, b);
    assert_eq!(net.send_on(conn, Side::Client, vec![1], 0), Ok(()));
}
