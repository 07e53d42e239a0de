use beanstalk_rs::decoder::{Decoder, Error};
use beanstalk_rs::encoder::Encoder;
use beanstalk_rs::job::JobState;
use beanstalk_rs::protocol::Response;
use beanstalk_rs::server::{Reservation, Server};
use beanstalk_rs::session::{Action, Connection};

struct Client {
    conn: Connection,
    dec: Decoder,
    buf: Vec<u8>,
    closed: bool,
}

fn client(s: &mut Server) -> Client {
    Client { conn: s.open_connection().unwrap(), dec: Decoder::new(), buf: Vec::new(), closed: false }
}

fn out_of(action: Action, out: &mut Vec<u8>) -> bool {
    match action {
        Action::Send(rs) => {
            for r in rs {
                Encoder::new().encode(r, out);
            }
            false
        }
        Action::Wait => true,
        Action::Close => true,
        _ => false,
    }
}

/// Feeds bytes from the client and returns what the broker answers.
fn send(s: &mut Server, c: &mut Client, bytes: &[u8], now: u64) -> Vec<u8> {
    c.buf.extend_from_slice(bytes);
    let mut out = Vec::new();
    loop {
        match c.dec.decode(&mut c.buf) {
            Ok(Some(ev)) => {
                let a = s.handle_event(&mut c.conn, ev, now, 7);
                if matches!(a, Action::Close) {
                    c.closed = true;
                }
                if out_of(a, &mut out) {
                    return out;
                }
            }
            Ok(None) => return out,
            Err(Error::Client(r)) => {
                Encoder::new().encode(r, &mut out);
                c.closed = true;
                return out;
            }
        }
    }
}

fn resume(s: &mut Server, c: &mut Client, now: u64) -> Vec<u8> {
    let mut out = Vec::new();
    let a = s.resume_reserve(&mut c.conn, now, 7);
    out_of(a, &mut out);
    out
}

#[test]
fn two_clients_use_watch_reserve() {
    let mut s = Server::new(65535);
    let mut a = client(&mut s);
    let mut b = client(&mut s);
    assert_eq!(send(&mut s, &mut a, b"use T\r\n", 0), b"USING T\r\n".to_vec());
    assert_eq!(send(&mut s, &mut a, b"put 5 0 30 3\r\nabc\r\n", 0), b"INSERTED 1\r\n".to_vec());
    assert_eq!(send(&mut s, &mut b, b"watch T\r\n", 0), b"WATCHING 2\r\n".to_vec());
    assert_eq!(send(&mut s, &mut b, b"reserve\r\n", 0), b"RESERVED 1 3\r\nabc\r\n".to_vec());
}

#[test]
fn delayed_job_times_out_then_reserves() {
    let mut s = Server::new(65535);
    let mut a = client(&mut s);
    assert_eq!(send(&mut s, &mut a, b"put 5 2 30 1\r\nx\r\n", 0), b"INSERTED 1\r\n".to_vec());
    assert_eq!(send(&mut s, &mut a, b"reserve-with-timeout 1\r\n", 0), b"".to_vec());
    s.tick(1000);
    assert_eq!(resume(&mut s, &mut a, 1000), b"TIMED_OUT\r\n".to_vec());
    s.tick(2000);
    assert_eq!(send(&mut s, &mut a, b"reserve\r\n", 2000), b"RESERVED 1 1\r\nx\r\n".to_vec());
}

#[test]
fn bury_kick_reserve() {
    let mut s = Server::new(65535);
    let mut a = client(&mut s);
    assert_eq!(send(&mut s, &mut a, b"put 5 0 30 4\r\ndata\r\n", 0), b"INSERTED 1\r\n".to_vec());
    assert_eq!(send(&mut s, &mut a, b"reserve\r\n", 0), b"RESERVED 1 4\r\ndata\r\n".to_vec());
    assert_eq!(send(&mut s, &mut a, b"bury 1 10\r\n", 0), b"BURIED\r\n".to_vec());
    assert_eq!(send(&mut s, &mut a, b"kick 1\r\n", 0), b"KICKED 1\r\n".to_vec());
    assert_eq!(send(&mut s, &mut a, b"reserve\r\n", 0), b"RESERVED 1 4\r\ndata\r\n".to_vec());
}

#[test]
fn junk_instead_of_crlf_closes() {
    let mut s = Server::new(65535);
    let mut a = client(&mut s);
    assert_eq!(send(&mut s, &mut a, b"put 10 0 30 4\r\nXXXXjunk", 0), b"EXPECTED_CRLF\r\n".to_vec());
    assert!(a.closed);
}

#[test]
fn two_waiters_get_one_job_each() {
    let mut s = Server::new(65535);
    let mut w1 = client(&mut s);
    let mut w2 = client(&mut s);
    let mut p = client(&mut s);
    assert_eq!(send(&mut s, &mut w1, b"watch T\r\n", 0), b"WATCHING 2\r\n".to_vec());
    assert_eq!(send(&mut s, &mut w2, b"watch T\r\n", 0), b"WATCHING 2\r\n".to_vec());
    assert_eq!(send(&mut s, &mut w1, b"reserve\r\n", 0), b"".to_vec());
    assert_eq!(send(&mut s, &mut w2, b"reserve\r\n", 0), b"".to_vec());
    assert_eq!(send(&mut s, &mut p, b"use T\r\nput 1 0 30 1\r\na\r\nput 1 0 30 1\r\nb\r\n", 0), b"USING T\r\nINSERTED 1\r\nINSERTED 2\r\n".to_vec());
    assert_eq!(resume(&mut s, &mut w1, 0), b"RESERVED 1 1\r\na\r\n".to_vec());
    assert_eq!(resume(&mut s, &mut w2, 0), b"RESERVED 2 1\r\nb\r\n".to_vec());
}

#[test]
fn disconnect_returns_job() {
    let mut s = Server::new(65535);
    let mut a = client(&mut s);
    let mut b = client(&mut s);
    assert_eq!(send(&mut s, &mut a, b"put 10 0 30 4\r\nabcd\r\n", 0), b"INSERTED 1\r\n".to_vec());
    assert_eq!(send(&mut s, &mut a, b"reserve\r\n", 0), b"RESERVED 1 4\r\nabcd\r\n".to_vec());
    assert_eq!(send(&mut s, &mut b, b"reserve-with-timeout 0\r\n", 0), b"TIMED_OUT\r\n".to_vec());
    s.close_connection(a.conn);
    assert_eq!(send(&mut s, &mut b, b"reserve\r\n", 0), b"RESERVED 1 4\r\nabcd\r\n".to_vec());
}

#[test]
fn put_then_reserve_same_job() {
    let mut s = Server::new(65535);
    let sid = s.connect().unwrap();
    let id = s.put(sid, 3, 0, 10, b"hello".to_vec(), 0).unwrap();
    assert_eq!(s.reserve(sid, 0, 1), Reservation::Reserved(id));
}

#[test]
fn release_makes_ready_with_new_priority() {
    let mut s = Server::new(65535);
    let sid = s.connect().unwrap();
    let id = s.put(sid, 3, 0, 10, b"x".to_vec(), 0).unwrap();
    assert_eq!(s.reserve(sid, 0, 1), Reservation::Reserved(id));
    assert!(s.release(sid, id, 77, 0, 0));
    let j = s.peek(id).unwrap();
    assert!(matches!(j.state, JobState::Ready { .. }));
    assert_eq!(j.pri.0, 77);
    assert_eq!(j.tube, b"default".to_vec());
    assert_eq!(j.releases, 1);
}

#[test]
fn bury_then_kick_job_makes_ready() {
    let mut s = Server::new(65535);
    let sid = s.connect().unwrap();
    let id = s.put(sid, 3, 0, 10, b"x".to_vec(), 0).unwrap();
    assert_eq!(s.reserve(sid, 0, 1), Reservation::Reserved(id));
    assert!(s.bury(sid, id, 9));
    assert!(matches!(s.peek(id).unwrap().state, JobState::Buried { .. }));
    assert!(s.kick_job(id));
    assert!(matches!(s.peek(id).unwrap().state, JobState::Ready { .. }));
    assert!(!s.kick_job(id));
}

#[test]
fn paused_tube_holds_back_until_over() {
    let mut s = Server::new(65535);
    let sid = s.connect().unwrap();
    let id = s.put(sid, 3, 0, 10, b"x".to_vec(), 0).unwrap();
    assert!(s.pause_tube(b"default", 5, 0));
    assert_eq!(s.reserve(sid, 4999, 1), Reservation::Wait);
    assert_eq!(s.reserve(sid, 5000, 1), Reservation::Reserved(id));
    assert!(!s.pause_tube(b"nope", 5, 0));
}

#[test]
fn too_big_job_is_refused_after_body() {
    let mut s = Server::new(3);
    let mut a = client(&mut s);
    assert_eq!(send(&mut s, &mut a, b"put 1 0 30 4\r\nabcd\r\nput 1 0 30 3\r\nabc\r\n", 0), b"JOB_TOO_BIG\r\nINSERTED 1\r\n".to_vec());
}

#[test]
fn ignore_last_tube_is_refused() {
    let mut s = Server::new(65535);
    let mut a = client(&mut s);
    assert_eq!(send(&mut s, &mut a, b"ignore default\r\n", 0), b"NOT_IGNORED\r\n".to_vec());
    assert_eq!(send(&mut s, &mut a, b"ignore other\r\n", 0), b"NOT_IGNORED\r\n".to_vec());
    assert_eq!(send(&mut s, &mut a, b"watch x\r\nignore default\r\n", 0), b"WATCHING 2\r\nWATCHING 1\r\n".to_vec());
}

#[test]
fn equal_priority_is_fifo() {
    let mut s = Server::new(65535);
    let sid = s.connect().unwrap();
    let a = s.put(sid, 8, 0, 10, b"a".to_vec(), 0).unwrap();
    let b = s.put(sid, 8, 0, 10, b"b".to_vec(), 0).unwrap();
    let c = s.put(sid, 1, 0, 10, b"c".to_vec(), 0).unwrap();
    assert_eq!(s.reserve(sid, 0, 1), Reservation::Reserved(c));
    assert_eq!(s.reserve(sid, 0, 1), Reservation::Reserved(a));
    assert_eq!(s.reserve(sid, 0, 1), Reservation::Reserved(b));
}

#[test]
fn counts_add_up() {
    let mut s = Server::new(65535);
    let sid = s.connect().unwrap();
    let a = s.put(sid, 8, 0, 10, b"a".to_vec(), 0).unwrap();
    s.put(sid, 2000, 0, 10, b"b".to_vec(), 0).unwrap();
    s.put(sid, 8, 5, 10, b"c".to_vec(), 0).unwrap();
    assert_eq!(s.reserve(sid, 0, 1), Reservation::Reserved(a));
    let st = s.tube_stats(b"default", 0).unwrap();
    assert_eq!(st.current_jobs_ready, 1);
    assert_eq!(st.current_jobs_reserved, 1);
    assert_eq!(st.current_jobs_delayed, 1);
    assert_eq!(st.current_jobs_buried, 0);
    assert_eq!(st.current_jobs_urgent, 0);
    assert_eq!(st.total_jobs, 3);
    assert_eq!(st.current_using, 1);
    assert_eq!(st.current_watching, 1);
    assert!(s.tube_stats(b"T", 0).is_none());
}

#[test]
fn unused_tubes_disappear() {
    let mut s = Server::new(65535);
    let sid = s.connect().unwrap();
    s.use_tube(sid, b"T");
    assert!(s.find_tube(b"default").is_some());
    s.use_tube(sid, b"U");
    assert!(s.find_tube(b"T").is_none());
    let id = s.put(sid, 1, 0, 1, b"z".to_vec(), 0).unwrap();
    s.use_tube(sid, b"default");
    assert!(s.find_tube(b"U").is_some());
    assert!(s.delete(sid, id));
    assert!(s.find_tube(b"U").is_none());
    assert!(!s.delete(sid, id));
}

#[test]
fn ttr_expiry_returns_job_and_deadline_soon() {
    let mut s = Server::new(65535);
    let sid = s.connect().unwrap();
    let id = s.put(sid, 1, 0, 2, b"z".to_vec(), 0).unwrap();
    assert_eq!(s.reserve(sid, 0, 1), Reservation::Reserved(id));
    assert_eq!(s.reserve(sid, 1000, 1), Reservation::DeadlineSoon);
    assert!(s.touch(sid, id, 1000));
    assert_eq!(s.reserve(sid, 1500, 1), Reservation::Wait);
    s.tick(3000);
    let j = s.peek(id).unwrap();
    assert!(matches!(j.state, JobState::Ready { .. }));
    assert_eq!(j.timeouts, 1);
}

#[test]
fn kick_prefers_buried_then_delayed() {
    let mut s = Server::new(65535);
    let sid = s.connect().unwrap();
    let d = s.put(sid, 1, 10, 5, b"d".to_vec(), 0).unwrap();
    let a = s.put(sid, 1, 0, 5, b"a".to_vec(), 0).unwrap();
    let b = s.put(sid, 1, 0, 5, b"b".to_vec(), 0).unwrap();
    assert_eq!(s.reserve(sid, 0, 1), Reservation::Reserved(a));
    assert_eq!(s.reserve(sid, 0, 1), Reservation::Reserved(b));
    assert!(s.bury(sid, b, 1));
    assert!(s.bury(sid, a, 1));
    assert_eq!(s.kick(sid, 1), vec![b]);
    assert_eq!(s.kick(sid, 5), vec![a]);
    assert_eq!(s.kick(sid, 5), vec![d]);
    assert_eq!(s.kick(sid, 5), Vec::<u64>::new());
}

#[test]
fn list_tubes_is_a_yaml_document() {
    let mut s = Server::new(65535);
    let mut a = client(&mut s);
    assert_eq!(send(&mut s, &mut a, b"list-tubes\r\n", 0), b"OK 10\r\n- default\n\r\n".to_vec());
    assert_eq!(send(&mut s, &mut a, b"watch T\r\nlist-tubes-watched\r\n", 0), b"WATCHING 2\r\nOK 14\r\n- default\n- T\n\r\n".to_vec());
    assert_eq!(send(&mut s, &mut a, b"list-tube-used\r\n", 0), b"USING default\r\n".to_vec());
}

#[test]
fn fresh_broker_answers_inserted_and_stats() {
    let mut s = Server::new(65535);
    let mut a = client(&mut s);
    assert_eq!(send(&mut s, &mut a, b"put 1 0 10 5\r\nabcde\r\n", 1000), b"INSERTED 1\r\n".to_vec());
    assert_eq!(send(&mut s, &mut a, b"peek-ready\r\n", 1000), b"FOUND 1 5\r\nabcde\r\n".to_vec());
    assert_eq!(send(&mut s, &mut a, b"peek-buried\r\n", 1000), b"NOT_FOUND\r\n".to_vec());
    let st = s.job_stats(1, 4500).unwrap();
    assert_eq!(st.age, 3);
    assert_eq!(st.state, b"ready".to_vec());
    let ss = s.server_stats();
    assert_eq!(ss.current_jobs_ready, 1);
    assert_eq!(ss.current_producers, 1);
    assert_eq!(ss.total_jobs, 1);
    assert_eq!(ss.cmd_counts[0], 1);
}
