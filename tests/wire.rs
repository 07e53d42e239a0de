use beanstalk_rs::decoder::Decoder;
use beanstalk_rs::encoder::Encoder;
use beanstalk_rs::numbers::{parse_u64, push_decimal};
use beanstalk_rs::parser::{is_valid_tube_name, parse_command, split_line};
use beanstalk_rs::protocol::{BeanstalkClientEvent, Command, Response};

fn encode(r: Response) -> Vec<u8> {
    let mut out = Vec::new();
    Encoder::new().encode(r, &mut out);
    out
}

#[test]
fn simple_responses() {
    assert_eq!(encode(Response::BadFormat), b"BAD_FORMAT\r\n".to_vec());
    assert_eq!(encode(Response::NotFound), b"NOT_FOUND\r\n".to_vec());
    assert_eq!(encode(Response::ExpectedCRLF), b"EXPECTED_CRLF\r\n".to_vec());
    assert_eq!(encode(Response::JobTooBig), b"JOB_TOO_BIG\r\n".to_vec());
    assert_eq!(encode(Response::NotIgnored), b"NOT_IGNORED\r\n".to_vec());
    assert_eq!(encode(Response::Kicked), b"KICKED\r\n".to_vec());
    assert_eq!(encode(Response::TimedOut), b"TIMED_OUT\r\n".to_vec());
    assert_eq!(encode(Response::JobEnd), b"\r\n".to_vec());
}

#[test]
fn responses_with_numbers() {
    assert_eq!(encode(Response::Inserted { id: 1 }), b"INSERTED 1\r\n".to_vec());
    assert_eq!(encode(Response::BuriedID { id: 42 }), b"BURIED 42\r\n".to_vec());
    assert_eq!(encode(Response::Watching { count: 2 }), b"WATCHING 2\r\n".to_vec());
    assert_eq!(encode(Response::KickedCount { count: 0 }), b"KICKED 0\r\n".to_vec());
    assert_eq!(encode(Response::Reserved { id: 1, n_bytes: 3 }), b"RESERVED 1 3\r\n".to_vec());
    assert_eq!(encode(Response::Found { id: 18446744073709551615, n_bytes: 4294967295 }), b"FOUND 18446744073709551615 4294967295\r\n".to_vec());
    assert_eq!(encode(Response::Using { tube: b"T".to_vec() }), b"USING T\r\n".to_vec());
    assert_eq!(encode(Response::JobChunk(b"abc".to_vec())), b"abc".to_vec());
    assert_eq!(encode(Response::OkData { data: b"- a\n".to_vec() }), b"OK 4\r\n- a\n\r\n".to_vec());
}

#[test]
fn decimal_numbers() {
    let mut v = Vec::new();
    push_decimal(0, &mut v);
    assert_eq!(v, b"0".to_vec());
    let mut v = b"x".to_vec();
    push_decimal(1234567890, &mut v);
    assert_eq!(v, b"x1234567890".to_vec());
    assert_eq!(parse_u64(b"0042"), Some(42));
    assert_eq!(parse_u64(b""), None);
    assert_eq!(parse_u64(b"12a"), None);
    assert_eq!(parse_u64(b"18446744073709551615"), Some(u64::MAX));
    assert_eq!(parse_u64(b"18446744073709551616"), None);
}

#[test]
fn words_and_tube_names() {
    assert_eq!(split_line(b"put 1 2"), vec![b"put".to_vec(), b"1".to_vec(), b"2".to_vec()]);
    assert_eq!(split_line(b"a  b"), vec![b"a".to_vec(), b"".to_vec(), b"b".to_vec()]);
    assert_eq!(split_line(b""), vec![b"".to_vec()]);
    assert!(is_valid_tube_name(b"default"));
    assert!(is_valid_tube_name(b"a+b/c;d.e$f_g(h)i-j"));
    assert!(!is_valid_tube_name(b"-x"));
    assert!(!is_valid_tube_name(b""));
    assert!(!is_valid_tube_name(b"a b"));
    assert!(is_valid_tube_name(&vec![b'a'; 200]));
    assert!(!is_valid_tube_name(&vec![b'a'; 201]));
}

#[test]
fn parse_every_command() {
    assert_eq!(parse_command(b"reserve"), Ok(Command::Reserve));
    assert_eq!(parse_command(b"reserve-with-timeout 5"), Ok(Command::ReserveWithTimeout { timeout: 5 }));
    assert_eq!(parse_command(b"release 3 10 0"), Ok(Command::Release { id: 3, pri: 10, delay: 0 }));
    assert_eq!(parse_command(b"bury 3 10"), Ok(Command::Bury { id: 3, pri: 10 }));
    assert_eq!(parse_command(b"pause-tube t 7"), Ok(Command::PauseTube { tube: b"t".to_vec(), delay: 7 }));
    assert_eq!(parse_command(b"stats"), Ok(Command::StatsServer));
    assert_eq!(parse_command(b"list-tubes-watched"), Ok(Command::ListTubesWatched));
    assert_eq!(parse_command(b"reserve 1"), Err(Response::BadFormat));
    assert_eq!(parse_command(b"RESERVE"), Err(Response::UnknownCommand));
    assert_eq!(parse_command(b""), Err(Response::UnknownCommand));
}

#[test]
fn command_round_trip() {
    let cmds = vec![
        Command::Put { pri: 5, delay: 0, ttr: 30, n_bytes: 3 },
        Command::Reserve,
        Command::ReserveWithTimeout { timeout: 0 },
        Command::ReserveJob { id: 9 },
        Command::Release { id: 1, pri: 2, delay: 3 },
        Command::Delete { id: u64::MAX },
        Command::Bury { id: 1, pri: 4294967295 },
        Command::Touch { id: 7 },
        Command::Watch { tube: b"T".to_vec() },
        Command::Ignore { tube: b"default".to_vec() },
        Command::Peek { id: 1 },
        Command::PeekReady,
        Command::PeekDelayed,
        Command::PeekBuried,
        Command::Kick { bound: 100 },
        Command::KickJob { id: 1 },
        Command::StatsJob { id: 1 },
        Command::StatsTube { tube: b"x".to_vec() },
        Command::StatsServer,
        Command::ListTubes,
        Command::ListTubeUsed,
        Command::ListTubesWatched,
        Command::Quit,
        Command::PauseTube { tube: b"x".to_vec(), delay: 60 },
        Command::Use { tube: b"x".to_vec() },
    ];
    for c in cmds {
        let mut bytes = Vec::new();
        c.encode(&mut bytes);
        let mut d = Decoder::new();
        let got = d.decode(&mut bytes).unwrap().unwrap();
        assert_eq!(got, BeanstalkClientEvent::Command(c));
        assert!(bytes.is_empty());
    }
    let mut bytes = Vec::new();
    Command::Put { pri: 5, delay: 0, ttr: 30, n_bytes: 3 }.encode(&mut bytes);
    assert_eq!(bytes, b"put 5 0 30 3\r\n".to_vec());
}
