use std::io;
use std::io::ErrorKind;

use beanstalk_rs::decoder::{Decoder, Error};
use beanstalk_rs::protocol::{BeanstalkClientEvent, Command, Response};
use bytes::{Buf, BytesMut};
use tokio_stream::StreamExt;
use tokio_util::codec::FramedRead;

/// The library decoder behind the framing traits of tokio-util.
struct Framing(Decoder);

#[derive(Debug)]
enum FrameError {
    Client(Response),
    IO(io::Error),
}

impl From<io::Error> for FrameError {
    fn from(value: io::Error) -> Self {
        FrameError::IO(value)
    }
}

impl tokio_util::codec::Decoder for Framing {
    type Item = BeanstalkClientEvent;
    type Error = FrameError;

    fn decode(&mut self, src: &mut BytesMut) -> Result<Option<Self::Item>, Self::Error> {
        let mut buf = src.to_vec();
        let r = self.0.decode(&mut buf);
        let used = src.len() - buf.len();
        src.advance(used);
        match r {
            Ok(e) => Ok(e),
            Err(Error::Client(resp)) => Err(FrameError::Client(resp)),
        }
    }
}

fn run<F: std::future::Future>(f: F) -> F::Output {
    tokio::runtime::Builder::new_current_thread().build().unwrap().block_on(f)
}

fn cmd(c: Command) -> BeanstalkClientEvent {
    BeanstalkClientEvent::Command(c)
}

fn chunk(c: &[u8]) -> BeanstalkClientEvent {
    BeanstalkClientEvent::PutChunk(c.to_vec())
}

fn stream_from(cmds: &[&str]) -> Vec<u8> {
    let mut stream = cmds.join("\r\n");
    stream.push_str("\r\n");
    stream.into_bytes()
}

#[test]
fn test_normal() {
    run(async {
        let stream = stream_from(&[
            "use tube-1",
            "use tube-2",
            "put 10000 0 60 8",
            "abcdefgh",
            "use tube-3",
            "put 10001 1 61 7",
            "0000000",
            "put 10002 2 62 6",
            "11\r\n11",
            "quit",
        ]);
        let expect = [
            cmd(Command::Use { tube: b"tube-1".to_vec() }),
            cmd(Command::Use { tube: b"tube-2".to_vec() }),
            cmd(Command::Put { pri: 10000, delay: 0, ttr: 60, n_bytes: 8 }),
            chunk(b"abcdefgh"),
            BeanstalkClientEvent::PutEnd,
            cmd(Command::Use { tube: b"tube-3".to_vec() }),
            cmd(Command::Put { pri: 10001, delay: 1, ttr: 61, n_bytes: 7 }),
            chunk(b"0000000"),
            BeanstalkClientEvent::PutEnd,
            cmd(Command::Put { pri: 10002, delay: 2, ttr: 62, n_bytes: 6 }),
            chunk(b"11\r\n11"),
            BeanstalkClientEvent::PutEnd,
            cmd(Command::Quit),
        ];
        let mut framed = FramedRead::new(stream.as_slice(), Framing(Decoder::new()));
        for evt in expect {
            let got = framed.next().await;
            assert_eq!(got.unwrap().unwrap(), evt);
        }
        assert!(framed.next().await.is_none());
    });
}

#[test]
fn test_put_eos() {
    run(async {
        let stream = stream_from(&["put 10000 0 60 8", "abcde"]);
        let mut framed = FramedRead::new(stream.as_slice(), Framing(Decoder::new()));
        assert_eq!(
            framed.next().await.unwrap().unwrap(),
            cmd(Command::Put { pri: 10000, delay: 0, ttr: 60, n_bytes: 8 }),
        );
        assert_eq!(framed.next().await.unwrap().unwrap(), chunk(b"abcde\r\n"));
        assert!(framed.next().await.is_none());
    });
}

#[test]
fn test_eos() {
    run(async {
        let stream: Vec<u8> = b"use bar\r\nuse foo".to_vec();
        let mut framed = FramedRead::new(stream.as_slice(), Framing(Decoder::new()));
        assert_eq!(framed.next().await.unwrap().unwrap(), cmd(Command::Use { tube: b"bar".to_vec() }));
        if let FrameError::IO(err) = framed.next().await.unwrap().unwrap_err() {
            assert_eq!(err.kind(), ErrorKind::Other);
            let inner = err.into_inner().unwrap();
            assert_eq!(format!("{inner}"), "bytes remaining on stream");
        } else {
            panic!("expected CodecError::IO, got other");
        }
        assert!(framed.next().await.is_none());
    });
}

#[test]
fn test_recovery() {
    run(async {
        let stream: Vec<u8> = b"put 10000 0 60 4\r\n****stats-tube\r\nuse bar\r\nuse baz\r\n".to_vec();
        let mut framed = FramedRead::new(stream.as_slice(), Framing(Decoder::new()));
        assert_eq!(
            framed.next().await.unwrap().unwrap(),
            cmd(Command::Put { pri: 10000, delay: 0, ttr: 60, n_bytes: 4 })
        );
        assert_eq!(framed.next().await.unwrap().unwrap(), chunk(b"****"));
        assert!(matches!(framed.next().await.unwrap(), Err(FrameError::Client(Response::ExpectedCRLF))));
        assert!(framed.next().await.is_none());
        assert_eq!(framed.next().await.unwrap().unwrap(), BeanstalkClientEvent::Discarded);
        assert_eq!(framed.next().await.unwrap().unwrap(), cmd(Command::Use { tube: b"bar".to_vec() }));
        assert_eq!(framed.next().await.unwrap().unwrap(), cmd(Command::Use { tube: b"baz".to_vec() }));
        assert!(framed.next().await.is_none());
    });
}

fn decode_all(d: &mut Decoder, buf: &mut Vec<u8>) -> Vec<Result<BeanstalkClientEvent, Response>> {
    let mut out = Vec::new();
    loop {
        match d.decode(buf) {
            Ok(Some(e)) => out.push(Ok(e)),
            Ok(None) => return out,
            Err(Error::Client(r)) => {
                out.push(Err(r));
                return out;
            }
        }
    }
}

#[test]
fn command_line_limit() {
    // 222 bytes of line, then CRLF: 224 in all
    let mut buf = b"peek ".to_vec();
    buf.extend_from_slice(&vec![b'0'; 217]);
    assert_eq!(buf.len(), 222);
    buf.extend_from_slice(b"\r\n");
    let mut d = Decoder::new();
    assert_eq!(d.decode(&mut buf).unwrap().unwrap(), cmd(Command::Peek { id: 0 }));
    assert!(buf.is_empty());
    assert_eq!(d, Decoder::ParseCommand);

    let mut buf = b"peek ".to_vec();
    buf.extend_from_slice(&vec![b'0'; 218]);
    assert_eq!(buf.len(), 223);
    buf.extend_from_slice(b"\r\nquit\r\n");
    let mut d = Decoder::new();
    assert!(matches!(d.decode(&mut buf), Err(Error::Client(Response::BadFormat))));
    assert_eq!(d, Decoder::DiscardToNewline);
    assert_eq!(d.decode(&mut buf).unwrap().unwrap(), BeanstalkClientEvent::Discarded);
    assert_eq!(d.decode(&mut buf).unwrap().unwrap(), cmd(Command::Quit));
}

#[test]
fn junk_after_body_is_expected_crlf() {
    let mut buf = b"put 10 0 30 4\r\nXXXXjunk".to_vec();
    let mut d = Decoder::new();
    let got = decode_all(&mut d, &mut buf);
    assert_eq!(got[0], Ok(cmd(Command::Put { pri: 10, delay: 0, ttr: 30, n_bytes: 4 })));
    assert_eq!(got[1], Ok(chunk(b"XXXX")));
    assert_eq!(got[2], Err(Response::ExpectedCRLF));
    assert_eq!(d, Decoder::DiscardToNewline);
}

#[test]
fn unknown_and_malformed_commands() {
    let mut d = Decoder::new();
    let mut buf = b"frobnicate 1\r\n".to_vec();
    assert!(matches!(d.decode(&mut buf), Err(Error::Client(Response::UnknownCommand))));
    let mut buf = b"put 1 2 3\r\n".to_vec();
    assert!(matches!(d.decode(&mut buf), Err(Error::Client(Response::BadFormat))));
    let mut buf = b"put 1 2 3 4294967296\r\n".to_vec();
    assert!(matches!(d.decode(&mut buf), Err(Error::Client(Response::BadFormat))));
    let mut buf = b"use -bad\r\n".to_vec();
    assert!(matches!(d.decode(&mut buf), Err(Error::Client(Response::BadFormat))));
    let mut buf = b"delete 18446744073709551615\r\n".to_vec();
    assert_eq!(d.decode(&mut buf).unwrap().unwrap(), cmd(Command::Delete { id: u64::MAX }));
    let mut buf = b"delete 18446744073709551616\r\n".to_vec();
    assert!(matches!(d.decode(&mut buf), Err(Error::Client(Response::BadFormat))));
}

#[test]
fn discard_keeps_last_byte() {
    let mut d = Decoder::DiscardToNewline;
    let mut buf = b"abc\r".to_vec();
    assert_eq!(d.decode(&mut buf).unwrap().unwrap(), BeanstalkClientEvent::Discarded);
    assert_eq!(buf, b"\r".to_vec());
    buf.extend_from_slice(b"\nquit\r\n");
    assert_eq!(d.decode(&mut buf).unwrap().unwrap(), BeanstalkClientEvent::Discarded);
    assert_eq!(d, Decoder::ParseCommand);
    assert_eq!(d.decode(&mut buf).unwrap().unwrap(), cmd(Command::Quit));
}

#[test]
fn discard_waits_on_a_single_byte() {
    let mut d = Decoder::DiscardToNewline;
    let mut buf = b"x".to_vec();
    assert_eq!(d.decode(&mut buf), Ok(None));
    assert_eq!(buf, b"x".to_vec());
    assert_eq!(d, Decoder::DiscardToNewline);
    let mut buf = b"xy".to_vec();
    assert_eq!(d.decode(&mut buf).unwrap().unwrap(), BeanstalkClientEvent::Discarded);
    assert_eq!(buf, b"y".to_vec());
}
