//! The wire protocol.

use acs::proto::err;
use acs::proto::ty;
use acs::proto::{
    ready_line, AttachKind, Decoder, Hello, Marker, MarkerScanner, Mode, Msg, ProtoError, Resume, StatusInfo, Welcome,
    WinSize, HEADER, MAX_FRAME, PROTO_VERSION,
};

fn size() -> WinSize {
    WinSize {
        cols: 120,
        rows: 40,
        xpixel: 1200,
        ypixel: 800,
    }
}

fn samples() -> Vec<Msg> {
    vec![
        Msg::Hello(Hello {
            proto: PROTO_VERSION,
            session: "main".into(),
            mode: Mode::AttachOrCreate,
            identity: "michel@mbp".into(),
            force: true,
            term: "xterm-256color".into(),
            colorterm: "truecolor".into(),
            size: size(),
            resume: Some(Resume {
                instance: u64::MAX,
                offset: 48210,
            }),
            command: vec!["htop".into(), "-d".into(), "10".into()],
        }),
        Msg::Hello(Hello {
            proto: 7,
            session: "2".into(),
            mode: Mode::Attach,
            identity: String::new(),
            force: false,
            term: String::new(),
            colorterm: String::new(),
            size: WinSize::default(),
            resume: None,
            command: vec![],
        }),
        Msg::Welcome(Welcome {
            proto: 1,
            session: "3".into(),
            instance: 42,
            offset: 9,
            created: true,
            kind: AttachKind::Gap,
            input_seq: 12,
        }),
        Msg::Busy {
            identity: "alice@laptop".into(),
            since: 1_700_000_000,
        },
        Msg::Data {
            offset: 1 << 40,
            bytes: b"\x1b[?1049h\x00\xff hello".to_vec(),
        },
        Msg::Data {
            offset: 0,
            bytes: vec![],
        },
        Msg::Input {
            seq: 3,
            bytes: vec![0x1d, 0x1d, b'd'],
        },
        Msg::Ack { seq: 77 },
        Msg::Resize(size()),
        Msg::Ping(5),
        Msg::Pong(5),
        Msg::Detach,
        Msg::Kill,
        Msg::Exit { status: -1 },
        Msg::Takeover,
        Msg::Status,
        Msg::StatusReply(StatusInfo {
            name: "main".into(),
            attached: true,
            identity: "a@b".into(),
            creator: "c@d".into(),
            created_at: 1,
            idle_secs: 2,
            command: "zsh -l".into(),
            size: size(),
            version: "0.1.0".into(),
            pid: 4242,
        }),
        Msg::Error {
            code: err::PROTO_MISMATCH,
            message: "old master — finish or kill the session".into(),
        },
    ]
}

#[test]
fn every_message_round_trips() {
    for m in samples() {
        let mut d = Decoder::new();
        d.push(&m.to_bytes());
        assert_eq!(d.next_msg().unwrap(), Some(m));
        assert_eq!(d.next_msg().unwrap(), None);
        assert_eq!(d.pending(), 0);
    }
}

#[test]
fn decodes_across_every_split_point() {
    let mut stream = Vec::new();
    for m in samples() {
        m.encode(&mut stream);
    }
    for split in 0..=stream.len() {
        let mut d = Decoder::new();
        let mut got = Vec::new();
        for part in [&stream[..split], &stream[split..]] {
            d.push(part);
            while let Some(m) = d.next_msg().unwrap() {
                got.push(m);
            }
        }
        assert_eq!(got, samples(), "split at {split}");
    }
}

#[test]
fn decodes_byte_at_a_time() {
    let mut stream = Vec::new();
    for m in samples() {
        m.encode(&mut stream);
    }
    let mut d = Decoder::new();
    let mut got = Vec::new();
    for b in &stream {
        d.push(std::slice::from_ref(b));
        while let Some(m) = d.next_msg().unwrap() {
            got.push(m);
        }
    }
    assert_eq!(got, samples());
}

#[test]
fn oversize_frame_is_rejected_from_the_header_alone() {
    let mut d = Decoder::new();
    let mut hdr = vec![ty::DATA];
    hdr.extend_from_slice(&((MAX_FRAME as u32) + 1).to_be_bytes());
    d.push(&hdr);
    assert_eq!(d.next_msg(), Err(ProtoError::TooLarge(MAX_FRAME + 1)));
}

#[test]
fn unknown_type_and_trailing_bytes_are_errors() {
    let mut d = Decoder::new();
    d.push(&[200, 0, 0, 0, 0]);
    assert_eq!(d.next_msg(), Err(ProtoError::UnknownType(200)));

    let mut d = Decoder::new();
    d.push(&[ty::KILL, 0, 0, 0, 1, 9]);
    assert_eq!(d.next_msg(), Err(ProtoError::Trailing(ty::KILL)));

    let mut d = Decoder::new();
    d.push(&[ty::ACK, 0, 0, 0, 2, 0, 0]);
    assert_eq!(d.next_msg(), Err(ProtoError::Truncated("seq")));
}

#[test]
fn bad_enum_and_utf8_values_are_errors() {
    let mut frame = Msg::Welcome(Welcome {
        proto: 1,
        session: String::new(),
        instance: 1,
        offset: 1,
        created: false,
        kind: AttachKind::Fresh,
        input_seq: 0,
    })
    .to_bytes();
    let last = frame.len() - 9;
    frame[last] = 9;
    let mut d = Decoder::new();
    d.push(&frame);
    assert_eq!(d.next_msg(), Err(ProtoError::BadValue("kind")));

    let mut frame = Msg::Busy {
        identity: "x".into(),
        since: 0,
    }
    .to_bytes();
    frame[HEADER + 4] = 0xff;
    let mut d = Decoder::new();
    d.push(&frame);
    assert_eq!(d.next_msg(), Err(ProtoError::BadUtf8));
}

#[test]
fn marker_is_found_after_shell_rc_noise() {
    let mut stream = b"Welcome to Ubuntu\nlast login: yesterday\nACS-READY 1 x\n".to_vec();
    stream.extend_from_slice(&ready_line().into_bytes());
    let frames = Msg::Ping(1).to_bytes();
    stream.extend_from_slice(&frames);
    for split in 0..=stream.len() {
        let mut s = MarkerScanner::new();
        let mut got = s.push(&stream[..split]);
        let mut after = Vec::new();
        if got.is_none() {
            got = s.push(&stream[split..]);
        } else {
            after.extend_from_slice(&stream[split..]);
        }
        match got {
            Some(Marker::Ready { proto, mut rest }) => {
                assert_eq!(proto, PROTO_VERSION);
                rest.extend_from_slice(&after);
                assert_eq!(rest, frames, "split at {split}");
                assert!(s.noise.starts_with(b"Welcome to Ubuntu\n"));
            }
            other => panic!("split {split}: {other:?}"),
        }
    }
}

#[test]
fn marker_must_start_a_line() {
    let mut s = MarkerScanner::new();
    assert_eq!(s.push(b"echo ACS-READY 1\n"), None);
    assert_eq!(
        s.push(b"ACS-NEED Linux aarch64\r\n"),
        Some(Marker::Need {
            os: "Linux".into(),
            arch: "aarch64".into()
        })
    );
}

#[test]
fn marker_at_stream_start() {
    let mut s = MarkerScanner::new();
    assert_eq!(
        s.push(b"ACS-READY 3\n"),
        Some(Marker::Ready {
            proto: 3,
            rest: vec![]
        })
    );
    assert!(s.noise.is_empty());
}

#[test]
fn the_ready_line_is_read_back_with_what_stands_behind_it() {
    for rest in [&b""[..], b"\n", b"ACS-READY 9\n", &[0, 255, 10, 13]] {
        let mut stream = ready_line().into_bytes();
        stream.extend_from_slice(rest);
        let mut s = MarkerScanner::new();
        assert_eq!(
            s.push(&stream),
            Some(Marker::Ready { proto: PROTO_VERSION, rest: rest.to_vec() })
        );
        assert!(s.noise.is_empty());
    }
}

#[test]
fn what_is_decoded_has_one_encoding() {
    for m in samples() {
        let bytes = m.to_bytes();
        let (t, p) = (bytes[0], &bytes[HEADER..]);
        let again = Msg::decode(t, p).unwrap();
        assert_eq!(again.to_bytes(), bytes);
        let mut longer = p.to_vec();
        longer.push(0);
        if let Ok(other) = Msg::decode(t, &longer) {
            assert_eq!(&other.to_bytes()[HEADER..], &longer[..]);
        }
    }
}
