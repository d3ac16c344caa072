//! What a plain `acs <host>` attaches to.

use acs::cli::Target;
use acs::list::{not_installed, Failure};
use acs::menu::Answer;
use acs::pick::{new_session, no_answer_within, take_listing, to_answer, unexpected, Listing};
use acs::proto::{Decoder, Msg, ProtoError, StatusInfo};

fn info(name: &str) -> StatusInfo {
    StatusInfo {
        name: name.into(),
        ..Default::default()
    }
}

#[test]
fn a_new_session_is_the_default_name_until_that_is_taken() {
    assert_eq!(new_session(&[], "main"), Target::Named("main".into()));
    assert_eq!(
        new_session(&[info("1"), info("work")], "main"),
        Target::Named("main".into())
    );
    assert_eq!(new_session(&[info("main")], "main"), Target::New);
    assert_eq!(
        new_session(&[info("main")], "michel"),
        Target::Named("michel".into())
    );
}

#[test]
fn a_hosts_listing_becomes_its_menu_answer() {
    assert_eq!(
        to_answer("nas", Ok(Some(vec![info("a")]))),
        Answer::Sessions(vec![info("a")])
    );
    assert_eq!(
        to_answer("pi", Ok(None)),
        Answer::Line(not_installed("pi"))
    );
    assert_eq!(
        to_answer("old", Err(Failure::Unreachable("no answer".into()))),
        Answer::Line("old: no answer".into())
    );
    assert_eq!(
        to_answer("lab", Err(Failure::BadReply("junk".into()))),
        Answer::Line("bad reply from lab: junk".into())
    );
}

#[test]
fn a_listing_is_taken_up_to_what_belongs_in_none() {
    let mut dec = Decoder::new();
    let mut l = Listing { sessions: vec![], error: None };
    dec.push(&Msg::StatusReply(info("a")).to_bytes());
    let refused = Msg::Error { code: 3, message: "session is not ending".into() };
    dec.push(&refused.to_bytes());
    let b = Msg::StatusReply(info("b")).to_bytes();
    dec.push(&b[..b.len() - 1]);
    assert!(matches!(take_listing(&mut dec, &mut l), Ok(None)));
    assert_eq!(l.sessions, [info("a")]);
    assert_eq!(l.error.as_deref(), Some("session is not ending"));
    dec.push(&b[b.len() - 1..]);
    dec.push(&Msg::Ping(7).to_bytes());
    dec.push(&Msg::StatusReply(info("c")).to_bytes());
    match take_listing(&mut dec, &mut l) {
        Ok(Some(m)) => assert_eq!(m, Msg::Ping(7)),
        _ => panic!("a ping belongs in no listing"),
    }
    assert_eq!(l.sessions, [info("a"), info("b")]);
    assert_eq!(no_answer_within("1.5"), "no answer within 1.5 s");
    match unexpected("Ping(7)") {
        Failure::BadReply(t) => assert_eq!(t, "unexpected Ping(7)"),
        _ => panic!("another failure"),
    }
    let mut dec = Decoder::new();
    dec.push(&[0xee, 0, 0, 0, 0]);
    match take_listing(&mut dec, &mut l) {
        Err(Failure::BadReply(t)) => assert_eq!(t, ProtoError::UnknownType(0xee).text()),
        _ => panic!("no such message"),
    }
}
