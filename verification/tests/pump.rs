//! The response pump: whole calls, and each of its steps.

use connectrpc_tauri::pump::{Action, Event, Piece, Pump, Stage};
use connectrpc_tauri::wire::response_frame::Frame;
use connectrpc_tauri::wire::{End, Header, Trailers};
use http::{HeaderMap, HeaderValue};

fn headers(name: &'static str, value: &'static str) -> HeaderMap {
    let mut map = HeaderMap::new();
    map.append(name, HeaderValue::from_static(value));
    map
}

fn wire_header(name: &str, value: &str) -> Header {
    Header { name: name.to_string(), value: value.to_string(), ..Default::default() }
}

/// What a pump asked for.
#[derive(Debug, PartialEq)]
enum Asked {
    Head(u32, Vec<Header>),
    Refusal(String),
    Read,
    Frame(Frame),
    Forget,
    Stop,
}

/// Runs a pump: whether the invoke is taken, the pieces of the body, and how many
/// frames get through.
fn transcript(answer: Event, taken: bool, pieces: Vec<Piece>, sends: usize) -> Vec<Asked> {
    let mut pieces = pieces.into_iter();
    let mut left = sends;
    let mut asked = Vec::new();
    let mut pump = Pump::new();
    let mut action = pump.step(answer);
    loop {
        let (note, event) = match action {
            Action::Resolve(Ok(head)) => {
                assert!(head.body.is_empty());
                (Asked::Head(head.status, head.headers), Event::Resolved(taken))
            }
            Action::Resolve(Err(e)) => (Asked::Refusal(e), Event::Resolved(taken)),
            Action::Read => {
                (Asked::Read, Event::Read(pieces.next().unwrap_or(Piece::Ended)))
            }
            Action::Send(frame) => {
                let through = left > 0;
                left = left.saturating_sub(1);
                (Asked::Frame(frame.frame.expect("frame")), Event::Sent(through))
            }
            Action::Forget => (Asked::Forget, Event::Forgotten),
            Action::Stop => {
                asked.push(Asked::Stop);
                assert_eq!(pump.stage(), Stage::Done);
                return asked;
            }
            Action::Ignore => panic!("ignored"),
        };
        asked.push(note);
        action = pump.step(event);
    }
}

fn answered() -> Event {
    Event::Answered { status: 200, headers: headers("a", "b") }
}

fn frames(asked: Vec<Asked>) -> Vec<Frame> {
    asked
        .into_iter()
        .filter_map(|a| match a {
            Asked::Frame(frame) => Some(frame),
            _ => None,
        })
        .collect()
}

fn message(bytes: &[u8]) -> Frame {
    Frame::Message(bytes.to_vec())
}

fn end() -> Frame {
    Frame::End(Box::new(End::default()))
}

#[test]
fn a_call_runs_from_head_to_end() {
    let pieces = vec![Piece::Data(vec![1, 2]), Piece::Trailers(headers("t", "v"))];
    assert_eq!(
        transcript(answered(), true, pieces, 9),
        vec![
            Asked::Head(200, vec![wire_header("a", "b")]),
            Asked::Read,
            Asked::Frame(message(&[1, 2])),
            Asked::Read,
            Asked::Frame(Frame::Trailers(Box::new(Trailers {
                headers: vec![wire_header("t", "v")],
                ..Default::default()
            }))),
            Asked::Read,
            Asked::Frame(end()),
            Asked::Forget,
            Asked::Stop,
        ]
    );
}

#[test]
fn frames_come_in_order_and_the_end_comes_once() {
    let pieces = (0..50u8).map(|i| Piece::Data(vec![i])).collect();
    let mut expected: Vec<Frame> = (0..50u8).map(|i| message(&[i])).collect();
    expected.push(end());
    assert_eq!(frames(transcript(answered(), true, pieces, 100)), expected);
}

#[test]
fn a_failed_body_is_reported_and_ended() {
    let pieces =
        vec![Piece::Data(vec![1]), Piece::Failed("reset".to_string()), Piece::Data(vec![2])];
    assert_eq!(
        frames(transcript(answered(), true, pieces, 9)),
        vec![message(&[1]), Frame::Error("reset".to_string()), end()]
    );
}

#[test]
fn a_lost_webview_ends_the_call() {
    let pieces = (0..50u8).map(|i| Piece::Data(vec![i])).collect();
    let asked = transcript(answered(), true, pieces, 2);
    assert_eq!(asked.iter().filter(|a| **a == Asked::Read).count(), 3);
    assert_eq!(asked.iter().filter(|a| **a == Asked::Forget).count(), 1);
    assert_eq!(frames(asked), vec![message(&[0]), message(&[1]), message(&[2]), end()]);
}

#[test]
fn an_invoke_that_is_gone_ends_the_call() {
    let pieces = vec![Piece::Data(vec![1])];
    assert_eq!(
        transcript(answered(), false, pieces, 9),
        vec![Asked::Head(200, vec![wire_header("a", "b")]), Asked::Forget, Asked::Stop]
    );
}

#[test]
fn a_failed_service_is_reported_and_forgotten() {
    assert_eq!(
        transcript(Event::Failed("panic".to_string()), true, Vec::new(), 9),
        vec![
            Asked::Refusal("connect service failed: panic".to_string()),
            Asked::Forget,
            Asked::Stop,
        ]
    );
}

#[test]
fn pieces_that_carry_nothing_are_passed_over() {
    let pieces = vec![Piece::Other, Piece::Data(vec![1]), Piece::Other];
    assert_eq!(frames(transcript(answered(), true, pieces, 9)), vec![message(&[1]), end()]);
}

#[test]
fn an_empty_body_is_only_an_end() {
    assert_eq!(frames(transcript(answered(), true, Vec::new(), 9)), vec![end()]);
    assert_eq!(frames(transcript(answered(), true, vec![Piece::Ended], 0)), vec![end()]);
}

#[test]
fn what_nobody_waits_for_is_ignored() {
    let mut pump = Pump::new();
    assert_eq!(pump.stage(), Stage::Calling);
    assert!(matches!(pump.step(Event::Sent(true)), Action::Ignore));
    assert!(matches!(pump.step(Event::Forgotten), Action::Ignore));
    assert!(matches!(pump.step(Event::Read(Piece::Ended)), Action::Ignore));
    assert_eq!(pump.stage(), Stage::Calling);
    assert!(matches!(pump.step(answered()), Action::Resolve(Ok(_))));
    assert!(matches!(pump.step(answered()), Action::Ignore));
    assert_eq!(pump.stage(), Stage::Resolving);
}
