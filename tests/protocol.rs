use socktop::client::{request_budget, Drain, DrainAction, DrainEvent};
use socktop::session::{check_token, command_text, parse_command, same_text, session_step, Admission, Command, SessionAction};
use socktop::wire::Frame;

#[test]
fn tokens_are_exact() {
    assert_eq!(parse_command("get_metrics"), Some(Command::GetMetrics));
    assert_eq!(parse_command("get_disks"), Some(Command::GetDisks));
    assert_eq!(parse_command("get_processes"), Some(Command::GetProcesses));
    assert_eq!(parse_command("GET_METRICS"), None);
    assert_eq!(parse_command("get_metrics "), None);
    assert_eq!(parse_command(""), None);
    assert_eq!(command_text(Command::GetDisks), "get_disks");
    assert!(same_text("é", "é"));
    assert!(!same_text("é", "e"));
}

#[test]
fn session_dispatch() {
    assert_eq!(session_step(&Frame::Text("get_processes".into())), SessionAction::Reply(Command::GetProcesses));
    assert_eq!(session_step(&Frame::Text("hello".into())), SessionAction::Ignore);
    assert_eq!(session_step(&Frame::Binary(vec![1, 2])), SessionAction::Ignore);
    assert_eq!(session_step(&Frame::Close), SessionAction::End);
}

#[test]
fn auth_rejects_missing_or_wrong_token() {
    let want = Some("s3cret".to_string());
    assert_eq!(check_token(&want, &None), Admission::Reject);
    assert_eq!(check_token(&want, &Some("nope".into())), Admission::Reject);
    assert_eq!(check_token(&want, &Some("s3cret".into())), Admission::Serve);
    assert_eq!(check_token(&None, &None), Admission::Serve);
    assert_eq!(check_token(&None, &Some("anything".into())), Admission::Serve);
}

#[test]
fn drain_skips_out_of_order_reply() {
    let mut d = Drain::start(Command::GetMetrics);
    assert_eq!(d.attempts_left, request_budget(Command::GetMetrics).attempts);
    assert_eq!(d.step(DrainEvent::Reply(Command::GetDisks)), DrainAction::Wait);
    assert_eq!(d.step(DrainEvent::Reply(Command::GetMetrics)), DrainAction::Accept);
}

#[test]
fn drain_gives_up_after_budget() {
    let mut d = Drain::start(Command::GetDisks);
    let mut steps = 0;
    loop {
        steps += 1;
        match d.step(DrainEvent::TimedOut) {
            DrainAction::Wait => {}
            DrainAction::GiveUp => break,
            DrainAction::Accept => panic!("nothing arrived"),
        }
    }
    assert_eq!(steps, 3);
    let mut e = Drain::start(Command::GetProcesses);
    assert_eq!(e.attempts_left, 5);
    assert_eq!(e.step(DrainEvent::Undecodable), DrainAction::Wait);
    assert_eq!(e.step(DrainEvent::Closed), DrainAction::GiveUp);
    assert!(request_budget(Command::GetProcesses).timeout_ms > request_budget(Command::GetMetrics).timeout_ms);
}
