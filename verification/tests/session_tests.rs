use ashell::session::{
    auth_failure_message, collect_metrics_output, decimal_string, exit_reason_message,
    first_response, prompt_reply, proxy_port, publickey_failure_message, reusable_kb_responses,
    AuthMethod, ChannelEvent, Command, ExitReason, PromptReply, SessionAction, SessionState,
};

#[test]
fn commands_drive_the_channel() {
    let mut s = SessionState::new();
    assert_eq!(s.on_command(Some(Command::Input(vec![1, 2]))), SessionAction::Write(vec![1, 2]));
    assert_eq!(
        s.on_command(Some(Command::Resize { cols: 80, rows: 24 })),
        SessionAction::Resize { cols: 80, rows: 24 }
    );
    assert_eq!(s.on_command(Some(Command::SampleMetrics)), SessionAction::SampleMetrics);
    assert_eq!(
        s.on_command(Some(Command::PromptResponse(vec![]))),
        SessionAction::DropPromptResponse
    );
    assert_eq!(
        s.on_command(Some(Command::Close)),
        SessionAction::Exit { send_eof: true, reason: ExitReason::SessionClosed }
    );
    assert_eq!(
        s.on_command(None),
        SessionAction::Exit { send_eof: true, reason: ExitReason::SessionClosed }
    );
    assert!(!s.graceful_close);
}

#[test]
fn abrupt_close_and_network_drop() {
    let mut s = SessionState::new();
    assert_eq!(s.on_channel(Some(ChannelEvent::Data(vec![65]))), SessionAction::Output(vec![65]));
    assert_eq!(
        s.on_channel(Some(ChannelEvent::ExtendedData(vec![66]))),
        SessionAction::Output(vec![66])
    );
    assert_eq!(s.on_channel(Some(ChannelEvent::Other)), SessionAction::Nothing);
    assert_eq!(
        s.on_channel(Some(ChannelEvent::Close)),
        SessionAction::Exit { send_eof: false, reason: ExitReason::AbruptClose }
    );
    let mut s = SessionState::new();
    assert_eq!(
        s.on_channel(None),
        SessionAction::Exit { send_eof: false, reason: ExitReason::NetworkDrop }
    );
}

#[test]
fn graceful_close_after_eof_or_exit_status() {
    let mut s = SessionState::new();
    assert_eq!(s.on_channel(Some(ChannelEvent::Eof)), SessionAction::Nothing);
    assert!(s.graceful_close);
    assert_eq!(s.on_channel(Some(ChannelEvent::Data(vec![]))), SessionAction::Output(vec![]));
    assert!(s.graceful_close);
    assert_eq!(
        s.on_channel(Some(ChannelEvent::Close)),
        SessionAction::Exit { send_eof: false, reason: ExitReason::SessionClosed }
    );
    let mut s = SessionState::new();
    s.on_channel(Some(ChannelEvent::ExitStatus));
    assert_eq!(
        s.on_channel(None),
        SessionAction::Exit { send_eof: false, reason: ExitReason::SessionClosed }
    );
}

#[test]
fn write_errors_end_the_session() {
    let mut s = SessionState::new();
    assert_eq!(
        s.on_write_error("broken pipe".to_string()),
        SessionAction::Exit {
            send_eof: false,
            reason: ExitReason::WriteError("broken pipe".to_string())
        }
    );
}

#[test]
fn exit_reason_texts() {
    assert_eq!(exit_reason_message(&ExitReason::SessionClosed), "ssh session closed");
    assert_eq!(exit_reason_message(&ExitReason::AbruptClose), "ssh connection lost (abrupt close)");
    assert_eq!(exit_reason_message(&ExitReason::NetworkDrop), "ssh connection lost (network drop)");
    assert_eq!(
        exit_reason_message(&ExitReason::WriteError("x".to_string())),
        "ssh write error: x"
    );
}

#[test]
fn metrics_output_collection() {
    let mut out = vec![1u8];
    assert!(collect_metrics_output(&mut out, Some(ChannelEvent::Data(vec![2, 3]))));
    assert!(collect_metrics_output(&mut out, Some(ChannelEvent::ExtendedData(vec![4]))));
    assert!(collect_metrics_output(&mut out, Some(ChannelEvent::Eof)));
    assert_eq!(out, vec![1, 2, 3, 4]);
    assert!(!collect_metrics_output(&mut out, Some(ChannelEvent::Close)));
    assert!(!collect_metrics_output(&mut out, None));
    assert_eq!(out, vec![1, 2, 3, 4]);
}

#[test]
fn prompt_replies() {
    assert_eq!(
        prompt_reply(Some(Command::PromptResponse(vec!["a".to_string()]))),
        PromptReply::Answer(vec!["a".to_string()])
    );
    assert_eq!(prompt_reply(Some(Command::Close)), PromptReply::Cancelled);
    assert_eq!(prompt_reply(Some(Command::SampleMetrics)), PromptReply::Wait);
    assert_eq!(prompt_reply(Some(Command::Input(vec![]))), PromptReply::Wait);
    assert_eq!(prompt_reply(None), PromptReply::Gone);
    assert_eq!(first_response(vec!["a".to_string(), "b".to_string()]), Some("a".to_string()));
    assert_eq!(first_response(vec![]), None);
}

#[test]
fn kb_responses_reused_only_when_counts_match() {
    let v = vec!["a".to_string(), "b".to_string()];
    assert_eq!(reusable_kb_responses(Some(v.clone()), 2), Some(v.clone()));
    assert_eq!(reusable_kb_responses(Some(v), 1), None);
    assert_eq!(reusable_kb_responses(None, 0), None);
}

#[test]
fn proxy_ports() {
    assert_eq!(proxy_port("http", None), 8080);
    assert_eq!(proxy_port("socks5", None), 1080);
    assert_eq!(proxy_port("HTTP", None), 1080);
    assert_eq!(proxy_port("http", Some(3128)), 3128);
}

#[test]
fn decimal_numbers() {
    assert_eq!(decimal_string(0), "0");
    assert_eq!(decimal_string(7), "7");
    assert_eq!(decimal_string(22), "22");
    assert_eq!(decimal_string(65535), "65535");
    assert_eq!(decimal_string(4294967295), "4294967295");
}

#[test]
fn auth_failure_texts() {
    assert_eq!(
        auth_failure_message(AuthMethod::Password, "root", "h", 22, "", ""),
        "authentication failed: server rejected password authentication for root@h:22"
    );
    assert_eq!(
        auth_failure_message(AuthMethod::Key, "u", "example.org", 2222, "~/.ssh/id", ""),
        "authentication failed: server rejected public key authentication for u@example.org:2222 using ~/.ssh/id"
    );
    assert_eq!(
        auth_failure_message(AuthMethod::KeyboardInteractive, "u", "h", 1, "", ""),
        "authentication failed: server rejected keyboard-interactive authentication for u@h:1"
    );
    assert_eq!(
        publickey_failure_message("u", "h", 22, "inline key text", "Ed25519"),
        "public key authentication failed for u@h:22 using inline key text (Ed25519)"
    );
}
