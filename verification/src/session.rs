//! The decisions of an SSH terminal session: what each command from the terminal
//! and each message from the server channel leads to, how a session ends, how
//! prompts are answered, and the texts of authentication failures.
use vstd::prelude::*;
use crate::keys::{key_source_label, key_source_text};

verus! {

/// A command from the terminal tab to its session.
#[derive(Debug, PartialEq, Eq)]
pub enum Command {
    /// Bytes typed into the terminal.
    Input(Vec<u8>),
    /// The terminal was resized.
    Resize { cols: u16, rows: u16 },
    /// The tab asks for the remote system's metrics.
    SampleMetrics,
    /// Answers to a prompt.
    PromptResponse(Vec<String>),
    /// The tab was closed.
    Close,
}

/// A message from the server on the session's channel.
#[derive(Debug, PartialEq, Eq)]
pub enum ChannelEvent {
    Data(Vec<u8>),
    ExtendedData(Vec<u8>),
    ExitStatus,
    Eof,
    Close,
    /// Any other channel message.
    Other,
}

/// Why a session ended.
#[derive(Debug, PartialEq, Eq)]
pub enum ExitReason {
    /// Closed by the tab, or by the server after the remote shell ended.
    SessionClosed,
    /// The server closed the channel without the shell ending first.
    AbruptClose,
    /// The connection ended without the shell ending first.
    NetworkDrop,
    /// Writing to the channel failed, with the error's text.
    WriteError(String),
}

/// What the session does next.
#[derive(Debug, PartialEq, Eq)]
pub enum SessionAction {
    /// Send these bytes to the server.
    Write(Vec<u8>),
    /// Tell the server the new window size.
    Resize { cols: u16, rows: u16 },
    /// Sample the remote system's metrics in the background.
    SampleMetrics,
    /// A prompt answer arrived after authentication; it is dropped with a warning.
    DropPromptResponse,
    /// Show these bytes in the terminal.
    Output(Vec<u8>),
    /// Nothing to do.
    Nothing,
    /// End the session, first sending end-of-file to the server when `send_eof`.
    Exit { send_eof: bool, reason: ExitReason },
}

/// The state a running session keeps between events.
pub struct SessionState {
    /// The remote shell has ended (exit status or end-of-file was seen).
    pub graceful_close: bool,
}

/// Whether the remote shell has ended, given whether it had before and the
/// channel message that just arrived.
pub open spec fn shell_ended(before: bool, msg: Option<ChannelEvent>) -> bool {
    before || msg == Some(ChannelEvent::ExitStatus) || msg == Some(ChannelEvent::Eof)
}

/// Whether the remote shell has ended after a run of channel messages.
pub open spec fn shell_ended_after(before: bool, msgs: Seq<Option<ChannelEvent>>) -> bool
    decreases msgs.len(),
{
    if msgs.len() == 0 {
        before
    } else {
        shell_ended(shell_ended_after(before, msgs.drop_last()), msgs.last())
    }
}

/// The reason a session ends on when its stream or channel is gone.
pub open spec fn end_reason(graceful: bool, channel_closed: bool) -> ExitReason {
    if graceful {
        ExitReason::SessionClosed
    } else if channel_closed {
        ExitReason::AbruptClose
    } else {
        ExitReason::NetworkDrop
    }
}

impl SessionState {
    /// A session that has just opened its shell.
    pub fn new() -> (res: SessionState)
        ensures
            !res.graceful_close,
    {
        SessionState { graceful_close: false }
    }

    /// What a command from the tab leads to; `None` means the tab side is gone.
    /// The state does not change.
    pub fn on_command(&mut self, cmd: Option<Command>) -> (res: SessionAction)
        ensures
            final(self).graceful_close == old(self).graceful_close,
            match cmd {
                Some(Command::Input(b)) => res == SessionAction::Write(b),
                Some(Command::Resize { cols, rows }) => res == SessionAction::Resize { cols, rows },
                Some(Command::SampleMetrics) => res == SessionAction::SampleMetrics,
                Some(Command::PromptResponse(_)) => res == SessionAction::DropPromptResponse,
                Some(Command::Close) | None => res == SessionAction::Exit {
                    send_eof: true,
                    reason: ExitReason::SessionClosed,
                },
            },
    {
        match cmd {
            Some(Command::Input(b)) => SessionAction::Write(b),
            Some(Command::Resize { cols, rows }) => SessionAction::Resize { cols, rows },
            Some(Command::SampleMetrics) => SessionAction::SampleMetrics,
            Some(Command::PromptResponse(_)) => SessionAction::DropPromptResponse,
            Some(Command::Close) | None => SessionAction::Exit {
                send_eof: true,
                reason: ExitReason::SessionClosed,
            },
        }
    }

    /// What a channel message leads to; `None` means the connection's stream ended.
    /// Once the shell has ended the session remembers it.
    pub fn on_channel(&mut self, msg: Option<ChannelEvent>) -> (res: SessionAction)
        ensures
            final(self).graceful_close == shell_ended(old(self).graceful_close, msg),
            match msg {
                Some(ChannelEvent::Data(b)) | Some(ChannelEvent::ExtendedData(b)) => res
                    == SessionAction::Output(b),
                Some(ChannelEvent::ExitStatus) | Some(ChannelEvent::Eof) | Some(
                    ChannelEvent::Other,
                ) => res == SessionAction::Nothing,
                Some(ChannelEvent::Close) => res == SessionAction::Exit {
                    send_eof: false,
                    reason: end_reason(old(self).graceful_close, true),
                },
                None => res == SessionAction::Exit {
                    send_eof: false,
                    reason: end_reason(old(self).graceful_close, false),
                },
            },
    {
        match msg {
            Some(ChannelEvent::Data(b)) => SessionAction::Output(b),
            Some(ChannelEvent::ExtendedData(b)) => SessionAction::Output(b),
            Some(ChannelEvent::ExitStatus) => {
                self.graceful_close = true;
                SessionAction::Nothing
            },
            Some(ChannelEvent::Eof) => {
                self.graceful_close = true;
                SessionAction::Nothing
            },
            Some(ChannelEvent::Other) => SessionAction::Nothing,
            Some(ChannelEvent::Close) => {
                let reason = if self.graceful_close {
                    ExitReason::SessionClosed
                } else {
                    ExitReason::AbruptClose
                };
                SessionAction::Exit { send_eof: false, reason }
            },
            None => {
                let reason = if self.graceful_close {
                    ExitReason::SessionClosed
                } else {
                    ExitReason::NetworkDrop
                };
                SessionAction::Exit { send_eof: false, reason }
            },
        }
    }

    /// Writing typed bytes to the server failed with `error`: the session ends.
    pub fn on_write_error(&mut self, error: String) -> (res: SessionAction)
        ensures
            final(self).graceful_close == old(self).graceful_close,
            res == (SessionAction::Exit { send_eof: false, reason: ExitReason::WriteError(error) }),
    {
        SessionAction::Exit { send_eof: false, reason: ExitReason::WriteError(error) }
    }
}

/// Once the remote shell has ended, the session remembers it: after a run of
/// channel messages the shell counts as ended exactly when it had before or one of
/// the messages was an exit status or end-of-file, and from then on a closed
/// channel or an ended stream is reported as a closed session.
pub proof fn law_shell_end_is_remembered(
    before: bool,
    msgs: Seq<Option<ChannelEvent>>,
    channel_closed: bool,
)
    ensures
        shell_ended_after(before, msgs) == (before || exists|i: int|
            0 <= i < msgs.len() && shell_ended(false, #[trigger] msgs[i])),
        shell_ended_after(before, msgs) ==> end_reason(shell_ended_after(before, msgs), channel_closed)
            == ExitReason::SessionClosed,
    decreases msgs.len(),
{
    if msgs.len() > 0 {
        let init = msgs.drop_last();
        law_shell_end_is_remembered(before, init, channel_closed);
        if exists|i: int| 0 <= i < init.len() && shell_ended(false, #[trigger] init[i]) {
            let i = choose|i: int| 0 <= i < init.len() && shell_ended(false, #[trigger] init[i]);
            assert(msgs[i] == init[i]);
        }
        if exists|i: int| 0 <= i < msgs.len() && shell_ended(false, #[trigger] msgs[i]) {
            let i = choose|i: int| 0 <= i < msgs.len() && shell_ended(false, #[trigger] msgs[i]);
            if i < msgs.len() - 1 {
                assert(init[i] == msgs[i]);
            }
        }
        assert(msgs[msgs.len() - 1] == msgs.last());
    }
}

/// The text a session's end is reported with.
pub open spec fn exit_reason_text(r: ExitReason) -> Seq<char> {
    match r {
        ExitReason::SessionClosed => "ssh session closed"@,
        ExitReason::AbruptClose => "ssh connection lost (abrupt close)"@,
        ExitReason::NetworkDrop => "ssh connection lost (network drop)"@,
        ExitReason::WriteError(e) => "ssh write error: "@ + e@,
    }
}

/// The text a session's end is reported with (see `exit_reason_text`).
pub fn exit_reason_message(r: &ExitReason) -> (res: String)
    ensures
        res@ == exit_reason_text(*r),
{
    match r {
        ExitReason::SessionClosed => "ssh session closed".to_owned(),
        ExitReason::AbruptClose => "ssh connection lost (abrupt close)".to_owned(),
        ExitReason::NetworkDrop => "ssh connection lost (network drop)".to_owned(),
        ExitReason::WriteError(e) => {
            let mut s = "ssh write error: ".to_owned();
            s.append(e.as_str());
            s
        },
    }
}

/// Collects the output of the remote metrics probe: data on either stream is
/// appended to `stdout`; reading goes on until the channel closes or ends.
/// Returns whether to keep reading.
pub fn collect_metrics_output(stdout: &mut Vec<u8>, msg: Option<ChannelEvent>) -> (res: bool)
    ensures
        match msg {
            Some(ChannelEvent::Data(b)) | Some(ChannelEvent::ExtendedData(b)) => res
                && final(stdout)@ == old(stdout)@ + b@,
            Some(ChannelEvent::Close) | None => !res && final(stdout)@ == old(stdout)@,
            _ => res && final(stdout)@ == old(stdout)@,
        },
{
    match msg {
        Some(ChannelEvent::Data(b)) | Some(ChannelEvent::ExtendedData(b)) => {
            let n = b.len();
            let ghost start = stdout@;
            let mut i: usize = 0;
            while i < n
                invariant
                    i <= n,
                    n == b@.len(),
                    stdout@ == start + b@.take(i as int),
                decreases n - i,
            {
                stdout.push(b[i]);
                assert(b@.take(i + 1) =~= b@.take(i as int).push(b@[i as int]));
                i = i + 1;
            }
            assert(b@.take(n as int) =~= b@);
            true
        },
        Some(ChannelEvent::Close) | None => false,
        _ => true,
    }
}

// ---------------------------------------------------------------------------
// Prompts during authentication
// ---------------------------------------------------------------------------

/// How the tab answered a prompt.
#[derive(Debug, PartialEq, Eq)]
pub enum PromptReply {
    /// Not an answer; keep waiting.
    Wait,
    /// The answers.
    Answer(Vec<String>),
    /// The tab closed the session.
    Cancelled,
    /// The tab side is gone.
    Gone,
}

/// What a command means while a prompt waits for its answer.
pub fn prompt_reply(cmd: Option<Command>) -> (res: PromptReply)
    ensures
        match cmd {
            Some(Command::PromptResponse(r)) => res == PromptReply::Answer(r),
            Some(Command::Close) => res == PromptReply::Cancelled,
            Some(_) => res == PromptReply::Wait,
            None => res == PromptReply::Gone,
        },
{
    match cmd {
        Some(Command::PromptResponse(r)) => PromptReply::Answer(r),
        Some(Command::Close) => PromptReply::Cancelled,
        Some(_) => PromptReply::Wait,
        None => PromptReply::Gone,
    }
}

/// The first answer, which a passphrase prompt takes.
pub fn first_response(responses: Vec<String>) -> (res: Option<String>)
    ensures
        match res {
            Some(p) => responses@.len() > 0 && p == responses@[0],
            None => responses@.len() == 0,
        },
{
    if responses.len() > 0 {
        let mut responses = responses;
        Some(responses.remove(0))
    } else {
        None
    }
}

/// Remembered keyboard-interactive answers are used again only when there is one
/// for each prompt.
pub fn reusable_kb_responses(cached: Option<Vec<String>>, n_prompts: usize) -> (res: Option<
    Vec<String>,
>)
    ensures
        match cached {
            Some(v) => if v@.len() == n_prompts {
                res == Some(v)
            } else {
                res is None
            },
            None => res is None,
        },
{
    match cached {
        Some(v) => if v.len() == n_prompts {
            Some(v)
        } else {
            None
        },
        None => None,
    }
}

// ---------------------------------------------------------------------------
// Connection and authentication texts
// ---------------------------------------------------------------------------

/// The port a proxy is reached on: the one given, else 8080 for an HTTP proxy and
/// 1080 for any other.
pub fn proxy_port(proxy_type: &str, port: Option<u16>) -> (res: u16)
    ensures
        res == match port {
            Some(p) => p,
            None => if proxy_type@ == "http"@ {
                8080u16
            } else {
                1080u16
            },
        },
{
    match port {
        Some(p) => p,
        None => {
            proof {
                reveal_strlit("http");
            }
            let cs = crate::text::chars_of(proxy_type);
            let is_http = cs.len() == 4 && cs[0] == 'h' && cs[1] == 't' && cs[2] == 't' && cs[3]
                == 'p';
            assert(is_http == (proxy_type@ == "http"@)) by {
                if is_http {
                    assert(proxy_type@ =~= "http"@);
                }
            }
            if is_http {
                8080
            } else {
                1080
            }
        },
    }
}

/// The decimal digits of `n`.
pub open spec fn decimal(n: nat) -> Seq<char>
    decreases n,
{
    if n < 10 {
        seq![(48 + n) as char]
    } else {
        decimal(n / 10).push((48 + n % 10) as char)
    }
}

fn digit_text(d: u32) -> (res: &'static str)
    requires
        d < 10,
    ensures
        res@ == seq![(48 + d) as char],
{
    let all = "0123456789";
    proof {
        reveal_strlit("0123456789");
    }
    all.substring_char(d as usize, d as usize + 1)
}

/// `n` written in decimal.
pub fn decimal_string(n: u32) -> (res: String)
    ensures
        res@ == decimal(n as nat),
    decreases n,
{
    if n < 10 {
        digit_text(n).to_owned()
    } else {
        let mut s = decimal_string(n / 10);
        let ghost before = s@;
        s.append(digit_text(n % 10));
        assert(s@ =~= before.push((48 + n % 10) as char));
        s
    }
}

/// How a session authenticates.
#[derive(Clone, Copy, Debug, PartialEq, Eq)]
pub enum AuthMethod {
    Password,
    Key,
    KeyboardInteractive,
}

/// `user@host:port`.
pub open spec fn target_text(user: Seq<char>, host: Seq<char>, port: u16) -> Seq<char> {
    user + "@"@ + host + ":"@ + decimal(port as nat)
}

/// The error a session reports when the server rejects its authentication.
pub open spec fn auth_failure_text(
    method: AuthMethod,
    user: Seq<char>,
    host: Seq<char>,
    port: u16,
    key_path: Seq<char>,
    key_inline: Seq<char>,
) -> Seq<char> {
    match method {
        AuthMethod::Password => "authentication failed: server rejected password authentication for "@
            + target_text(user, host, port),
        AuthMethod::Key => "authentication failed: server rejected public key authentication for "@
            + target_text(user, host, port) + " using "@ + key_source_text(key_path, key_inline),
        AuthMethod::KeyboardInteractive =>
            "authentication failed: server rejected keyboard-interactive authentication for "@
            + target_text(user, host, port),
    }
}

pub(crate) fn target_string(user: &str, host: &str, port: u16) -> (res: String)
    ensures
        res@ == target_text(user@, host@, port),
{
    let mut s = user.to_owned();
    s.append("@");
    s.append(host);
    s.append(":");
    let p = decimal_string(port as u32);
    s.append(p.as_str());
    s
}

/// The error a session reports when the server rejects its authentication (see
/// `auth_failure_text`).
pub fn auth_failure_message(
    method: AuthMethod,
    user: &str,
    host: &str,
    port: u16,
    private_key_path: &str,
    private_key_inline: &str,
) -> (res: String)
    ensures
        res@ == auth_failure_text(method, user@, host@, port, private_key_path@, private_key_inline@),
{
    let target = target_string(user, host, port);
    match method {
        AuthMethod::Password => {
            let mut s = "authentication failed: server rejected password authentication for ".to_owned();
            s.append(target.as_str());
            s
        },
        AuthMethod::Key => {
            let mut s = "authentication failed: server rejected public key authentication for ".to_owned();
            s.append(target.as_str());
            s.append(" using ");
            let source = key_source_label(private_key_path, private_key_inline);
            s.append(source.as_str());
            s
        },
        AuthMethod::KeyboardInteractive => {
            let mut s =
                "authentication failed: server rejected keyboard-interactive authentication for ".to_owned();
            s.append(target.as_str());
            s
        },
    }
}

/// The error a session reports when no hash algorithm of its key was accepted.
pub open spec fn publickey_failure_text(
    user: Seq<char>,
    host: Seq<char>,
    port: u16,
    source: Seq<char>,
    algorithm: Seq<char>,
) -> Seq<char> {
    "public key authentication failed for "@ + target_text(user, host, port) + " using "@ + source
        + " ("@ + algorithm + ")"@
}

/// The error a session reports when no hash algorithm of its key was accepted (see
/// `publickey_failure_text`).
pub fn publickey_failure_message(
    user: &str,
    host: &str,
    port: u16,
    source: &str,
    algorithm: &str,
) -> (res: String)
    ensures
        res@ == publickey_failure_text(user@, host@, port, source@, algorithm@),
{
    let mut s = "public key authentication failed for ".to_owned();
    let target = target_string(user, host, port);
    s.append(target.as_str());
    s.append(" using ");
    s.append(source);
    s.append(" (");
    s.append(algorithm);
    s.append(")");
    s
}

} // verus!
