//! The decisions of authenticating an SSH session: what follows each answer of the
//! key loader, the tab and the server, and the status texts shown meanwhile.
use vstd::prelude::*;
use crate::keys::{asks_for_passphrase, error_mentions_passphrase};
use crate::session::{
    decimal, decimal_string, first_response, proxy_port, reusable_kb_responses, target_string,
    target_text, AuthMethod, PromptReply,
};

verus! {

/// Where authentication stands.
#[derive(Clone, Copy, Debug, PartialEq, Eq)]
pub enum AuthState {
    /// Nothing has happened yet.
    Start,
    /// The password was sent; the server's answer is awaited.
    AwaitingPassword,
    /// The key is being loaded with the passphrase remembered for the session.
    LoadingWithRemembered,
    /// The key is being loaded with the session's own passphrase.
    LoadingKey,
    /// The tab was asked for the key's passphrase.
    AwaitingPassphrase,
    /// The key is being loaded with the passphrase the tab gave.
    ReloadingKey,
    /// A key was offered; the server's answer is awaited.
    OfferingKey,
    /// Keyboard-interactive authentication runs; the server's next message is awaited.
    Keyboard,
    /// The tab was asked for keyboard-interactive answers.
    AwaitingAnswers,
    /// Authentication has ended.
    Done,
}

/// What happened during authentication.
#[derive(Debug, PartialEq, Eq)]
pub enum AuthEvent {
    /// Authentication starts with `method`; `passphrase` is the passphrase
    /// remembered for the session, and `has_answers` tells whether
    /// keyboard-interactive answers are remembered for it.
    Begin { method: AuthMethod, passphrase: Option<String>, has_answers: bool },
    /// The server accepted the password, or rejected it.
    PasswordAnswer(bool),
    /// Loading the key succeeded, or failed with this error.
    KeyLoaded(Result<(), String>),
    /// The tab answered a prompt.
    Reply(PromptReply),
    /// The server answered an offered key; `more` tells whether keys remain to offer.
    KeyAnswer { accepted: bool, more: bool },
    /// The server accepted keyboard-interactive authentication.
    KeyboardSuccess,
    /// The server rejected keyboard-interactive authentication.
    KeyboardFailure,
    /// The server asks `prompts` keyboard-interactive questions; `remembered` are
    /// the answers remembered for the session, if any.
    KeyboardInfo { prompts: usize, remembered: Option<Vec<String>> },
}

/// Why the tab's side ended authentication.
#[derive(Clone, Copy, Debug, PartialEq, Eq)]
pub enum Cancel {
    /// The tab closed while the passphrase was asked for.
    PassphraseByUser,
    /// The passphrase prompt got no answer.
    PassphrasePrompt,
    /// The tab closed while keyboard-interactive answers were asked for.
    AnswersByUser,
    /// The keyboard-interactive prompt got no answer.
    AnswersPrompt,
}

/// What to do next.
#[derive(Debug, PartialEq, Eq)]
pub enum AuthAction {
    /// Send the session's password.
    SendPassword,
    /// Load the key with this passphrase, or with the session's own when none.
    LoadKey(Option<String>),
    /// Ask the tab for the key's passphrase.
    PromptPassphrase,
    /// Remember this passphrase for the session and load the key with it.
    RememberPassphraseAndLoad(String),
    /// Loading the key failed with this error.
    KeyLoadFailed(String),
    /// Offer the next key.
    OfferNextKey,
    /// The server rejected every key.
    KeysRejected,
    /// Start keyboard-interactive authentication; when `exclusive`, while no other
    /// tab may prompt.
    StartKeyboard { exclusive: bool },
    /// Send these keyboard-interactive answers.
    Respond(Vec<String>),
    /// Ask the tab for keyboard-interactive answers.
    PromptAnswers,
    /// Remember these answers for the session and send them.
    RememberAnswersAndRespond(Vec<String>),
    /// Authentication fails because the tab's side ended it.
    Cancelled(Cancel),
    /// Authentication ended: the server accepted, or rejected.
    Finish(bool),
    /// The event does not apply here; nothing to do.
    Ignore,
}

/// The next state and action after `e` in state `s`.
pub open spec fn auth_next(s: AuthState, e: AuthEvent) -> (AuthState, AuthAction) {
    match s {
        AuthState::Start => match e {
            AuthEvent::Begin { method, passphrase, has_answers } => match method {
                AuthMethod::Password => (AuthState::AwaitingPassword, AuthAction::SendPassword),
                AuthMethod::Key => match passphrase {
                    Some(p) => (AuthState::LoadingWithRemembered, AuthAction::LoadKey(Some(p))),
                    None => (AuthState::LoadingKey, AuthAction::LoadKey(None)),
                },
                AuthMethod::KeyboardInteractive => (
                    AuthState::Keyboard,
                    AuthAction::StartKeyboard { exclusive: !has_answers },
                ),
            },
            _ => (s, AuthAction::Ignore),
        },
        AuthState::AwaitingPassword => match e {
            AuthEvent::PasswordAnswer(ok) => (AuthState::Done, AuthAction::Finish(ok)),
            _ => (s, AuthAction::Ignore),
        },
        AuthState::LoadingWithRemembered => match e {
            AuthEvent::KeyLoaded(Ok(_)) => (AuthState::OfferingKey, AuthAction::OfferNextKey),
            AuthEvent::KeyLoaded(Err(_)) => (AuthState::LoadingKey, AuthAction::LoadKey(None)),
            _ => (s, AuthAction::Ignore),
        },
        AuthState::LoadingKey => match e {
            AuthEvent::KeyLoaded(Ok(_)) => (AuthState::OfferingKey, AuthAction::OfferNextKey),
            AuthEvent::KeyLoaded(Err(m)) => if asks_for_passphrase(m@) {
                (AuthState::AwaitingPassphrase, AuthAction::PromptPassphrase)
            } else {
                (AuthState::Done, AuthAction::KeyLoadFailed(m))
            },
            _ => (s, AuthAction::Ignore),
        },
        AuthState::AwaitingPassphrase => match e {
            AuthEvent::Reply(PromptReply::Answer(v)) => if v.len() > 0 {
                (AuthState::ReloadingKey, AuthAction::RememberPassphraseAndLoad(v@[0]))
            } else {
                (AuthState::Done, AuthAction::Cancelled(Cancel::PassphrasePrompt))
            },
            AuthEvent::Reply(PromptReply::Cancelled) => (
                AuthState::Done,
                AuthAction::Cancelled(Cancel::PassphraseByUser),
            ),
            AuthEvent::Reply(PromptReply::Gone) => (
                AuthState::Done,
                AuthAction::Cancelled(Cancel::PassphrasePrompt),
            ),
            _ => (s, AuthAction::Ignore),
        },
        AuthState::ReloadingKey => match e {
            AuthEvent::KeyLoaded(Ok(_)) => (AuthState::OfferingKey, AuthAction::OfferNextKey),
            AuthEvent::KeyLoaded(Err(m)) => (AuthState::Done, AuthAction::KeyLoadFailed(m)),
            _ => (s, AuthAction::Ignore),
        },
        AuthState::OfferingKey => match e {
            AuthEvent::KeyAnswer { accepted, more } => if accepted {
                (AuthState::Done, AuthAction::Finish(true))
            } else if more {
                (AuthState::OfferingKey, AuthAction::OfferNextKey)
            } else {
                (AuthState::Done, AuthAction::KeysRejected)
            },
            _ => (s, AuthAction::Ignore),
        },
        AuthState::Keyboard => match e {
            AuthEvent::KeyboardSuccess => (AuthState::Done, AuthAction::Finish(true)),
            AuthEvent::KeyboardFailure => (AuthState::Done, AuthAction::Finish(false)),
            AuthEvent::KeyboardInfo { prompts, remembered } => match remembered {
                Some(v) => if v.len() == prompts {
                    (AuthState::Keyboard, AuthAction::Respond(v))
                } else {
                    (AuthState::AwaitingAnswers, AuthAction::PromptAnswers)
                },
                None => (AuthState::AwaitingAnswers, AuthAction::PromptAnswers),
            },
            _ => (s, AuthAction::Ignore),
        },
        AuthState::AwaitingAnswers => match e {
            AuthEvent::Reply(PromptReply::Answer(v)) => (
                AuthState::Keyboard,
                AuthAction::RememberAnswersAndRespond(v),
            ),
            AuthEvent::Reply(PromptReply::Cancelled) => (
                AuthState::Done,
                AuthAction::Cancelled(Cancel::AnswersByUser),
            ),
            AuthEvent::Reply(PromptReply::Gone) => (
                AuthState::Done,
                AuthAction::Cancelled(Cancel::AnswersPrompt),
            ),
            _ => (s, AuthAction::Ignore),
        },
        AuthState::Done => (s, AuthAction::Ignore),
    }
}

/// One step of authentication: the state after `event`, and what to do next
/// (see `auth_next`).
pub fn auth_step(state: &mut AuthState, event: AuthEvent) -> (action: AuthAction)
    ensures
        (*final(state), action) == auth_next(*old(state), event),
{
    let s = *state;
    let (next, action) = match s {
        AuthState::Start => match event {
            AuthEvent::Begin { method, passphrase, has_answers } => match method {
                AuthMethod::Password => (AuthState::AwaitingPassword, AuthAction::SendPassword),
                AuthMethod::Key => match passphrase {
                    Some(p) => (AuthState::LoadingWithRemembered, AuthAction::LoadKey(Some(p))),
                    None => (AuthState::LoadingKey, AuthAction::LoadKey(None)),
                },
                AuthMethod::KeyboardInteractive => (
                    AuthState::Keyboard,
                    AuthAction::StartKeyboard { exclusive: !has_answers },
                ),
            },
            _ => (s, AuthAction::Ignore),
        },
        AuthState::AwaitingPassword => match event {
            AuthEvent::PasswordAnswer(ok) => (AuthState::Done, AuthAction::Finish(ok)),
            _ => (s, AuthAction::Ignore),
        },
        AuthState::LoadingWithRemembered => match event {
            AuthEvent::KeyLoaded(Ok(_)) => (AuthState::OfferingKey, AuthAction::OfferNextKey),
            AuthEvent::KeyLoaded(Err(_)) => (AuthState::LoadingKey, AuthAction::LoadKey(None)),
            _ => (s, AuthAction::Ignore),
        },
        AuthState::LoadingKey => match event {
            AuthEvent::KeyLoaded(Ok(_)) => (AuthState::OfferingKey, AuthAction::OfferNextKey),
            AuthEvent::KeyLoaded(Err(m)) => if error_mentions_passphrase(m.as_str()) {
                (AuthState::AwaitingPassphrase, AuthAction::PromptPassphrase)
            } else {
                (AuthState::Done, AuthAction::KeyLoadFailed(m))
            },
            _ => (s, AuthAction::Ignore),
        },
        AuthState::AwaitingPassphrase => match event {
            AuthEvent::Reply(PromptReply::Answer(v)) => match first_response(v) {
                Some(p) => (AuthState::ReloadingKey, AuthAction::RememberPassphraseAndLoad(p)),
                None => (AuthState::Done, AuthAction::Cancelled(Cancel::PassphrasePrompt)),
            },
            AuthEvent::Reply(PromptReply::Cancelled) => (
                AuthState::Done,
                AuthAction::Cancelled(Cancel::PassphraseByUser),
            ),
            AuthEvent::Reply(PromptReply::Gone) => (
                AuthState::Done,
                AuthAction::Cancelled(Cancel::PassphrasePrompt),
            ),
            _ => (s, AuthAction::Ignore),
        },
        AuthState::ReloadingKey => match event {
            AuthEvent::KeyLoaded(Ok(_)) => (AuthState::OfferingKey, AuthAction::OfferNextKey),
            AuthEvent::KeyLoaded(Err(m)) => (AuthState::Done, AuthAction::KeyLoadFailed(m)),
            _ => (s, AuthAction::Ignore),
        },
        AuthState::OfferingKey => match event {
            AuthEvent::KeyAnswer { accepted, more } => if accepted {
                (AuthState::Done, AuthAction::Finish(true))
            } else if more {
                (AuthState::OfferingKey, AuthAction::OfferNextKey)
            } else {
                (AuthState::Done, AuthAction::KeysRejected)
            },
            _ => (s, AuthAction::Ignore),
        },
        AuthState::Keyboard => match event {
            AuthEvent::KeyboardSuccess => (AuthState::Done, AuthAction::Finish(true)),
            AuthEvent::KeyboardFailure => (AuthState::Done, AuthAction::Finish(false)),
            AuthEvent::KeyboardInfo { prompts, remembered } => match reusable_kb_responses(
                remembered,
                prompts,
            ) {
                Some(v) => (AuthState::Keyboard, AuthAction::Respond(v)),
                None => (AuthState::AwaitingAnswers, AuthAction::PromptAnswers),
            },
            _ => (s, AuthAction::Ignore),
        },
        AuthState::AwaitingAnswers => match event {
            AuthEvent::Reply(PromptReply::Answer(v)) => (
                AuthState::Keyboard,
                AuthAction::RememberAnswersAndRespond(v),
            ),
            AuthEvent::Reply(PromptReply::Cancelled) => (
                AuthState::Done,
                AuthAction::Cancelled(Cancel::AnswersByUser),
            ),
            AuthEvent::Reply(PromptReply::Gone) => (
                AuthState::Done,
                AuthAction::Cancelled(Cancel::AnswersPrompt),
            ),
            _ => (s, AuthAction::Ignore),
        },
        AuthState::Done => (s, AuthAction::Ignore),
    };
    *state = next;
    action
}

/// Once authentication has ended, nothing more happens, whatever comes.
pub proof fn law_done_is_final(e: AuthEvent)
    ensures
        auth_next(AuthState::Done, e) == (AuthState::Done, AuthAction::Ignore),
{
}

/// The passphrase is asked for at most once: after the key was reloaded with the
/// tab's passphrase, or once keys are offered, it is not asked for again, and the
/// tab's side can no longer cancel.
pub proof fn law_passphrase_asked_once(s: AuthState, e: AuthEvent)
    requires
        s == AuthState::ReloadingKey || s == AuthState::OfferingKey,
    ensures
        auth_next(s, e).0 != AuthState::AwaitingPassphrase,
        !(auth_next(s, e).1 is Cancelled),
{
}

/// Password authentication ends with the server's answer: an accepted password
/// ends authentication as accepted, a rejected one as rejected.
pub proof fn law_password_outcome(ok: bool)
    ensures
        auth_next(AuthState::AwaitingPassword, AuthEvent::PasswordAnswer(ok)) == (
            AuthState::Done,
            AuthAction::Finish(ok),
        ),
{
}

/// Starting sends the password, loads the key (with the remembered passphrase
/// first, when there is one) or starts keyboard-interactive authentication,
/// holding the prompt lock only when no answers are remembered.
pub proof fn law_start(method: AuthMethod, passphrase: Option<String>, has_answers: bool)
    ensures
        ({
            let (s, a) = auth_next(
                AuthState::Start,
                AuthEvent::Begin { method, passphrase, has_answers },
            );
            match method {
                AuthMethod::Password => s == AuthState::AwaitingPassword && a
                    == AuthAction::SendPassword,
                AuthMethod::Key => a == AuthAction::LoadKey(passphrase) && (s
                    == AuthState::LoadingWithRemembered <==> passphrase is Some) && (s
                    == AuthState::LoadingKey <==> passphrase is None),
                AuthMethod::KeyboardInteractive => s == AuthState::Keyboard && a
                    == AuthAction::StartKeyboard { exclusive: !has_answers },
            }
        }),
{
}

/// Loading the key: a loaded key is offered; when the remembered passphrase does
/// not open the key, the session's own passphrase is tried next; otherwise a
/// failure asks for the passphrase exactly when its text mentions `encrypted`,
/// `passphrase` or `decrypt`, and ends authentication with that error otherwise.
pub proof fn law_key_loading(s: AuthState, m: String)
    requires
        s == AuthState::LoadingWithRemembered || s == AuthState::LoadingKey || s
            == AuthState::ReloadingKey,
    ensures
        auth_next(s, AuthEvent::KeyLoaded(Ok(()))) == (AuthState::OfferingKey, AuthAction::OfferNextKey),
        s == AuthState::LoadingWithRemembered ==> auth_next(s, AuthEvent::KeyLoaded(Err(m))) == (
            AuthState::LoadingKey,
            AuthAction::LoadKey(None),
        ),
        s == AuthState::LoadingKey ==> auth_next(s, AuthEvent::KeyLoaded(Err(m))) == if mentions(
            m@,
            "encrypted"@,
        ) || mentions(m@, "passphrase"@) || mentions(m@, "decrypt"@) {
            (AuthState::AwaitingPassphrase, AuthAction::PromptPassphrase)
        } else {
            (AuthState::Done, AuthAction::KeyLoadFailed(m))
        },
        s == AuthState::ReloadingKey ==> auth_next(s, AuthEvent::KeyLoaded(Err(m))) == (
            AuthState::Done,
            AuthAction::KeyLoadFailed(m),
        ),
{
    if s == AuthState::LoadingKey {
        lemma_mentions(m@, "encrypted"@);
        lemma_mentions(m@, "passphrase"@);
        lemma_mentions(m@, "decrypt"@);
    }
}

/// `w` occurs somewhere in `t`.
pub open spec fn mentions(t: Seq<char>, w: Seq<char>) -> bool {
    exists|i: int| 0 <= i && i + w.len() <= t.len() && #[trigger] t.subrange(i, i + w.len()) == w
}

proof fn lemma_mentions(t: Seq<char>, w: Seq<char>)
    ensures
        crate::text::contains_seq(t, w) == mentions(t, w),
{
    if crate::text::contains_seq(t, w) {
        let i = choose|i: int| crate::text::occurs_at(t, w, i);
        assert(t.subrange(i, i + w.len()) == w);
    }
    if mentions(t, w) {
        let i = choose|i: int|
            0 <= i && i + w.len() <= t.len() && #[trigger] t.subrange(i, i + w.len()) == w;
        assert(crate::text::occurs_at(t, w, i));
    }
}

/// The passphrase prompt: the first answer is remembered and the key loaded with
/// it; an empty answer, or no answer, ends authentication as cancelled, and so
/// does closing the tab; a message that answers nothing keeps waiting.
pub proof fn law_passphrase_prompt(v: Vec<String>)
    ensures
        v@.len() > 0 ==> auth_next(
            AuthState::AwaitingPassphrase,
            AuthEvent::Reply(PromptReply::Answer(v)),
        ) == (AuthState::ReloadingKey, AuthAction::RememberPassphraseAndLoad(v@[0])),
        v@.len() == 0 ==> auth_next(
            AuthState::AwaitingPassphrase,
            AuthEvent::Reply(PromptReply::Answer(v)),
        ) == (AuthState::Done, AuthAction::Cancelled(Cancel::PassphrasePrompt)),
        auth_next(AuthState::AwaitingPassphrase, AuthEvent::Reply(PromptReply::Cancelled)) == (
            AuthState::Done,
            AuthAction::Cancelled(Cancel::PassphraseByUser),
        ),
        auth_next(AuthState::AwaitingPassphrase, AuthEvent::Reply(PromptReply::Gone)) == (
            AuthState::Done,
            AuthAction::Cancelled(Cancel::PassphrasePrompt),
        ),
        auth_next(AuthState::AwaitingPassphrase, AuthEvent::Reply(PromptReply::Wait)) == (
            AuthState::AwaitingPassphrase,
            AuthAction::Ignore,
        ),
{
}

/// Offered keys: the first key the server accepts ends authentication as
/// accepted; a rejected key is followed by the next one, and when none is left
/// every key was rejected.
pub proof fn law_key_offers(accepted: bool, more: bool)
    ensures
        auth_next(AuthState::OfferingKey, AuthEvent::KeyAnswer { accepted, more }) == if accepted {
            (AuthState::Done, AuthAction::Finish(true))
        } else if more {
            (AuthState::OfferingKey, AuthAction::OfferNextKey)
        } else {
            (AuthState::Done, AuthAction::KeysRejected)
        },
{
}

/// Keyboard-interactive authentication ends with the server's verdict;
/// remembered answers are sent when there is one for each question, and the tab
/// is asked otherwise; the tab's answers are remembered and sent.
pub proof fn law_keyboard(prompts: usize, remembered: Option<Vec<String>>, answers: Vec<String>)
    ensures
        auth_next(AuthState::Keyboard, AuthEvent::KeyboardSuccess) == (
            AuthState::Done,
            AuthAction::Finish(true),
        ),
        auth_next(AuthState::Keyboard, AuthEvent::KeyboardFailure) == (
            AuthState::Done,
            AuthAction::Finish(false),
        ),
        auth_next(AuthState::Keyboard, AuthEvent::KeyboardInfo { prompts, remembered }) == match remembered {
            Some(v) => if v@.len() == prompts {
                (AuthState::Keyboard, AuthAction::Respond(v))
            } else {
                (AuthState::AwaitingAnswers, AuthAction::PromptAnswers)
            },
            None => (AuthState::AwaitingAnswers, AuthAction::PromptAnswers),
        },
        auth_next(AuthState::AwaitingAnswers, AuthEvent::Reply(PromptReply::Answer(answers))) == (
            AuthState::Keyboard,
            AuthAction::RememberAnswersAndRespond(answers),
        ),
        auth_next(AuthState::AwaitingAnswers, AuthEvent::Reply(PromptReply::Cancelled)) == (
            AuthState::Done,
            AuthAction::Cancelled(Cancel::AnswersByUser),
        ),
        auth_next(AuthState::AwaitingAnswers, AuthEvent::Reply(PromptReply::Gone)) == (
            AuthState::Done,
            AuthAction::Cancelled(Cancel::AnswersPrompt),
        ),
{
}

/// The error text a cancelled authentication ends with.
pub open spec fn cancel_text(c: Cancel) -> Seq<char> {
    match c {
        Cancel::PassphraseByUser => "Authentication cancelled by user"@,
        Cancel::PassphrasePrompt => "Passphrase prompt cancelled"@,
        Cancel::AnswersByUser => "Authentication cancelled"@,
        Cancel::AnswersPrompt => "Keyboard-interactive cancelled"@,
    }
}

/// The error text a cancelled authentication ends with (see `cancel_text`).
pub fn cancel_message(c: Cancel) -> (res: String)
    ensures
        res@ == cancel_text(c),
{
    match c {
        Cancel::PassphraseByUser => "Authentication cancelled by user".to_owned(),
        Cancel::PassphrasePrompt => "Passphrase prompt cancelled".to_owned(),
        Cancel::AnswersByUser => "Authentication cancelled".to_owned(),
        Cancel::AnswersPrompt => "Keyboard-interactive cancelled".to_owned(),
    }
}

// ---------------------------------------------------------------------------
// Status texts
// ---------------------------------------------------------------------------

/// `host:port`, the address connected to.
pub open spec fn address_text(host: Seq<char>, port: u16) -> Seq<char> {
    host + ":"@ + decimal(port as nat)
}

/// The address connected to (see `address_text`).
pub fn address(host: &str, port: u16) -> (res: String)
    ensures
        res@ == address_text(host@, port),
{
    let mut s = host.to_owned();
    s.append(":");
    let p = decimal_string(port as u32);
    s.append(p.as_str());
    s
}

/// Shown when a session starts connecting.
pub open spec fn connecting_text(user: Seq<char>, host: Seq<char>, port: u16) -> Seq<char> {
    "connecting "@ + target_text(user, host, port) + "..."@
}

/// Shown when a session starts connecting (see `connecting_text`).
pub fn connecting_status(user: &str, host: &str, port: u16) -> (res: String)
    ensures
        res@ == connecting_text(user@, host@, port),
{
    let mut s = "connecting ".to_owned();
    let t = target_string(user, host, port);
    s.append(t.as_str());
    s.append("...");
    s
}

/// Shown once the shell channel is open.
pub open spec fn connected_text(user: Seq<char>, host: Seq<char>) -> Seq<char> {
    "connected "@ + user + "@"@ + host
}

/// Shown once the shell channel is open (see `connected_text`).
pub fn connected_status(user: &str, host: &str) -> (res: String)
    ensures
        res@ == connected_text(user@, host@),
{
    let mut s = "connected ".to_owned();
    s.append(user);
    s.append("@");
    s.append(host);
    s
}

/// Shown when the TCP connection is opened directly.
pub open spec fn direct_text(addr: Seq<char>) -> Seq<char> {
    "opening tcp connection to "@ + addr
}

/// Shown when the TCP connection is opened directly (see `direct_text`).
pub fn direct_status(addr: &str) -> (res: String)
    ensures
        res@ == direct_text(addr@),
{
    let mut s = "opening tcp connection to ".to_owned();
    s.append(addr);
    s
}

/// Shown when the connection goes through a proxy; `kind` is the proxy type as
/// shown (upper case).
pub open spec fn proxy_text(addr: Seq<char>, kind: Seq<char>, proxy_host: Seq<char>, port: u16) -> Seq<
    char,
> {
    "connecting to "@ + addr + " via "@ + kind + " proxy "@ + proxy_host + ":"@ + decimal(port as nat)
}

/// Shown when the connection goes through a proxy, from the proxy type as shown
/// (see `proxy_text`).
pub fn proxy_status_from(addr: &str, kind: &str, proxy_host: &str, port: u16) -> (res: String)
    ensures
        res@ == proxy_text(addr@, kind@, proxy_host@, port),
{
    let mut s = "connecting to ".to_owned();
    s.append(addr);
    s.append(" via ");
    s.append(kind);
    s.append(" proxy ");
    s.append(proxy_host);
    s.append(":");
    let p = decimal_string(port as u32);
    s.append(p.as_str());
    s
}

/// The upper-case form of a text, as `str::to_uppercase` gives it.
pub uninterp spec fn uppercase(s: Seq<char>) -> Seq<char>;

/// Calls `str::to_uppercase`. Trusted: the result is `uppercase` of the text.
#[verifier::external_body]
fn to_uppercase(s: &str) -> (res: String)
    ensures
        res@ == uppercase(s@),
{
    s.to_uppercase()
}

/// The port a proxy is reached on: the one given, else 8080 for an HTTP proxy
/// and 1080 for any other.
pub open spec fn proxy_port_of(proxy_type: Seq<char>, port: Option<u16>) -> u16 {
    match port {
        Some(p) => p,
        None => if proxy_type == "http"@ {
            8080u16
        } else {
            1080u16
        },
    }
}

/// Shown when the connection goes through a proxy of type `proxy_type` at
/// `proxy_host`, on `port` or the type's usual port: the type in upper case.
pub fn proxy_status(addr: &str, proxy_type: &str, proxy_host: &str, port: Option<u16>) -> (res:
    String)
    ensures
        res@ == proxy_text(addr@, uppercase(proxy_type@), proxy_host@, proxy_port_of(proxy_type@, port)),
{
    let kind = to_uppercase(proxy_type);
    let p = proxy_port(proxy_type, port);
    proxy_status_from(addr, kind.as_str(), proxy_host, p)
}

/// Shown when the password is sent.
pub open spec fn password_text(addr: Seq<char>, user: Seq<char>) -> Seq<char> {
    "connected to "@ + addr + ", sending password authentication for "@ + user
}

/// Shown when the password is sent (see `password_text`).
pub fn password_status(addr: &str, user: &str) -> (res: String)
    ensures
        res@ == password_text(addr@, user@),
{
    let mut s = "connected to ".to_owned();
    s.append(addr);
    s.append(", sending password authentication for ");
    s.append(user);
    s
}

/// Shown when the private key is being loaded.
pub open spec fn key_loading_text(addr: Seq<char>, source: Seq<char>) -> Seq<char> {
    "connected to "@ + addr + ", loading private key from "@ + source
}

/// Shown when the private key is being loaded (see `key_loading_text`).
pub fn key_loading_status(addr: &str, source: &str) -> (res: String)
    ensures
        res@ == key_loading_text(addr@, source@),
{
    let mut s = "connected to ".to_owned();
    s.append(addr);
    s.append(", loading private key from ");
    s.append(source);
    s
}

/// Shown once the private key is loaded, before it is offered.
pub open spec fn key_loaded_text(source: Seq<char>, algorithm: Seq<char>, user: Seq<char>) -> Seq<
    char,
> {
    "private key loaded from "@ + source + ", algorithm "@ + algorithm
        + ", sending public key authentication for "@ + user
}

/// Shown once the private key is loaded (see `key_loaded_text`).
pub fn key_loaded_status(source: &str, algorithm: &str, user: &str) -> (res: String)
    ensures
        res@ == key_loaded_text(source@, algorithm@, user@),
{
    let mut s = "private key loaded from ".to_owned();
    s.append(source);
    s.append(", algorithm ");
    s.append(algorithm);
    s.append(", sending public key authentication for ");
    s.append(user);
    s
}

/// The instruction of the passphrase prompt.
pub open spec fn passphrase_instruction_text(source: Seq<char>) -> Seq<char> {
    "Enter passphrase for private key (source: "@ + source + ")"@
}

/// The instruction of the passphrase prompt (see `passphrase_instruction_text`).
pub fn passphrase_instruction(source: &str) -> (res: String)
    ensures
        res@ == passphrase_instruction_text(source@),
{
    let mut s = "Enter passphrase for private key (source: ".to_owned();
    s.append(source);
    s.append(")");
    s
}

/// The instruction of a keyboard-interactive prompt: the server's name for it and
/// its instructions, on two lines.
pub open spec fn keyboard_instruction_text(name: Seq<char>, instructions: Seq<char>) -> Seq<char> {
    name + "\n"@ + instructions
}

/// The instruction of a keyboard-interactive prompt (see
/// `keyboard_instruction_text`).
pub fn keyboard_instruction(name: &str, instructions: &str) -> (res: String)
    ensures
        res@ == keyboard_instruction_text(name@, instructions@),
{
    let mut s = name.to_owned();
    s.append("\n");
    s.append(instructions);
    s
}

/// Shown once the server accepted the authentication.
pub open spec fn accepted_text(user: Seq<char>, host: Seq<char>) -> Seq<char> {
    "authentication accepted, opening shell for "@ + user + "@"@ + host
}

/// Shown once the server accepted the authentication (see `accepted_text`).
pub fn accepted_status(user: &str, host: &str) -> (res: String)
    ensures
        res@ == accepted_text(user@, host@),
{
    let mut s = "authentication accepted, opening shell for ".to_owned();
    s.append(user);
    s.append("@");
    s.append(host);
    s
}

} // verus!
