use ashell::auth::{
    accepted_status, address, auth_step, cancel_message, connected_status, connecting_status,
    direct_status, key_loaded_status, key_loading_status, keyboard_instruction,
    passphrase_instruction, password_status, proxy_status, proxy_status_from, AuthAction,
    AuthEvent, AuthState, Cancel,
};
use ashell::session::{AuthMethod, PromptReply};

fn begin(method: AuthMethod, passphrase: Option<&str>, has_answers: bool) -> AuthEvent {
    AuthEvent::Begin { method, passphrase: passphrase.map(|p| p.to_string()), has_answers }
}

#[test]
fn password_flow() {
    let mut s = AuthState::Start;
    assert_eq!(auth_step(&mut s, begin(AuthMethod::Password, Some("x"), true)), AuthAction::SendPassword);
    assert_eq!(s, AuthState::AwaitingPassword);
    assert_eq!(auth_step(&mut s, AuthEvent::PasswordAnswer(false)), AuthAction::Finish(false));
    assert_eq!(s, AuthState::Done);
}

#[test]
fn remembered_passphrase_is_tried_first() {
    let mut s = AuthState::Start;
    assert_eq!(
        auth_step(&mut s, begin(AuthMethod::Key, Some("old"), false)),
        AuthAction::LoadKey(Some("old".to_string()))
    );
    assert_eq!(
        auth_step(&mut s, AuthEvent::KeyLoaded(Err("bad".to_string()))),
        AuthAction::LoadKey(None)
    );
    assert_eq!(auth_step(&mut s, AuthEvent::KeyLoaded(Ok(()))), AuthAction::OfferNextKey);
    assert_eq!(s, AuthState::OfferingKey);
}

#[test]
fn passphrase_prompt_flow() {
    let mut s = AuthState::Start;
    assert_eq!(auth_step(&mut s, begin(AuthMethod::Key, None, false)), AuthAction::LoadKey(None));
    let err = "decode private key content: The key is encrypted".to_string();
    assert_eq!(auth_step(&mut s, AuthEvent::KeyLoaded(Err(err))), AuthAction::PromptPassphrase);
    assert_eq!(auth_step(&mut s, AuthEvent::Reply(PromptReply::Wait)), AuthAction::Ignore);
    assert_eq!(s, AuthState::AwaitingPassphrase);
    assert_eq!(
        auth_step(&mut s, AuthEvent::Reply(PromptReply::Answer(vec!["pw".to_string(), "x".to_string()]))),
        AuthAction::RememberPassphraseAndLoad("pw".to_string())
    );
    assert_eq!(
        auth_step(&mut s, AuthEvent::KeyLoaded(Err("bad passphrase".to_string()))),
        AuthAction::KeyLoadFailed("bad passphrase".to_string())
    );
    assert_eq!(s, AuthState::Done);
}

#[test]
fn other_key_errors_fail_at_once() {
    let mut s = AuthState::Start;
    auth_step(&mut s, begin(AuthMethod::Key, None, false));
    assert_eq!(
        auth_step(&mut s, AuthEvent::KeyLoaded(Err("Could not read key".to_string()))),
        AuthAction::KeyLoadFailed("Could not read key".to_string())
    );
}

#[test]
fn passphrase_prompt_cancellations() {
    for (reply, reason) in [
        (PromptReply::Cancelled, Cancel::PassphraseByUser),
        (PromptReply::Gone, Cancel::PassphrasePrompt),
        (PromptReply::Answer(vec![]), Cancel::PassphrasePrompt),
    ] {
        let mut s = AuthState::AwaitingPassphrase;
        assert_eq!(auth_step(&mut s, AuthEvent::Reply(reply)), AuthAction::Cancelled(reason));
        assert_eq!(s, AuthState::Done);
    }
    assert_eq!(cancel_message(Cancel::PassphraseByUser), "Authentication cancelled by user");
    assert_eq!(cancel_message(Cancel::PassphrasePrompt), "Passphrase prompt cancelled");
    assert_eq!(cancel_message(Cancel::AnswersByUser), "Authentication cancelled");
    assert_eq!(cancel_message(Cancel::AnswersPrompt), "Keyboard-interactive cancelled");
}

#[test]
fn keys_are_offered_until_one_is_accepted() {
    let mut s = AuthState::OfferingKey;
    assert_eq!(auth_step(&mut s, AuthEvent::KeyAnswer { accepted: false, more: true }), AuthAction::OfferNextKey);
    assert_eq!(auth_step(&mut s, AuthEvent::KeyAnswer { accepted: true, more: true }), AuthAction::Finish(true));
    let mut s = AuthState::OfferingKey;
    assert_eq!(auth_step(&mut s, AuthEvent::KeyAnswer { accepted: false, more: false }), AuthAction::KeysRejected);
    assert_eq!(s, AuthState::Done);
}

#[test]
fn keyboard_interactive_flow() {
    let mut s = AuthState::Start;
    assert_eq!(
        auth_step(&mut s, begin(AuthMethod::KeyboardInteractive, None, false)),
        AuthAction::StartKeyboard { exclusive: true }
    );
    let remembered = Some(vec!["a".to_string()]);
    assert_eq!(
        auth_step(&mut s, AuthEvent::KeyboardInfo { prompts: 1, remembered: remembered.clone() }),
        AuthAction::Respond(vec!["a".to_string()])
    );
    assert_eq!(
        auth_step(&mut s, AuthEvent::KeyboardInfo { prompts: 2, remembered }),
        AuthAction::PromptAnswers
    );
    let answers = vec!["x".to_string(), "y".to_string()];
    assert_eq!(
        auth_step(&mut s, AuthEvent::Reply(PromptReply::Answer(answers.clone()))),
        AuthAction::RememberAnswersAndRespond(answers)
    );
    assert_eq!(auth_step(&mut s, AuthEvent::KeyboardSuccess), AuthAction::Finish(true));
    let mut s = AuthState::Start;
    assert_eq!(
        auth_step(&mut s, begin(AuthMethod::KeyboardInteractive, None, true)),
        AuthAction::StartKeyboard { exclusive: false }
    );
    assert_eq!(auth_step(&mut s, AuthEvent::KeyboardFailure), AuthAction::Finish(false));
    let mut s = AuthState::AwaitingAnswers;
    assert_eq!(
        auth_step(&mut s, AuthEvent::Reply(PromptReply::Gone)),
        AuthAction::Cancelled(Cancel::AnswersPrompt)
    );
    let mut s = AuthState::AwaitingAnswers;
    assert_eq!(
        auth_step(&mut s, AuthEvent::Reply(PromptReply::Cancelled)),
        AuthAction::Cancelled(Cancel::AnswersByUser)
    );
}

#[test]
fn finished_authentication_ignores_everything() {
    let mut s = AuthState::Done;
    assert_eq!(auth_step(&mut s, AuthEvent::KeyboardSuccess), AuthAction::Ignore);
    assert_eq!(auth_step(&mut s, begin(AuthMethod::Password, None, false)), AuthAction::Ignore);
    assert_eq!(s, AuthState::Done);
    let mut s = AuthState::ReloadingKey;
    assert_eq!(auth_step(&mut s, AuthEvent::Reply(PromptReply::Cancelled)), AuthAction::Ignore);
    assert_eq!(s, AuthState::ReloadingKey);
}

#[test]
fn status_texts() {
    let addr = address("h.example", 22);
    assert_eq!(addr, "h.example:22");
    assert_eq!(connecting_status("u", "h", 2222), "connecting u@h:2222...");
    assert_eq!(connected_status("u", "h"), "connected u@h");
    assert_eq!(direct_status(&addr), "opening tcp connection to h.example:22");
    assert_eq!(
        proxy_status(&addr, "socks5", "p", None),
        "connecting to h.example:22 via SOCKS5 proxy p:1080"
    );
    assert_eq!(
        proxy_status(&addr, "http", "p", None),
        "connecting to h.example:22 via HTTP proxy p:8080"
    );
    assert_eq!(
        proxy_status(&addr, "http", "p", Some(3128)),
        "connecting to h.example:22 via HTTP proxy p:3128"
    );
    assert_eq!(proxy_status_from("a:1", "X", "q", 9), "connecting to a:1 via X proxy q:9");
    assert_eq!(
        password_status(&addr, "u"),
        "connected to h.example:22, sending password authentication for u"
    );
    assert_eq!(
        key_loading_status(&addr, "inline key text"),
        "connected to h.example:22, loading private key from inline key text"
    );
    assert_eq!(
        key_loaded_status("~/.ssh/id", "Ed25519", "u"),
        "private key loaded from ~/.ssh/id, algorithm Ed25519, sending public key authentication for u"
    );
    assert_eq!(passphrase_instruction("k"), "Enter passphrase for private key (source: k)");
    assert_eq!(keyboard_instruction("n", "i"), "n\ni");
    assert_eq!(accepted_status("u", "h"), "authentication accepted, opening shell for u@h");
}
