//! Private keys of SSH sessions: cleaning up pasted key text, describing where a
//! key comes from, reading the key path, decoding inline keys with russh, and the
//! hash algorithms a key is offered with.
use std::sync::Arc;
use vstd::prelude::*;
use crate::text::{
    chars_of, contains_chars, contains_seq, replace_all, replace_chars, trim, trimmed,
};

verus! {

#[verifier::external_type_specification]
#[verifier::external_body]
pub struct ExPrivateKey(russh::keys::PrivateKey);

#[verifier::external_type_specification]
#[verifier::external_body]
pub struct ExPrivateKeyWithHashAlg(russh::keys::key::PrivateKeyWithHashAlg);

// ---------------------------------------------------------------------------
// Inline key text
// ---------------------------------------------------------------------------

/// Pasted key text made ready for decoding: trimmed, with the escaped line breaks
/// `\r\n` and `\n` (backslash sequences), and real CR LF pairs, each turned into a
/// line feed, in that order, and ending with a line feed.
pub open spec fn normalized_key(v: Seq<char>) -> Seq<char> {
    let r = replace_all(
        replace_all(
            replace_all(trimmed(v), seq!['\\', 'r', '\\', 'n'], seq!['\n']),
            seq!['\\', 'n'],
            seq!['\n'],
        ),
        seq!['\r', '\n'],
        seq!['\n'],
    );
    if r.len() > 0 && r.last() == '\n' {
        r
    } else {
        r.push('\n')
    }
}

/// Cleaned-up key text is never empty and always ends with a line feed.
pub proof fn law_normalized_key_ends_with_newline(v: Seq<char>)
    ensures
        normalized_key(v).len() > 0,
        normalized_key(v).last() == '\n',
{
}

/// Cleans up a private key pasted as text (see `normalized_key`).
pub fn normalize_inline_private_key(value: &str) -> (res: String)
    ensures
        res@ == normalized_key(value@),
{
    let nl = "\n";
    proof {
        reveal_strlit("\n");
    }
    let t = trim(value);
    let escaped_crlf = vec!['\\', 'r', '\\', 'n'];
    let escaped_lf = vec!['\\', 'n'];
    let crlf = vec!['\r', '\n'];
    assert(nl@ =~= seq!['\n']);
    assert(escaped_crlf@ =~= seq!['\\', 'r', '\\', 'n']);
    assert(escaped_lf@ =~= seq!['\\', 'n']);
    assert(crlf@ =~= seq!['\r', '\n']);
    let a = replace_chars(t, &escaped_crlf, nl);
    let b = replace_chars(a.as_str(), &escaped_lf, nl);
    let mut c = replace_chars(b.as_str(), &crlf, nl);
    let cs = chars_of(c.as_str());
    let n = cs.len();
    if !(n > 0 && cs[n - 1] == '\n') {
        let ghost before = c@;
        c.append(nl);
        assert(c@ =~= before.push('\n'));
    }
    c
}

// ---------------------------------------------------------------------------
// Key sources
// ---------------------------------------------------------------------------

/// How the key source of a session is described to the user.
pub open spec fn key_source_text(path: Seq<char>, inline: Seq<char>) -> Seq<char> {
    let p = trimmed(path);
    let has_inline = trimmed(inline).len() > 0;
    if p.len() > 0 && has_inline {
        "inline key or "@ + p
    } else if p.len() > 0 {
        p
    } else if has_inline {
        "inline key text"@
    } else {
        "unknown key source"@
    }
}

/// Describes where a session's private key comes from: the key path, the inline
/// key text, both, or neither.
pub fn key_source_label(private_key_path: &str, private_key_inline: &str) -> (res: String)
    ensures
        res@ == key_source_text(private_key_path@, private_key_inline@),
{
    let path = trim(private_key_path);
    let has_inline = !trim(private_key_inline).is_empty();
    if !path.is_empty() && has_inline {
        let mut s = "inline key or ".to_owned();
        s.append(path);
        s
    } else if !path.is_empty() {
        path.to_owned()
    } else if has_inline {
        "inline key text".to_owned()
    } else {
        "unknown key source".to_owned()
    }
}

/// Where a key file lies, before the home directory is looked up.
#[derive(Debug, PartialEq, Eq)]
pub enum KeyPath {
    /// The home directory itself (`~`).
    Home,
    /// A path below the home directory (`~/rest`).
    UnderHome(String),
    /// Any other path, used as it is.
    Plain(String),
}

/// `kp` is how the (trimmed, non-blank) key path `v` is read: `~` alone is the home
/// directory, `~/rest` lies below it, anything else is a plain path.
pub open spec fn reads_as(v: Seq<char>, kp: KeyPath) -> bool {
    match kp {
        KeyPath::Home => v == seq!['~'],
        KeyPath::UnderHome(rest) => v.len() >= 2 && v[0] == '~' && v[1] == '/' && rest@ == v.skip(2),
        KeyPath::Plain(p) => v.len() > 0 && v != seq!['~'] && !(v.len() >= 2 && v[0] == '~' && v[1]
            == '/') && p@ == v,
    }
}

/// Reads the key path of a session: none when it is blank; otherwise `~`, a path
/// under `~/`, or a plain path, after trimming (see `reads_as`).
pub fn key_path(private_key_path: &str) -> (res: Option<KeyPath>)
    ensures
        match res {
            None => trimmed(private_key_path@).len() == 0,
            Some(kp) => reads_as(trimmed(private_key_path@), kp),
        },
{
    let value = trim(private_key_path);
    let cs = chars_of(value);
    let n = cs.len();
    if n == 0 {
        None
    } else if n == 1 && cs[0] == '~' {
        assert(value@ =~= seq!['~']);
        Some(KeyPath::Home)
    } else if n >= 2 && cs[0] == '~' && cs[1] == '/' {
        let rest = value.substring_char(2, n);
        Some(KeyPath::UnderHome(rest.to_owned()))
    } else {
        proof {
            if n == 1 {
                assert(value@ != seq!['~']) by {
                    assert(value@[0] != seq!['~'][0]);
                }
            }
        }
        Some(KeyPath::Plain(value.to_owned()))
    }
}

/// The passphrase a key is decoded with: the trimmed text, or none when blank.
pub open spec fn passphrase_of(p: Seq<char>) -> Option<Seq<char>> {
    if trimmed(p).len() == 0 {
        None
    } else {
        Some(trimmed(p))
    }
}

/// The passphrase to decode a key with (see `passphrase_of`).
pub fn passphrase_option(passphrase: &str) -> (res: Option<&str>)
    ensures
        opt_view(res) == passphrase_of(passphrase@),
{
    let p = trim(passphrase);
    if p.is_empty() {
        None
    } else {
        Some(p)
    }
}

/// The text of an optional string.
pub open spec fn opt_view(p: Option<&str>) -> Option<Seq<char>> {
    match p {
        Some(s) => Some(s@),
        None => None,
    }
}

// ---------------------------------------------------------------------------
// Decoding
// ---------------------------------------------------------------------------

/// The error text russh's `decode_secret_key` gives for the key text `secret`
/// and `password`, or none when the key decodes.
pub uninterp spec fn secret_key_decode_error(secret: Seq<char>, password: Option<Seq<char>>) -> Option<
    Seq<char>,
>;

/// Calls `russh::keys::decode_secret_key`. Trusted: it succeeds exactly when
/// `secret_key_decode_error` names no error, and an error comes back as the text
/// that name gives. Which key comes back is not stated: the key is opaque here.
#[verifier::external_body]
fn decode_secret_key(secret: &str, password: Option<&str>) -> (res: Result<
    russh::keys::PrivateKey,
    String,
>)
    ensures
        res is Ok <==> secret_key_decode_error(secret@, opt_view(password)) is None,
        res matches Err(e) ==> secret_key_decode_error(secret@, opt_view(password)) == Some(e@),
{
    russh::keys::decode_secret_key(secret, password).map_err(|e| e.to_string())
}

/// Decodes a session's inline key text with its passphrase: the text is cleaned up
/// (see `normalized_key`) and the passphrase trimmed (see `passphrase_of`). A
/// failure is reported as `decode private key content: ` and russh's error.
pub fn decode_inline_key(private_key_inline: &str, passphrase: &str) -> (res: Result<
    russh::keys::PrivateKey,
    String,
>)
    ensures
        res is Ok <==> secret_key_decode_error(
            normalized_key(private_key_inline@),
            passphrase_of(passphrase@),
        ) is None,
        res matches Err(m) ==> (secret_key_decode_error(
            normalized_key(private_key_inline@),
            passphrase_of(passphrase@),
        ) matches Some(e) && m@ == "decode private key content: "@ + e),
{
    let key = normalize_inline_private_key(private_key_inline);
    let pass = passphrase_option(passphrase);
    inline_key_outcome(decode_secret_key(key.as_str(), pass))
}

/// What decoding the inline key text gives, from what russh returned: the key, or
/// russh's error after `decode private key content: `.
pub fn inline_key_outcome(decoded: Result<russh::keys::PrivateKey, String>) -> (res: Result<
    russh::keys::PrivateKey,
    String,
>)
    ensures
        match decoded {
            Ok(k) => res == Ok::<russh::keys::PrivateKey, String>(k),
            Err(e) => res matches Err(m) && m@ == "decode private key content: "@ + e@,
        },
{
    match decoded {
        Ok(k) => Ok(k),
        Err(e) => {
            let mut m = "decode private key content: ".to_owned();
            m.append(e.as_str());
            Err(m)
        },
    }
}

/// The pieces of `list` separated by `sep`.
pub open spec fn joined(list: Seq<Seq<char>>, sep: Seq<char>) -> Seq<char>
    decreases list.len(),
{
    if list.len() == 0 {
        seq![]
    } else if list.len() == 1 {
        list[0]
    } else {
        joined(list.drop_last(), sep) + sep + list.last()
    }
}

/// The texts of a list of strings.
pub open spec fn texts(v: Seq<String>) -> Seq<Seq<char>> {
    v.map_values(|s: String| s@)
}

/// The errors met while loading a key, separated by `; `.
pub fn join_errors(errors: &Vec<String>) -> (res: String)
    ensures
        res@ == joined(texts(errors@), "; "@),
{
    let sep = "; ";
    let n = errors.len();
    let mut out = String::new();
    let mut i: usize = 0;
    while i < n
        invariant
            i <= n,
            n == errors@.len(),
            out@ == joined(texts(errors@).take(i as int), sep@),
        decreases n - i,
    {
        let ghost t = texts(errors@).take(i + 1);
        assert(t.drop_last() =~= texts(errors@).take(i as int));
        if i > 0 {
            out.append(sep);
        }
        out.append(errors[i].as_str());
        assert(out@ =~= joined(t, sep@));
        i = i + 1;
    }
    assert(texts(errors@).take(n as int) =~= texts(errors@));
    out
}

/// A key loading error that asks for a passphrase: it mentions `encrypted`,
/// `passphrase` or `decrypt`.
pub open spec fn asks_for_passphrase(err: Seq<char>) -> bool {
    contains_seq(err, "encrypted"@) || contains_seq(err, "passphrase"@) || contains_seq(
        err,
        "decrypt"@,
    )
}

/// Whether a key loading error asks for a passphrase (see `asks_for_passphrase`).
pub fn error_mentions_passphrase(err: &str) -> (res: bool)
    ensures
        res == asks_for_passphrase(err@),
{
    proof {
        reveal_strlit("encrypted");
        reveal_strlit("passphrase");
        reveal_strlit("decrypt");
    }
    let cs = chars_of(err);
    let a = vec!['e', 'n', 'c', 'r', 'y', 'p', 't', 'e', 'd'];
    let b = vec!['p', 'a', 's', 's', 'p', 'h', 'r', 'a', 's', 'e'];
    let c = vec!['d', 'e', 'c', 'r', 'y', 'p', 't'];
    assert(a@ =~= "encrypted"@);
    assert(b@ =~= "passphrase"@);
    assert(c@ =~= "decrypt"@);
    contains_chars(&cs, &a) || contains_chars(&cs, &b) || contains_chars(&cs, &c)
}

// ---------------------------------------------------------------------------
// Hash algorithms
// ---------------------------------------------------------------------------

/// The hash algorithm a key signs with in public key authentication.
#[derive(Clone, Copy, Debug, PartialEq, Eq)]
pub enum HashChoice {
    Sha512,
    Sha256,
    /// No hash algorithm named: legacy `ssh-rsa` for RSA keys, the key's own
    /// algorithm for the others.
    KeyDefault,
}

/// The hash algorithms a key is offered with, in order: an RSA key with SHA-512,
/// SHA-256 and then the legacy algorithm; any other key with its own algorithm.
pub open spec fn hash_choices(is_rsa: bool) -> Seq<HashChoice> {
    if is_rsa {
        seq![HashChoice::Sha512, HashChoice::Sha256, HashChoice::KeyDefault]
    } else {
        seq![HashChoice::KeyDefault]
    }
}

/// The hash algorithms a key is offered with (see `hash_choices`).
pub fn hash_alg_candidates(is_rsa: bool) -> (res: Vec<HashChoice>)
    ensures
        res@ == hash_choices(is_rsa),
{
    if is_rsa {
        vec![HashChoice::Sha512, HashChoice::Sha256, HashChoice::KeyDefault]
    } else {
        vec![HashChoice::KeyDefault]
    }
}

/// Whether a key is an RSA key, as `key.algorithm().is_rsa()` tells.
pub uninterp spec fn rsa_key(key: russh::keys::PrivateKey) -> bool;

/// Calls `algorithm().is_rsa()` on the key. Trusted: the answer is `rsa_key` of
/// the key.
#[verifier::external_body]
fn key_is_rsa(key: &russh::keys::PrivateKey) -> (res: bool)
    ensures
        res == rsa_key(*key),
{
    key.algorithm().is_rsa()
}

/// A key as it is offered for public key authentication: the key paired with a
/// hash algorithm, together with the hash algorithm that was asked for and the
/// key it wraps.
pub struct OfferedKey {
    key: russh::keys::key::PrivateKeyWithHashAlg,
    choice: HashChoice,
    source: Arc<russh::keys::PrivateKey>,
}

impl OfferedKey {
    /// The hash algorithm the key was paired with.
    pub closed spec fn choice(&self) -> HashChoice {
        self.choice
    }

    /// The key that is offered.
    pub closed spec fn source(&self) -> Arc<russh::keys::PrivateKey> {
        self.source
    }

    /// The hash algorithm the key was paired with.
    pub fn hash_choice(&self) -> (res: HashChoice)
        ensures
            res == self.choice(),
    {
        self.choice
    }

    /// The key with its hash algorithm, as russh takes it.
    pub closed spec fn key(&self) -> russh::keys::key::PrivateKeyWithHashAlg {
        self.key
    }

    /// The key with its hash algorithm, as russh takes it.
    pub fn into_key(self) -> (res: russh::keys::key::PrivateKeyWithHashAlg)
        ensures
            res == self.key(),
    {
        self.key
    }
}

/// Calls `PrivateKeyWithHashAlg::new` with the key and the hash algorithm of
/// `choice` (none for `KeyDefault`). Trusted: the result records `choice` and the
/// key it wraps. russh keeps the hash algorithm for an RSA key and drops it for
/// any other key; which of the two applies is not stated, as the key is opaque.
#[verifier::external_body]
fn key_with_hash_alg(key: &Arc<russh::keys::PrivateKey>, choice: HashChoice) -> (res: OfferedKey)
    ensures
        res.choice() == choice,
        res.source() == *key,
{
    let alg = match choice {
        HashChoice::Sha512 => Some(russh::keys::HashAlg::Sha512),
        HashChoice::Sha256 => Some(russh::keys::HashAlg::Sha256),
        HashChoice::KeyDefault => None,
    };
    OfferedKey {
        key: russh::keys::key::PrivateKeyWithHashAlg::new(key.clone(), alg),
        choice,
        source: key.clone(),
    }
}

/// The key offered with each hash algorithm it is tried with, in the order of
/// `hash_choices`: SHA-512, SHA-256 and the legacy algorithm for an RSA key, its
/// own algorithm for any other key. Every element wraps `keypair`.
pub fn private_keys_with_algs(keypair: russh::keys::PrivateKey) -> (res: Vec<OfferedKey>)
    ensures
        res@.map_values(|k: OfferedKey| k.choice()) == hash_choices(rsa_key(keypair)),
        forall|i: int| 0 <= i < res@.len() ==> #[trigger] res@[i].source() == keypair,
{
    let rsa = key_is_rsa(&keypair);
    let ghost kp = keypair;
    let key = Arc::new(keypair);
    let choices = hash_alg_candidates(rsa);
    let n = choices.len();
    let mut res: Vec<OfferedKey> = Vec::new();
    let mut i: usize = 0;
    while i < n
        invariant
            i <= n,
            n == choices@.len(),
            choices@ == hash_choices(rsa),
            key == kp,
            res@.len() == i,
            forall|j: int| 0 <= j < i ==> #[trigger] res@[j].choice() == choices@[j],
            forall|j: int| 0 <= j < i ==> #[trigger] res@[j].source() == kp,
        decreases n - i,
    {
        res.push(key_with_hash_alg(&key, choices[i]));
        i = i + 1;
    }
    assert(res@.map_values(|k: OfferedKey| k.choice()) =~= hash_choices(rsa));
    res
}


// ---------------------------------------------------------------------------
// Loading a session's key
// ---------------------------------------------------------------------------

/// Where loading a session's key stands after the inline key text was tried.
pub enum KeyLoad {
    /// The inline key text decoded.
    Loaded(russh::keys::PrivateKey),
    /// The inline text did not decode; the key file at `path` is to be read next,
    /// with `passphrase`, and `errors` holds what went wrong so far.
    ReadFile { path: KeyPath, passphrase: Option<String>, errors: Vec<String> },
    /// No key could be loaded; the errors, joined.
    Failed(String),
}

/// Starts loading a session's key: the inline key text is decoded first; if that
/// fails and the session names a key path, the key file is to be read next.
pub fn start_key_load(private_key_inline: &str, private_key_path: &str, passphrase: &str) -> (res:
    KeyLoad)
    ensures
        ({
            let err = secret_key_decode_error(
                normalized_key(private_key_inline@),
                passphrase_of(passphrase@),
            );
            let first = "decode private key content: "@ + err->0;
            match res {
                KeyLoad::Loaded(_) => err is None,
                KeyLoad::ReadFile { path, passphrase: p, errors } => err is Some && reads_as(
                    trimmed(private_key_path@),
                    path,
                ) && opt_text_of(p) == passphrase_of(passphrase@) && texts(errors@) == seq![first],
                KeyLoad::Failed(m) => err is Some && trimmed(private_key_path@).len() == 0 && m@
                    == first,
            }
        }),
{
    key_load_after_decode(decode_inline_key(private_key_inline, passphrase), private_key_path, passphrase)
}

/// Where loading a session's key stands once the inline key text was decoded with
/// the result `decoded`: the key when it decoded; otherwise the key file is to be
/// read next when the session names a key path, and loading fails when it names
/// none. The decoding error is the first of the errors.
pub fn key_load_after_decode(
    decoded: Result<russh::keys::PrivateKey, String>,
    private_key_path: &str,
    passphrase: &str,
) -> (res: KeyLoad)
    ensures
        match res {
            KeyLoad::Loaded(k) => decoded == Ok::<russh::keys::PrivateKey, String>(k),
            KeyLoad::ReadFile { path, passphrase: p, errors } => decoded matches Err(e) && reads_as(
                trimmed(private_key_path@),
                path,
            ) && opt_text_of(p) == passphrase_of(passphrase@) && texts(errors@) == seq![e@],
            KeyLoad::Failed(m) => decoded matches Err(e) && trimmed(private_key_path@).len() == 0
                && m@ == e@,
        },
{
    match decoded {
        Ok(k) => KeyLoad::Loaded(k),
        Err(e) => {
            let mut errors: Vec<String> = Vec::new();
            errors.push(e);
            match key_path(private_key_path) {
                Some(path) => {
                    let p = match passphrase_option(passphrase) {
                        Some(s) => Some(s.to_owned()),
                        None => None,
                    };
                    assert(texts(errors@) =~= seq![errors@[0]@]);
                    KeyLoad::ReadFile { path, passphrase: p, errors }
                },
                None => {
                    let m = join_errors(&errors);
                    assert(texts(errors@) =~= seq![errors@[0]@]);
                    KeyLoad::Failed(m)
                },
            }
        },
    }
}

/// The text of an optional string.
pub open spec fn opt_text_of(s: Option<String>) -> Option<Seq<char>> {
    match s {
        Some(x) => Some(x@),
        None => None,
    }
}

/// The error reported when reading the key file at `path` (as shown) failed with
/// `err`.
pub open spec fn load_key_error_text(path: Seq<char>, err: Seq<char>) -> Seq<char> {
    "load key "@ + path + ": "@ + err
}

/// The error reported when reading the key file failed (see `load_key_error_text`).
pub fn load_key_error(path: &str, err: &str) -> (res: String)
    ensures
        res@ == load_key_error_text(path@, err@),
{
    let mut s = "load key ".to_owned();
    s.append(path);
    s.append(": ");
    s.append(err);
    s
}

/// Finishes loading a session's key once the key file was read: `file` is the
/// result of reading it, or `None` when its path could not be resolved (no home
/// directory). A failure adds its error to `errors`, and all errors are joined.
pub fn finish_key_load(
    errors: Vec<String>,
    file: Option<Result<russh::keys::PrivateKey, String>>,
) -> (res: Result<russh::keys::PrivateKey, String>)
    ensures
        match file {
            Some(Ok(k)) => res == Ok::<russh::keys::PrivateKey, String>(k),
            Some(Err(e)) => res matches Err(m) && m@ == joined(texts(errors@).push(e@), "; "@),
            None => res matches Err(m) && m@ == joined(texts(errors@), "; "@),
        },
{
    match file {
        Some(Ok(k)) => Ok(k),
        Some(Err(e)) => {
            let mut all = errors;
            let ghost before = texts(all@);
            let ghost ev = e@;
            all.push(e);
            assert(texts(all@) =~= before.push(ev));
            Err(join_errors(&all))
        },
        None => Err(join_errors(&errors)),
    }
}

} // verus!
