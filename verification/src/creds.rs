//! Credentials remembered per session for the lifetime of the program, so that a
//! passphrase or keyboard-interactive answers are asked for only once.
use vstd::prelude::*;
use vstd::hash_map::StringHashMap;
use crate::keys::texts;

verus! {

/// What has been remembered for one session.
#[derive(Debug, Clone)]
pub struct CachedCreds {
    pub password: Option<String>,
    pub passphrase: Option<String>,
    pub kb_responses: Option<Vec<String>>,
}

/// The remembered password, passphrase and keyboard-interactive answers, as text.
pub type CredsView = (Option<Seq<char>>, Option<Seq<char>>, Option<Seq<Seq<char>>>);

/// The text of an optional string.
pub open spec fn opt_text(s: Option<String>) -> Option<Seq<char>> {
    match s {
        Some(x) => Some(x@),
        None => None,
    }
}

impl View for CachedCreds {
    type V = CredsView;

    open spec fn view(&self) -> CredsView {
        (
            opt_text(self.password),
            opt_text(self.passphrase),
            match self.kb_responses {
                Some(v) => Some(texts(v@)),
                None => None,
            },
        )
    }
}

/// Nothing remembered yet.
pub open spec fn empty_creds() -> CredsView {
    (None, None, None)
}

fn copy_opt_string(s: &Option<String>) -> (res: Option<String>)
    ensures
        opt_text(res) == opt_text(*s),
{
    match s {
        Some(x) => Some(x.clone()),
        None => None,
    }
}

fn copy_strings(v: &Vec<String>) -> (res: Vec<String>)
    ensures
        texts(res@) == texts(v@),
{
    let n = v.len();
    let mut out: Vec<String> = Vec::new();
    let mut i: usize = 0;
    while i < n
        invariant
            i <= n,
            n == v@.len(),
            texts(out@) == texts(v@).take(i as int),
        decreases n - i,
    {
        let s = v[i].clone();
        let ghost before = out@;
        out.push(s);
        assert(texts(out@) =~= texts(before).push(v@[i as int]@));
        assert(texts(v@).take(i + 1) =~= texts(v@).take(i as int).push(v@[i as int]@));
        i = i + 1;
    }
    assert(texts(v@).take(n as int) =~= texts(v@));
    out
}

impl CachedCreds {
    /// Nothing remembered.
    pub fn empty() -> (res: CachedCreds)
        ensures
            res@ == empty_creds(),
    {
        CachedCreds { password: None, passphrase: None, kb_responses: None }
    }

    /// A copy with the same texts.
    pub fn copy(&self) -> (res: CachedCreds)
        ensures
            res@ == self@,
    {
        CachedCreds {
            password: copy_opt_string(&self.password),
            passphrase: copy_opt_string(&self.passphrase),
            kb_responses: match &self.kb_responses {
                Some(v) => Some(copy_strings(v)),
                None => None,
            },
        }
    }
}

/// The entry of session `id` in `m`, or an empty one.
pub open spec fn entry_or_empty(m: Map<Seq<char>, CredsView>, id: Seq<char>) -> CredsView {
    if m.contains_key(id) {
        m[id]
    } else {
        empty_creds()
    }
}

/// `m` after remembering passphrase `p` for session `id`.
pub open spec fn with_passphrase(m: Map<Seq<char>, CredsView>, id: Seq<char>, p: Seq<char>) -> Map<
    Seq<char>,
    CredsView,
> {
    let e = entry_or_empty(m, id);
    m.insert(id, (e.0, Some(p), e.2))
}

/// `m` after remembering keyboard-interactive answers `r` for session `id`.
pub open spec fn with_kb_responses(
    m: Map<Seq<char>, CredsView>,
    id: Seq<char>,
    r: Seq<Seq<char>>,
) -> Map<Seq<char>, CredsView> {
    let e = entry_or_empty(m, id);
    m.insert(id, (e.0, e.1, Some(r)))
}

/// The passphrase `m` remembers for session `id`.
pub open spec fn passphrase_in(m: Map<Seq<char>, CredsView>, id: Seq<char>) -> Option<Seq<char>> {
    entry_or_empty(m, id).1
}

/// The keyboard-interactive answers `m` remembers for session `id`.
pub open spec fn kb_responses_in(m: Map<Seq<char>, CredsView>, id: Seq<char>) -> Option<
    Seq<Seq<char>>,
> {
    entry_or_empty(m, id).2
}

/// A remembered passphrase is what a later lookup of that session gives back.
pub proof fn law_passphrase_read_after_write(m: Map<Seq<char>, CredsView>, id: Seq<char>, p: Seq<char>)
    ensures
        passphrase_in(with_passphrase(m, id, p), id) == Some(p),
        kb_responses_in(with_passphrase(m, id, p), id) == kb_responses_in(m, id),
{
}

/// Remembered keyboard-interactive answers are what a later lookup of that
/// session gives back, and its passphrase stays as it was.
pub proof fn law_kb_responses_read_after_write(
    m: Map<Seq<char>, CredsView>,
    id: Seq<char>,
    r: Seq<Seq<char>>,
)
    ensures
        kb_responses_in(with_kb_responses(m, id, r), id) == Some(r),
        passphrase_in(with_kb_responses(m, id, r), id) == passphrase_in(m, id),
{
}

/// Remembering something for one session leaves every other session's entry as it was.
pub proof fn law_other_sessions_unchanged(
    m: Map<Seq<char>, CredsView>,
    id: Seq<char>,
    other: Seq<char>,
    p: Seq<char>,
    r: Seq<Seq<char>>,
)
    requires
        other != id,
    ensures
        with_passphrase(m, id, p).contains_key(other) == m.contains_key(other),
        with_kb_responses(m, id, r).contains_key(other) == m.contains_key(other),
        entry_or_empty(with_passphrase(m, id, p), other) == entry_or_empty(m, other),
        entry_or_empty(with_kb_responses(m, id, r), other) == entry_or_empty(m, other),
{
}

/// The credentials remembered for each session, by session id.
pub struct CredentialCache {
    map: StringHashMap<CachedCreds>,
}

impl View for CredentialCache {
    type V = Map<Seq<char>, CredsView>;

    closed spec fn view(&self) -> Map<Seq<char>, CredsView> {
        self.map@.map_values(|c: CachedCreds| c@)
    }
}

impl CredentialCache {
    /// An empty cache.
    pub fn new() -> (res: CredentialCache)
        ensures
            res@ == Map::<Seq<char>, CredsView>::empty(),
    {
        let res = CredentialCache { map: StringHashMap::new() };
        assert(res@ =~= Map::<Seq<char>, CredsView>::empty());
        res
    }

    /// What is remembered for session `id`.
    pub fn get(&self, id: &str) -> (res: Option<CachedCreds>)
        ensures
            match res {
                Some(c) => self@.contains_key(id@) && c@ == self@[id@],
                None => !self@.contains_key(id@),
            },
    {
        match self.map.get(id) {
            Some(c) => Some(c.copy()),
            None => None,
        }
    }

    /// The passphrase remembered for session `id`, if any.
    pub fn cached_passphrase(&self, id: &str) -> (res: Option<String>)
        ensures
            opt_text(res) == passphrase_in(self@, id@),
    {
        match self.get(id) {
            Some(c) => c.passphrase,
            None => None,
        }
    }

    /// The keyboard-interactive answers remembered for session `id`, if any.
    pub fn cached_kb_responses(&self, id: &str) -> (res: Option<Vec<String>>)
        ensures
            match res {
                Some(v) => kb_responses_in(self@, id@) == Some(texts(v@)),
                None => kb_responses_in(self@, id@) is None,
            },
    {
        match self.get(id) {
            Some(c) => c.kb_responses,
            None => None,
        }
    }

    /// Replaces (or adds) the entry of session `id`.
    fn put(&mut self, id: &str, creds: CachedCreds)
        ensures
            final(self)@ == old(self)@.insert(id@, creds@),
    {
        let ghost before = self.map@;
        let ghost cv = creds@;
        self.map.insert(id.to_owned(), creds);
        assert(self.map@.map_values(|c: CachedCreds| c@) =~= before.map_values(
            |c: CachedCreds| c@,
        ).insert(id@, cv));
    }

    /// Remembers passphrase `p` for session `id`, keeping the rest of its entry.
    pub fn remember_passphrase(&mut self, id: &str, p: String)
        ensures
            final(self)@ == with_passphrase(old(self)@, id@, p@),
    {
        let mut c = match self.get(id) {
            Some(c) => c,
            None => CachedCreds::empty(),
        };
        c.passphrase = Some(p);
        self.put(id, c);
    }

    /// Remembers keyboard-interactive answers `r` for session `id`, keeping the rest
    /// of its entry.
    pub fn remember_kb_responses(&mut self, id: &str, r: Vec<String>)
        ensures
            final(self)@ == with_kb_responses(old(self)@, id@, texts(r@)),
    {
        let mut c = match self.get(id) {
            Some(c) => c,
            None => CachedCreds::empty(),
        };
        c.kb_responses = Some(r);
        self.put(id, c);
    }
}

} // verus!
