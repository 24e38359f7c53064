//! Character-level text helpers: Unicode whitespace, trimming, searching and
//! replacing, and building strings out of pieces.
use vstd::prelude::*;

verus! {

/// The characters of `s`, in order.
pub fn chars_of(s: &str) -> (res: Vec<char>)
    ensures
        res@ == s@,
{
    let mut v: Vec<char> = Vec::new();
    for c in iter: s.chars()
        invariant
            v@ == iter.seq().take(iter.index() as int),
    {
        v.push(c);
    }
    v
}

/// A character with the Unicode `White_Space` property.
pub open spec fn is_whitespace(c: char) -> bool {
    let x = c as u32;
    ||| 0x9 <= x <= 0xD
    ||| x == 0x20
    ||| x == 0x85
    ||| x == 0xA0
    ||| x == 0x1680
    ||| 0x2000 <= x <= 0x200A
    ||| x == 0x2028
    ||| x == 0x2029
    ||| x == 0x202F
    ||| x == 0x205F
    ||| x == 0x3000
}

/// Whether `c` is Unicode whitespace.
pub fn whitespace(c: char) -> (res: bool)
    ensures
        res == is_whitespace(c),
{
    let x = c as u32;
    (0x9 <= x && x <= 0xD) || x == 0x20 || x == 0x85 || x == 0xA0 || x == 0x1680 || (0x2000 <= x
        && x <= 0x200A) || x == 0x2028 || x == 0x2029 || x == 0x202F || x == 0x205F || x == 0x3000
}

/// Index of the first character at or after `i` that is not whitespace (or `s.len()`).
pub open spec fn skip_ws_forward(s: Seq<char>, i: int) -> int
    decreases s.len() - i,
{
    if 0 <= i < s.len() && is_whitespace(s[i]) {
        skip_ws_forward(s, i + 1)
    } else {
        i
    }
}

/// One past the last character before `j` that is not whitespace (or 0).
pub open spec fn skip_ws_backward(s: Seq<char>, j: int) -> int
    decreases j,
{
    if 0 < j <= s.len() && is_whitespace(s[j - 1]) {
        skip_ws_backward(s, j - 1)
    } else {
        j
    }
}

/// `s` without its leading and trailing whitespace.
pub open spec fn trimmed(s: Seq<char>) -> Seq<char> {
    let a = skip_ws_forward(s, 0);
    let b = skip_ws_backward(s, s.len() as int);
    if a < b {
        s.subrange(a, b)
    } else {
        seq![]
    }
}

proof fn lemma_skip_forward(s: Seq<char>, i: int, j: int)
    requires
        0 <= i <= j <= s.len(),
        forall|x: int| i <= x < j ==> is_whitespace(s[x]),
        j == s.len() || !is_whitespace(s[j]),
    ensures
        skip_ws_forward(s, i) == j,
    decreases j - i,
{
    if i < j {
        lemma_skip_forward(s, i + 1, j);
    }
}

proof fn lemma_skip_backward(s: Seq<char>, i: int, j: int)
    requires
        0 <= i <= j <= s.len(),
        forall|x: int| i <= x < j ==> is_whitespace(s[x]),
        i == 0 || !is_whitespace(s[i - 1]),
    ensures
        skip_ws_backward(s, j) == i,
    decreases j - i,
{
    if i < j {
        lemma_skip_backward(s, i, j - 1);
    }
}

/// `s` with leading and trailing whitespace removed.
pub fn trim(s: &str) -> (res: &str)
    ensures
        res@ == trimmed(s@),
{
    let cs = chars_of(s);
    let n = cs.len();
    let mut a: usize = 0;
    while a < n && whitespace(cs[a])
        invariant
            a <= n,
            n == s@.len(),
            cs@ == s@,
            forall|x: int| 0 <= x < a ==> is_whitespace(s@[x]),
        decreases n - a,
    {
        a = a + 1;
    }
    proof {
        lemma_skip_forward(s@, 0, a as int);
    }
    let mut b: usize = n;
    while b > a && whitespace(cs[b - 1])
        invariant
            a <= b <= n,
            n == s@.len(),
            cs@ == s@,
            forall|x: int| b <= x < n ==> is_whitespace(s@[x]),
        decreases b,
    {
        b = b - 1;
    }
    proof {
        if b > a {
            lemma_skip_backward(s@, b as int, n as int);
        } else {
            // everything from `a` on is whitespace, so the backward scan stops at or before `a`
            lemma_skip_backward_le(s@, a as int, n as int);
        }
    }
    s.substring_char(a, b)
}

proof fn lemma_skip_backward_le(s: Seq<char>, a: int, j: int)
    requires
        0 <= a <= j <= s.len(),
        forall|x: int| a <= x < j ==> is_whitespace(s[x]),
    ensures
        skip_ws_backward(s, j) <= a,
    decreases j - a,
{
    if a < j {
        lemma_skip_backward_le(s, a, j - 1);
    } else {
        lemma_skip_backward_bounded(s, j);
    }
}

proof fn lemma_skip_backward_bounded(s: Seq<char>, j: int)
    requires
        0 <= j,
    ensures
        skip_ws_backward(s, j) <= j,
    decreases j,
{
    if 0 < j <= s.len() && is_whitespace(s[j - 1]) {
        lemma_skip_backward_bounded(s, j - 1);
    }
}

/// `pat` occurs in `s` at `i`.
pub open spec fn occurs_at(s: Seq<char>, pat: Seq<char>, i: int) -> bool {
    0 <= i && i + pat.len() <= s.len() && s.subrange(i, i + pat.len()) == pat
}

/// `pat` occurs somewhere in `s`.
pub open spec fn contains_seq(s: Seq<char>, pat: Seq<char>) -> bool {
    exists|i: int| occurs_at(s, pat, i)
}

/// Every non-overlapping occurrence of `pat` in `s`, taken from left to right,
/// replaced by `rep`.
pub open spec fn replace_all(s: Seq<char>, pat: Seq<char>, rep: Seq<char>) -> Seq<char>
    decreases s.len(),
{
    if s.len() == 0 {
        seq![]
    } else if pat.len() > 0 && occurs_at(s, pat, 0) {
        rep + replace_all(s.skip(pat.len() as int), pat, rep)
    } else {
        seq![s[0]] + replace_all(s.drop_first(), pat, rep)
    }
}

fn occurs_at_exec(s: &Vec<char>, pat: &Vec<char>, i: usize) -> (res: bool)
    requires
        i <= s@.len(),
    ensures
        res == occurs_at(s@, pat@, i as int),
{
    let m = pat.len();
    let n = s.len();
    if m > n - i {
        return false;
    }
    let mut j: usize = 0;
    while j < m
        invariant
            j <= m,
            m == pat@.len(),
            n == s@.len(),
            i + m <= n,
            forall|t: int| 0 <= t < j ==> s@[i + t] == pat@[t],
        decreases m - j,
    {
        if s[i + j] != pat[j] {
            assert(s@.subrange(i as int, i + m)[j as int] != pat@[j as int]);
            return false;
        }
        j = j + 1;
    }
    assert(s@.subrange(i as int, i + m) =~= pat@);
    true
}

/// Whether `pat` occurs in `s`.
pub fn contains_chars(s: &Vec<char>, pat: &Vec<char>) -> (res: bool)
    ensures
        res == contains_seq(s@, pat@),
{
    let n = s.len();
    let mut i: usize = 0;
    loop
        invariant
            i <= n,
            n == s@.len(),
            forall|x: int| 0 <= x < i ==> !occurs_at(s@, pat@, x),
        decreases n - i,
    {
        if occurs_at_exec(s, pat, i) {
            return true;
        }
        if i == n {
            assert forall|x: int| !occurs_at(s@, pat@, x) by {
                if x > n as int {
                    assert(!(x + pat@.len() <= s@.len()));
                }
            }
            return false;
        }
        i = i + 1;
    }
}

proof fn lemma_replace_step(s: Seq<char>, pat: Seq<char>, rep: Seq<char>, i: int)
    requires
        0 <= i < s.len(),
    ensures
        pat.len() > 0 && occurs_at(s, pat, i) ==> replace_all(s.skip(i), pat, rep) == rep
            + replace_all(s.skip(i + pat.len()), pat, rep),
        !(pat.len() > 0 && occurs_at(s, pat, i)) ==> replace_all(s.skip(i), pat, rep) == seq![
            s[i],
        ] + replace_all(s.skip(i + 1), pat, rep),
{
    let t = s.skip(i);
    assert(occurs_at(s, pat, i) == occurs_at(t, pat, 0)) by {
        if i + pat.len() <= s.len() {
            assert(s.subrange(i, i + pat.len()) =~= t.subrange(0, pat.len() as int));
        }
    }
    if i + pat.len() <= s.len() {
        assert(t.skip(pat.len() as int) =~= s.skip(i + pat.len()));
    }
    assert(t.drop_first() =~= s.skip(i + 1));
}

/// `s` with every non-overlapping occurrence of `pat`, left to right, replaced by `rep`.
pub fn replace_chars(s: &str, pat: &Vec<char>, rep: &str) -> (res: String)
    requires
        pat@.len() > 0,
    ensures
        res@ == replace_all(s@, pat@, rep@),
{
    let cs = chars_of(s);
    let n = cs.len();
    let m = pat.len();
    let mut out = String::new();
    let mut run: usize = 0;
    let mut i: usize = 0;
    assert(s@.skip(0) =~= s@);
    assert(out@ + s@.subrange(0, 0) =~= seq![]);
    while i < n
        invariant
            run <= i <= n,
            n == s@.len(),
            cs@ == s@,
            m == pat@.len(),
            m > 0,
            out@ + s@.subrange(run as int, i as int) + replace_all(s@.skip(i as int), pat@, rep@)
                == replace_all(s@, pat@, rep@),
        decreases n - i,
    {
        let ghost before = out@;
        proof {
            lemma_replace_step(s@, pat@, rep@, i as int);
        }
        if occurs_at_exec(&cs, pat, i) {
            let piece = s.substring_char(run, i);
            out.append(piece);
            out.append(rep);
            assert(out@ + s@.subrange((i + m) as int, (i + m) as int) + replace_all(
                s@.skip(i + m),
                pat@,
                rep@,
            ) =~= before + s@.subrange(run as int, i as int) + replace_all(
                s@.skip(i as int),
                pat@,
                rep@,
            ));
            i = i + m;
            run = i;
        } else {
            assert(s@.subrange(run as int, i + 1) =~= s@.subrange(run as int, i as int).push(
                s@[i as int],
            ));
            assert(out@ + s@.subrange(run as int, i + 1) + replace_all(s@.skip(i + 1), pat@, rep@)
                =~= out@ + s@.subrange(run as int, i as int) + replace_all(
                s@.skip(i as int),
                pat@,
                rep@,
            ));
            i = i + 1;
        }
    }
    let piece = s.substring_char(run, n);
    out.append(piece);
    assert(s@.skip(n as int) =~= seq![]);
    assert(out@ =~= replace_all(s@, pat@, rep@));
    out
}

} // verus!
