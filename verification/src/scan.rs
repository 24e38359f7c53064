//! Scanners that find the highlightable pieces of one line of terminal text:
//! whole-word keywords, dotted IPv4 addresses, URLs and `:port` numbers.
//!
//! All positions and lengths are byte offsets into the UTF-8 encoding of the text.
use vstd::prelude::*;
use vstd::string::StringSliceAdditionalSpecFns;

verus! {

// ---------------------------------------------------------------------------
// Byte classes
// ---------------------------------------------------------------------------

/// `c` is neither an ASCII letter, an ASCII digit nor `_`.
pub open spec fn spec_is_boundary(c: char) -> bool {
    !(('0' <= c && c <= '9') || ('a' <= c && c <= 'z') || ('A' <= c && c <= 'Z')) && c != '_'
}

/// An ASCII digit byte.
pub open spec fn is_digit(x: u8) -> bool {
    48 <= x <= 57
}

/// A byte that separates words: not an ASCII letter, not an ASCII digit, not `_`.
pub open spec fn is_boundary_byte(x: u8) -> bool {
    !(is_digit(x) || (97 <= x <= 122) || (65 <= x <= 90)) && x != 95
}

/// An ASCII whitespace byte: space, tab, line feed, form feed or carriage return.
pub open spec fn is_ascii_ws(x: u8) -> bool {
    x == 32 || x == 9 || x == 10 || x == 12 || x == 13
}

/// Whether `c` may end or start a highlighted word.
pub fn is_boundary(c: char) -> (res: bool)
    ensures
        res == spec_is_boundary(c),
{
    !(('0' <= c && c <= '9') || ('a' <= c && c <= 'z') || ('A' <= c && c <= 'Z')) && c != '_'
}

fn digit_byte(x: u8) -> (res: bool)
    ensures
        res == is_digit(x),
{
    48 <= x && x <= 57
}

fn boundary_byte(x: u8) -> (res: bool)
    ensures
        res == is_boundary_byte(x),
{
    let r = is_boundary(x as char);
    assert(r == is_boundary_byte(x));
    r
}

// ---------------------------------------------------------------------------
// Generic helpers
// ---------------------------------------------------------------------------

/// The positions `i` with `lo <= i < n` that satisfy `p`, in increasing order.
pub open spec fn positions_from(n: int, lo: int, p: spec_fn(int) -> bool) -> Seq<int>
    decreases n - lo,
{
    if lo >= n {
        seq![]
    } else if p(lo) {
        seq![lo] + positions_from(n, lo + 1, p)
    } else {
        positions_from(n, lo + 1, p)
    }
}

/// A sequence of machine indices read as integers.
pub open spec fn as_ints(v: Seq<usize>) -> Seq<int> {
    v.map_values(|x: usize| x as int)
}

/// A sequence whose elements strictly increase.
pub open spec fn strictly_increasing(s: Seq<int>) -> bool {
    forall|a: int, b: int| 0 <= a < b < s.len() ==> s[a] < s[b]
}

/// Exactly the positions in `[lo, n)` that satisfy `p` occur in `positions_from(n, lo, p)`,
/// in strictly increasing order.
pub proof fn lemma_positions_from(n: int, lo: int, p: spec_fn(int) -> bool)
    ensures
        forall|x: int| positions_from(n, lo, p).contains(x) <==> (lo <= x < n && p(x)),
        strictly_increasing(positions_from(n, lo, p)),
        forall|j: int| 0 <= j < positions_from(n, lo, p).len() ==> lo <= #[trigger] positions_from(n, lo, p)[j],
    decreases n - lo,
{
    if lo < n {
        lemma_positions_from(n, lo + 1, p);
        let rest = positions_from(n, lo + 1, p);
        if p(lo) {
            let s = seq![lo] + rest;
            assert forall|x: int| s.contains(x) <==> (lo <= x < n && p(x)) by {
                if s.contains(x) {
                    let j = choose|j: int| 0 <= j < s.len() && s[j] == x;
                    if j > 0 {
                        assert(rest[j - 1] == x);
                        assert(rest.contains(x));
                    }
                }
                if lo <= x < n && p(x) {
                    if x == lo {
                        assert(s[0] == x);
                    } else {
                        assert(rest.contains(x));
                        let j = choose|j: int| 0 <= j < rest.len() && rest[j] == x;
                        assert(s[j + 1] == x);
                    }
                }
            }
            assert forall|a: int, b: int| 0 <= a < b < s.len() implies s[a] < s[b] by {
                if a > 0 {
                    assert(rest[a - 1] < rest[b - 1]);
                } else {
                    assert(lo + 1 <= rest[b - 1]);
                }
            }
        }
    }
}

proof fn lemma_as_ints_push(v: Seq<usize>, x: usize)
    ensures
        as_ints(v.push(x)) == as_ints(v).push(x as int),
{
    assert(as_ints(v.push(x)) =~= as_ints(v).push(x as int));
}

/// Index of the first byte at or after `i` that is not an ASCII digit (or `s.len()`).
pub open spec fn digit_end(s: Seq<u8>, i: int) -> int
    decreases s.len() - i,
{
    if 0 <= i < s.len() && is_digit(s[i]) {
        digit_end(s, i + 1)
    } else {
        i
    }
}

/// The decimal value of a string of digit bytes.
pub open spec fn dec_value(s: Seq<u8>) -> nat
    decreases s.len(),
{
    if s.len() == 0 {
        0
    } else {
        dec_value(s.drop_last()) * 10 + ((s.last() - 48) as nat)
    }
}

proof fn lemma_digit_end(s: Seq<u8>, i: int, j: int)
    requires
        0 <= i <= j <= s.len(),
        forall|t: int| i <= t < j ==> is_digit(s[t]),
        j == s.len() || !is_digit(s[j]),
    ensures
        digit_end(s, i) == j,
    decreases j - i,
{
    if i < j {
        lemma_digit_end(s, i + 1, j);
    }
}

proof fn lemma_digit_end_bounds(s: Seq<u8>, i: int)
    requires
        0 <= i <= s.len(),
    ensures
        i <= digit_end(s, i) <= s.len(),
        forall|t: int| i <= t < digit_end(s, i) ==> is_digit(s[t]),
        digit_end(s, i) == s.len() || !is_digit(s[digit_end(s, i)]),
    decreases s.len() - i,
{
    if i < s.len() && is_digit(s[i]) {
        lemma_digit_end_bounds(s, i + 1);
    }
}

/// Scans the digits of `s` from `start`; returns where the digits end and the
/// value of the digits, capped at `cap + 1`.
fn scan_digits(s: &[u8], start: usize, cap: u32) -> (res: (usize, u32))
    requires
        start <= s@.len(),
        cap < 100_000_000,
    ensures
        res.0 == digit_end(s@, start as int),
        res.1 == if dec_value(s@.subrange(start as int, res.0 as int)) > cap {
            (cap + 1) as nat
        } else {
            dec_value(s@.subrange(start as int, res.0 as int))
        },
{
    let n = s.len();
    let mut j = start;
    let mut v: u32 = 0;
    while j < n && digit_byte(s[j])
        invariant
            start <= j <= n,
            n == s@.len(),
            cap < 100_000_000,
            forall|t: int| start <= t < j ==> is_digit(s@[t]),
            v == if dec_value(s@.subrange(start as int, j as int)) > cap {
                (cap + 1) as nat
            } else {
                dec_value(s@.subrange(start as int, j as int))
            },
        decreases n - j,
    {
        let ghost old_sub = s@.subrange(start as int, j as int);
        let d = (s[j] - 48) as u32;
        assert(s@.subrange(start as int, j + 1).drop_last() =~= old_sub);
        let nv = v * 10 + d;
        if nv > cap {
            v = cap + 1;
        } else {
            v = nv;
        }
        j = j + 1;
    }
    proof {
        lemma_digit_end(s@, start as int, j as int);
    }
    (j, v)
}

// ---------------------------------------------------------------------------
// Keywords
// ---------------------------------------------------------------------------

/// `k` occurs in `s` at byte `i`.
pub open spec fn matches_at(s: Seq<u8>, k: Seq<u8>, i: int) -> bool {
    0 <= i && i + k.len() <= s.len() && forall|j: int| 0 <= j < k.len() ==> s[i + j] == k[j]
}

/// The occurrence of `k` at `i` is a whole word: the byte before it and the
/// byte after it (where they exist) are boundaries.
pub open spec fn keyword_bounded(s: Seq<u8>, k: Seq<u8>, i: int) -> bool {
    &&& (i == 0 || is_boundary_byte(s[i - 1]))
    &&& (i + k.len() >= s.len() || is_boundary_byte(s[i + k.len()]))
}

/// Searching `s` for `k` from `i` on, left to right, each search resuming just
/// after the previous occurrence: the occurrences that stand as whole words.
pub open spec fn keyword_scan(s: Seq<u8>, k: Seq<u8>, i: int) -> Seq<int>
    decreases s.len() - i,
{
    if k.len() == 0 || i < 0 || i + k.len() > s.len() {
        seq![]
    } else if matches_at(s, k, i) {
        if keyword_bounded(s, k, i) {
            seq![i] + keyword_scan(s, k, i + k.len())
        } else {
            keyword_scan(s, k, i + k.len())
        }
    } else {
        keyword_scan(s, k, i + 1)
    }
}

/// Every reported keyword position is a whole-word occurrence, and the occurrences
/// neither overlap nor come out of order.
pub proof fn lemma_keyword_scan(s: Seq<u8>, k: Seq<u8>, i: int)
    requires
        k.len() > 0,
        i >= 0,
    ensures
        forall|j: int|
            0 <= j < keyword_scan(s, k, i).len() ==> {
                &&& i <= #[trigger] keyword_scan(s, k, i)[j]
                &&& matches_at(s, k, keyword_scan(s, k, i)[j])
                &&& keyword_bounded(s, k, keyword_scan(s, k, i)[j])
            },
        forall|a: int, b: int|
            0 <= a < b < keyword_scan(s, k, i).len() ==> keyword_scan(s, k, i)[a] + k.len()
                <= keyword_scan(s, k, i)[b],
    decreases s.len() - i,
{
    if i + k.len() > s.len() {
    } else if matches_at(s, k, i) {
        lemma_keyword_scan(s, k, i + k.len());
        let rest = keyword_scan(s, k, i + k.len());
        if keyword_bounded(s, k, i) {
            let r = seq![i] + rest;
            assert(keyword_scan(s, k, i) == r);
            assert forall|a: int, b: int| 0 <= a < b < r.len() implies r[a] + k.len() <= r[b] by {
                if a > 0 {
                    assert(r[a] == rest[a - 1]);
                    assert(r[b] == rest[b - 1]);
                } else {
                    assert(r[b] == rest[b - 1]);
                }
            }
            assert forall|j: int| 0 <= j < r.len() implies {
                &&& i <= #[trigger] r[j]
                &&& matches_at(s, k, r[j])
                &&& keyword_bounded(s, k, r[j])
            } by {
                if j > 0 {
                    assert(r[j] == rest[j - 1]);
                }
            }
        }
    } else {
        lemma_keyword_scan(s, k, i + 1);
        assert(keyword_scan(s, k, i) == keyword_scan(s, k, i + 1));
    }
}

fn match_at(s: &[u8], k: &[u8], i: usize) -> (res: bool)
    requires
        i + k@.len() <= s@.len(),
    ensures
        res == matches_at(s@, k@, i as int),
{
    let m = k.len();
    let n = s.len();
    let mut j: usize = 0;
    while j < m
        invariant
            j <= m,
            m == k@.len(),
            n == s@.len(),
            i + m <= n,
            forall|t: int| 0 <= t < j ==> s@[i + t] == k@[t],
        decreases m - j,
    {
        if s[i + j] != k[j] {
            return false;
        }
        j = j + 1;
    }
    true
}

/// The whole-word occurrences of the keyword bytes `k` in the bytes `s`.
pub fn keyword_positions(s: &[u8], k: &[u8]) -> (res: Vec<usize>)
    requires
        k@.len() > 0,
    ensures
        as_ints(res@) == keyword_scan(s@, k@, 0),
{
    let n = s.len();
    let m = k.len();
    let mut res: Vec<usize> = Vec::new();
    let mut i: usize = 0;
    while m <= n - i
        invariant
            i <= n,
            n == s@.len(),
            m == k@.len(),
            m > 0,
            as_ints(res@) + keyword_scan(s@, k@, i as int) == keyword_scan(s@, k@, 0),
        decreases n - i,
    {
        let ghost before = as_ints(res@);
        if match_at(s, k, i) {
            let before_ok = i == 0 || boundary_byte(s[i - 1]);
            let after_ok = i + m >= n || boundary_byte(s[i + m]);
            if before_ok && after_ok {
                proof {
                    lemma_as_ints_push(res@, i);
                    assert(before + keyword_scan(s@, k@, i as int) =~= before.push(i as int)
                        + keyword_scan(s@, k@, i + m));
                }
                res.push(i);
            }
            i = i + m;
        } else {
            i = i + 1;
        }
    }
    assert(as_ints(res@) + keyword_scan(s@, k@, i as int) =~= as_ints(res@));
    res
}

proof fn lemma_encode_nonempty(cs: Seq<char>)
    requires
        cs.len() > 0,
    ensures
        vstd::utf8::encode_utf8(cs).len() > 0,
{
    assert(vstd::utf8::encode_utf8(cs) == vstd::utf8::encode_scalar(cs[0] as u32)
        + vstd::utf8::encode_utf8(cs.drop_first()));
}

/// Byte offsets of the whole-word occurrences of `keyword` in `text`, found left
/// to right with each search resuming after the previous occurrence.
pub fn find_keyword(text: &str, keyword: &str) -> (res: Vec<usize>)
    requires
        keyword@.len() > 0,
    ensures
        as_ints(res@) == keyword_scan(text.spec_bytes(), keyword.spec_bytes(), 0),
{
    proof {
        lemma_encode_nonempty(keyword@);
    }
    keyword_positions(text.as_bytes(), keyword.as_bytes())
}


// ---------------------------------------------------------------------------
// IPv4 addresses
// ---------------------------------------------------------------------------

/// A byte that may occur in a dotted IPv4 address: a digit or `.`.
pub open spec fn is_ip_byte(x: u8) -> bool {
    is_digit(x) || x == 46
}

/// Index of the first byte at or after `i` that cannot occur in an address (or `s.len()`).
pub open spec fn ip_run_end(s: Seq<u8>, i: int) -> int
    decreases s.len() - i,
{
    if 0 <= i < s.len() && is_ip_byte(s[i]) {
        ip_run_end(s, i + 1)
    } else {
        i
    }
}

/// The number of `.` bytes in `t`.
pub open spec fn count_dots(t: Seq<u8>) -> nat
    decreases t.len(),
{
    if t.len() == 0 {
        0
    } else {
        count_dots(t.drop_last()) + if t.last() == 46 { 1nat } else { 0nat }
    }
}

/// The number of digit bytes at the end of `t`.
pub open spec fn trailing_digits(t: Seq<u8>) -> nat
    decreases t.len(),
{
    if t.len() == 0 || !is_digit(t.last()) {
        0
    } else {
        trailing_digits(t.drop_last()) + 1
    }
}

/// `t` (made of digits and dots) has the shape `d.d.d.d`, each `d` one to three digits.
pub open spec fn dotted_quad(t: Seq<u8>) -> bool {
    &&& t.len() > 0
    &&& is_digit(t[0])
    &&& is_digit(t.last())
    &&& count_dots(t) == 3
    &&& forall|j: int| 0 <= j && j + 1 < t.len() ==> !(t[j] == 46 && #[trigger] t[j + 1] == 46)
    &&& forall|j: int|
        0 <= j && j + 3 < t.len() ==> !(is_digit(t[j]) && is_digit(t[j + 1]) && is_digit(t[j + 2])
            && is_digit(#[trigger] t[j + 3]))
}

/// The length of the address at the start of `s`: the run of digits and dots that
/// starts `s`, when that run has the shape `d.d.d.d`; otherwise 0.
pub open spec fn ip_len_of(s: Seq<u8>) -> int {
    let p = ip_run_end(s, 0);
    if dotted_quad(s.take(p)) {
        p
    } else {
        0
    }
}

proof fn lemma_ip_run_end_at_least(s: Seq<u8>, i: int, j: int)
    requires
        0 <= i <= j <= s.len(),
        forall|t: int| i <= t < j ==> is_ip_byte(s[t]),
    ensures
        ip_run_end(s, i) >= j,
        ip_run_end(s, i) <= s.len(),
    decreases j - i,
{
    if i < j {
        lemma_ip_run_end_at_least(s, i + 1, j);
    } else {
        lemma_ip_run_end_bounded(s, i);
    }
}

proof fn lemma_ip_run_end_bounded(s: Seq<u8>, i: int)
    requires
        0 <= i <= s.len(),
    ensures
        i <= ip_run_end(s, i) <= s.len(),
    decreases s.len() - i,
{
    if i < s.len() && is_ip_byte(s[i]) {
        lemma_ip_run_end_bounded(s, i + 1);
    }
}

proof fn lemma_ip_run_end_exact(s: Seq<u8>, i: int, j: int)
    requires
        0 <= i <= j <= s.len(),
        forall|t: int| i <= t < j ==> is_ip_byte(s[t]),
        j == s.len() || !is_ip_byte(s[j]),
    ensures
        ip_run_end(s, i) == j,
    decreases j - i,
{
    if i < j {
        lemma_ip_run_end_exact(s, i + 1, j);
    }
}

proof fn lemma_count_dots_mono(s: Seq<u8>, a: int, b: int)
    requires
        0 <= a <= b <= s.len(),
    ensures
        count_dots(s.take(a)) <= count_dots(s.take(b)),
    decreases b - a,
{
    if a < b {
        lemma_count_dots_mono(s, a, b - 1);
        assert(s.take(b).drop_last() =~= s.take(b - 1));
    }
}

proof fn lemma_trailing_digits(t: Seq<u8>)
    ensures
        trailing_digits(t) <= t.len(),
        forall|x: int| t.len() - trailing_digits(t) <= x < t.len() ==> is_digit(#[trigger] t[x]),
        trailing_digits(t) < t.len() ==> !is_digit(t[t.len() - 1 - trailing_digits(t)]),
    decreases t.len(),
{
    if t.len() > 0 && is_digit(t.last()) {
        let u = t.drop_last();
        lemma_trailing_digits(u);
        assert forall|x: int| t.len() - trailing_digits(t) <= x < t.len() implies is_digit(
            #[trigger] t[x],
        ) by {
            if x < t.len() - 1 {
                assert(t[x] == u[x]);
            }
        }
        if trailing_digits(t) < t.len() {
            assert(t[t.len() - 1 - trailing_digits(t)] == u[u.len() - 1 - trailing_digits(u)]);
        }
    }
}

/// Length of the dotted address at byte `start` of `s` (see `ip_len_of`).
pub fn ip_len_at(s: &[u8], start: usize) -> (res: usize)
    requires
        start <= s@.len(),
    ensures
        res == ip_len_of(s@.skip(start as int)),
        start + res <= s@.len(),
{
    let ghost t = s@.skip(start as int);
    let n = s.len();
    let mut dots: u8 = 0;
    let mut digits: u8 = 0;
    let mut len: usize = 0;
    while start + len < n && (digit_byte(s[start + len]) || s[start + len] == 46)
        invariant
            start + len <= n,
            n == s@.len(),
            t == s@.skip(start as int),
            forall|j: int| 0 <= j < len ==> is_ip_byte(t[j]),
            dots == count_dots(t.take(len as int)),
            dots <= 3,
            digits == trailing_digits(t.take(len as int)),
            digits <= 3,
            len > 0 ==> is_digit(t[0]),
            forall|j: int| 0 <= j && j + 1 < len ==> !(t[j] == 46 && #[trigger] t[j + 1] == 46),
            forall|j: int|
                0 <= j && j + 3 < len ==> !(is_digit(t[j]) && is_digit(t[j + 1]) && is_digit(
                    t[j + 2],
                ) && is_digit(#[trigger] t[j + 3])),
        decreases n - len,
    {
        let b = s[start + len];
        let ghost old_t = t.take(len as int);
        assert(t.take(len + 1).drop_last() =~= old_t);
        assert(t[len as int] == b);
        proof {
            lemma_trailing_digits(old_t);
            lemma_ip_run_end_at_least(t, 0, len + 1);
        }
        if digit_byte(b) {
            if digits == 3 {
                proof {
                    let p = ip_run_end(t, 0);
                    let w = t.take(p);
                    assert(is_digit(old_t[len - 1]));
                    assert(is_digit(old_t[len - 2]));
                    assert(is_digit(old_t[len - 3]));
                    assert(is_digit(w[len - 3]) && is_digit(w[len - 2]) && is_digit(w[len - 1])
                        && is_digit(w[len - 3 + 3]));
                    assert(!dotted_quad(w));
                }
                return 0;
            }
            digits = digits + 1;
        } else {
            if digits == 0 {
                proof {
                    let p = ip_run_end(t, 0);
                    let w = t.take(p);
                    if len > 0 {
                        assert(!is_digit(old_t[len - 1 - 0]));
                        assert(w[len - 1] == 46 && w[len - 1 + 1] == 46);
                    }
                    assert(!dotted_quad(w));
                }
                return 0;
            }
            if dots == 3 {
                proof {
                    let p = ip_run_end(t, 0);
                    lemma_count_dots_mono(t, len + 1, p);
                    assert(!dotted_quad(t.take(p)));
                }
                return 0;
            }
            dots = dots + 1;
            digits = 0;
        }
        len = len + 1;
    }
    proof {
        lemma_ip_run_end_exact(t, 0, len as int);
        lemma_trailing_digits(t.take(len as int));
        let w = t.take(len as int);
        if len > 0 {
            assert(w.last() == w[len - 1 - 0]);
        }
    }
    if dots == 3 && digits > 0 {
        len
    } else {
        0
    }
}

/// The byte length of the dotted IPv4 address that starts `text`, or 0 when
/// `text` does not start with one (see `ip_len_of`).
pub fn find_ip_len(text: &str) -> (res: usize)
    ensures
        res == ip_len_of(text.spec_bytes()),
{
    let b = text.as_bytes();
    assert(b@.skip(0) =~= b@);
    ip_len_at(b, 0)
}

/// Index of the first `.` at or after `i` (or `t.len()`).
pub open spec fn dot_index(t: Seq<u8>, i: int) -> int
    decreases t.len() - i,
{
    if 0 <= i < t.len() && t[i] != 46 {
        dot_index(t, i + 1)
    } else {
        i
    }
}

/// `f` reads as a `u8` in decimal: one or more digits with a value of at most 255.
pub open spec fn parses_u8(f: Seq<u8>) -> bool {
    &&& f.len() > 0
    &&& forall|j: int| 0 <= j < f.len() ==> is_digit(#[trigger] f[j])
    &&& dec_value(f) <= 255
}

/// Every `.`-separated field of `t` reads as a `u8`.
pub open spec fn fields_u8(t: Seq<u8>) -> bool
    decreases t.len(),
{
    let d = dot_index(t, 0);
    if d < t.len() {
        proof {
            lemma_dot_index_bounds(t, 0);
        }
        parses_u8(t.take(d)) && fields_u8(t.skip(d + 1))
    } else {
        parses_u8(t)
    }
}

/// An address starts at byte `i`: a digit that starts a word, followed by a dotted
/// quad whose fields all read as `u8`.
pub open spec fn ip_start(s: Seq<u8>, i: int) -> bool {
    &&& 0 <= i < s.len()
    &&& is_digit(s[i])
    &&& (i == 0 || is_boundary_byte(s[i - 1]))
    &&& ip_len_of(s.skip(i)) > 0
    &&& fields_u8(s.skip(i).take(ip_len_of(s.skip(i))))
}

/// `dot_index` never moves backwards.
pub proof fn lemma_dot_index_bounds(t: Seq<u8>, i: int)
    requires
        0 <= i,
    ensures
        i <= dot_index(t, i),
    decreases t.len() - i,
{
    if 0 <= i < t.len() && t[i] != 46 {
        lemma_dot_index_bounds(t, i + 1);
    }
}

proof fn lemma_dot_index(t: Seq<u8>, i: int, j: int)
    requires
        0 <= i <= j <= t.len(),
        forall|x: int| i <= x < j ==> t[x] != 46,
        j == t.len() || t[j] == 46,
    ensures
        dot_index(t, i) == j,
    decreases j - i,
{
    if i < j {
        lemma_dot_index(t, i + 1, j);
    }
}

/// Whether bytes `[f, d)` of `s` read as a `u8` (see `parses_u8`).
fn field_is_u8(s: &[u8], f: usize, d: usize) -> (res: bool)
    requires
        f <= d <= s@.len(),
    ensures
        res == parses_u8(s@.subrange(f as int, d as int)),
{
    if f == d {
        return false;
    }
    let mut j = f;
    let mut v: u32 = 0;
    while j < d
        invariant
            f <= j <= d,
            d <= s@.len(),
            forall|t: int| f <= t < j ==> is_digit(s@[t]),
            v == if dec_value(s@.subrange(f as int, j as int)) > 255 {
                256
            } else {
                dec_value(s@.subrange(f as int, j as int))
            },
        decreases d - j,
    {
        if !digit_byte(s[j]) {
            assert(s@.subrange(f as int, d as int)[j - f] == s@[j as int]);
            return false;
        }
        assert(s@.subrange(f as int, j + 1).drop_last() =~= s@.subrange(f as int, j as int));
        let nv = v * 10 + (s[j] - 48) as u32;
        if nv > 255 {
            v = 256;
        } else {
            v = nv;
        }
        j = j + 1;
    }
    v <= 255
}

/// Whether every `.`-separated field of bytes `[start, end)` of `s` reads as a `u8`.
fn fields_are_u8(s: &[u8], start: usize, end: usize) -> (res: bool)
    requires
        start <= end <= s@.len(),
    ensures
        res == fields_u8(s@.subrange(start as int, end as int)),
{
    let mut f = start;
    loop
        invariant
            start <= f <= end,
            end <= s@.len(),
            fields_u8(s@.subrange(start as int, end as int)) == fields_u8(
                s@.subrange(f as int, end as int),
            ),
        decreases end - f,
    {
        let ghost u = s@.subrange(f as int, end as int);
        let mut d = f;
        while d < end && s[d] != 46
            invariant
                f <= d <= end,
                end <= s@.len(),
                forall|x: int| f <= x < d ==> s@[x] != 46,
            decreases end - d,
        {
            d = d + 1;
        }
        proof {
            lemma_dot_index(u, 0, d - f);
            assert(u.take(d - f) =~= s@.subrange(f as int, d as int));
        }
        let ok = field_is_u8(s, f, d);
        if d == end {
            assert(u =~= s@.subrange(f as int, d as int));
            return ok;
        }
        if !ok {
            return false;
        }
        assert(u.skip(d - f + 1) =~= s@.subrange(d + 1, end as int));
        f = d + 1;
    }
}

/// Byte offsets, in increasing order, at which a dotted IPv4 address starts in
/// `text` (see `ip_start`).
pub fn find_ip_addresses(text: &str) -> (res: Vec<usize>)
    ensures
        as_ints(res@) == positions_from(
            text.spec_bytes().len() as int,
            0,
            |i: int| ip_start(text.spec_bytes(), i),
        ),
{
    ip_positions(text.as_bytes())
}

/// Byte offsets, in increasing order, at which a dotted IPv4 address starts in `s`.
pub fn ip_positions(s: &[u8]) -> (res: Vec<usize>)
    ensures
        as_ints(res@) == positions_from(s@.len() as int, 0, |i: int| ip_start(s@, i)),
{
    let ghost p = |i: int| ip_start(s@, i);
    let n = s.len();
    let mut res: Vec<usize> = Vec::new();
    let mut i: usize = 0;
    while i < n
        invariant
            i <= n,
            n == s@.len(),
            p == (|i: int| ip_start(s@, i)),
            as_ints(res@) + positions_from(n as int, i as int, p) == positions_from(
                n as int,
                0,
                p,
            ),
        decreases n - i,
    {
        let ghost before = as_ints(res@);
        let mut hit = false;
        if digit_byte(s[i]) && (i == 0 || boundary_byte(s[i - 1])) {
            let l = ip_len_at(s, i);
            if l > 0 {
                proof {
                    lemma_ip_run_end_bounded(s@.skip(i as int), 0);
                }
                assert(s@.skip(i as int).take(l as int) =~= s@.subrange(i as int, i + l));
                if fields_are_u8(s, i, i + l) {
                    hit = true;
                }
            }
        }
        assert(hit == p(i as int));
        if hit {
            proof {
                lemma_as_ints_push(res@, i);
                assert(before + positions_from(n as int, i as int, p) =~= before.push(i as int)
                    + positions_from(n as int, i + 1, p));
            }
            res.push(i);
        }
        i = i + 1;
    }
    assert(as_ints(res@) + positions_from(n as int, i as int, p) =~= as_ints(res@));
    res
}


// ---------------------------------------------------------------------------
// URLs
// ---------------------------------------------------------------------------

/// The bytes of `http://`.
pub open spec fn http_prefix() -> Seq<u8> {
    seq![104u8, 116u8, 116u8, 112u8, 58u8, 47u8, 47u8]
}

/// The bytes of `https://`.
pub open spec fn https_prefix() -> Seq<u8> {
    seq![104u8, 116u8, 116u8, 112u8, 115u8, 58u8, 47u8, 47u8]
}

/// A URL starts at byte `i`: `https://` or `http://` at the start of a word.
pub open spec fn url_start(s: Seq<u8>, i: int) -> bool {
    &&& 0 <= i < s.len()
    &&& (matches_at(s, https_prefix(), i) || matches_at(s, http_prefix(), i))
    &&& (i == 0 || is_boundary_byte(s[i - 1]))
}

fn match_at_checked(s: &[u8], k: &[u8], i: usize) -> (res: bool)
    requires
        i <= s@.len(),
    ensures
        res == matches_at(s@, k@, i as int),
{
    if k.len() <= s.len() - i {
        match_at(s, k, i)
    } else {
        false
    }
}

/// Byte offsets, in increasing order, at which a URL starts in `s`.
pub fn url_positions(s: &[u8]) -> (res: Vec<usize>)
    ensures
        as_ints(res@) == positions_from(s@.len() as int, 0, |i: int| url_start(s@, i)),
{
    let ghost p = |i: int| url_start(s@, i);
    let http = vec![104u8, 116u8, 116u8, 112u8, 58u8, 47u8, 47u8];
    let https = vec![104u8, 116u8, 116u8, 112u8, 115u8, 58u8, 47u8, 47u8];
    assert(http@ == http_prefix());
    assert(https@ == https_prefix());
    let n = s.len();
    let mut res: Vec<usize> = Vec::new();
    let mut i: usize = 0;
    while i < n
        invariant
            i <= n,
            n == s@.len(),
            http@ == http_prefix(),
            https@ == https_prefix(),
            p == (|i: int| url_start(s@, i)),
            as_ints(res@) + positions_from(n as int, i as int, p) == positions_from(
                n as int,
                0,
                p,
            ),
        decreases n - i,
    {
        let ghost before = as_ints(res@);
        let hit = (match_at_checked(s, https.as_slice(), i) || match_at_checked(
            s,
            http.as_slice(),
            i,
        )) && (i == 0 || boundary_byte(s[i - 1]));
        assert(hit == p(i as int));
        if hit {
            proof {
                lemma_as_ints_push(res@, i);
                assert(before + positions_from(n as int, i as int, p) =~= before.push(i as int)
                    + positions_from(n as int, i + 1, p));
            }
            res.push(i);
        }
        i = i + 1;
    }
    assert(as_ints(res@) + positions_from(n as int, i as int, p) =~= as_ints(res@));
    res
}

/// Byte offsets, in increasing order, at which a URL (`https://` or `http://` at the
/// start of a word) starts in `text`.
pub fn find_urls(text: &str) -> (res: Vec<usize>)
    ensures
        as_ints(res@) == positions_from(
            text.spec_bytes().len() as int,
            0,
            |i: int| url_start(text.spec_bytes(), i),
        ),
{
    url_positions(text.as_bytes())
}

/// Index of the first ASCII whitespace byte at or after `i` (or `s.len()`).
pub open spec fn ws_index(s: Seq<u8>, i: int) -> int
    decreases s.len() - i,
{
    if 0 <= i < s.len() && !is_ascii_ws(s[i]) {
        ws_index(s, i + 1)
    } else {
        i
    }
}

proof fn lemma_ws_index(s: Seq<u8>, i: int, j: int)
    requires
        0 <= i <= j <= s.len(),
        forall|x: int| i <= x < j ==> !is_ascii_ws(s[x]),
        j == s.len() || is_ascii_ws(s[j]),
    ensures
        ws_index(s, i) == j,
    decreases j - i,
{
    if i < j {
        lemma_ws_index(s, i + 1, j);
    }
}

/// Length of the URL at byte `start` of `s`: up to the first ASCII whitespace.
pub fn url_len_at(s: &[u8], start: usize) -> (res: usize)
    requires
        start <= s@.len(),
    ensures
        res == ws_index(s@.skip(start as int), 0),
        start + res <= s@.len(),
{
    let ghost t = s@.skip(start as int);
    let n = s.len();
    let mut j = start;
    while j < n && !(s[j] == 32 || s[j] == 9 || s[j] == 10 || s[j] == 12 || s[j] == 13)
        invariant
            start <= j <= n,
            n == s@.len(),
            t == s@.skip(start as int),
            forall|x: int| 0 <= x < j - start ==> !is_ascii_ws(t[x]),
        decreases n - j,
    {
        j = j + 1;
    }
    proof {
        lemma_ws_index(t, 0, j - start);
    }
    j - start
}

/// The byte length of the URL at the start of `text`: the offset of the first
/// ASCII whitespace, or the whole length when there is none.
pub fn find_url_len(text: &str) -> (res: usize)
    ensures
        res == ws_index(text.spec_bytes(), 0),
{
    let b = text.as_bytes();
    assert(b@.skip(0) =~= b@);
    url_len_at(b, 0)
}

// ---------------------------------------------------------------------------
// Ports
// ---------------------------------------------------------------------------

/// A port starts at byte `i`: a `:` at the start of a word, followed by digits
/// whose value lies in `1..=65535`, and the digits end the word.
pub open spec fn port_start(s: Seq<u8>, i: int) -> bool {
    let j = digit_end(s, i + 1);
    let v = dec_value(s.subrange(i + 1, j));
    &&& 0 <= i
    &&& i + 1 < s.len()
    &&& s[i] == 58
    &&& is_digit(s[i + 1])
    &&& (i == 0 || is_boundary_byte(s[i - 1]))
    &&& 0 < v <= 65535
    &&& (j >= s.len() || is_boundary_byte(s[j]))
}

/// Byte offsets, in increasing order, at which a port starts in `s`.
pub fn port_positions(s: &[u8]) -> (res: Vec<usize>)
    ensures
        as_ints(res@) == positions_from(s@.len() as int, 0, |i: int| port_start(s@, i)),
{
    let ghost p = |i: int| port_start(s@, i);
    let n = s.len();
    let mut res: Vec<usize> = Vec::new();
    let mut i: usize = 0;
    while i < n
        invariant
            i <= n,
            n == s@.len(),
            p == (|i: int| port_start(s@, i)),
            as_ints(res@) + positions_from(n as int, i as int, p) == positions_from(
                n as int,
                0,
                p,
            ),
        decreases n - i,
    {
        let ghost before = as_ints(res@);
        let mut hit = false;
        if s[i] == 58 && i + 1 < n && digit_byte(s[i + 1]) && (i == 0 || boundary_byte(s[i - 1])
            || s[i - 1] == 32) {
            let (j, v) = scan_digits(s, i + 1, 65535);
            proof {
                lemma_digit_end_bounds(s@, i + 1);
            }
            if v <= 65535 && v > 0 {
                let after_ok = j >= n || boundary_byte(s[j]);
                if after_ok {
                    hit = true;
                }
            }
        }
        assert(hit == p(i as int));
        if hit {
            proof {
                lemma_as_ints_push(res@, i);
                assert(before + positions_from(n as int, i as int, p) =~= before.push(i as int)
                    + positions_from(n as int, i + 1, p));
            }
            res.push(i);
        }
        i = i + 1;
    }
    assert(as_ints(res@) + positions_from(n as int, i as int, p) =~= as_ints(res@));
    res
}

/// Byte offsets, in increasing order, at which a port (`:` followed by a number in
/// `1..=65535`, standing as a word) starts in `text`.
pub fn find_ports(text: &str) -> (res: Vec<usize>)
    ensures
        as_ints(res@) == positions_from(
            text.spec_bytes().len() as int,
            0,
            |i: int| port_start(text.spec_bytes(), i),
        ),
{
    port_positions(text.as_bytes())
}

/// The length of the port at the start of `s`: the `:` and the digits after it;
/// 0 when `s` does not start with `:`.
pub open spec fn port_len_of(s: Seq<u8>) -> int {
    if s.len() > 0 && s[0] == 58 {
        digit_end(s, 1)
    } else {
        0
    }
}

/// Length of the port at byte `start` of `s` (see `port_len_of`).
pub fn port_len_at(s: &[u8], start: usize) -> (res: usize)
    requires
        start <= s@.len(),
    ensures
        res == port_len_of(s@.skip(start as int)),
        start + res <= s@.len(),
{
    let ghost t = s@.skip(start as int);
    let n = s.len();
    if start == n || s[start] != 58 {
        return 0;
    }
    let mut j = start + 1;
    while j < n && digit_byte(s[j])
        invariant
            start < j <= n,
            n == s@.len(),
            t == s@.skip(start as int),
            forall|x: int| 1 <= x < j - start ==> is_digit(t[x]),
        decreases n - j,
    {
        j = j + 1;
    }
    proof {
        lemma_digit_end(t, 1, j - start);
    }
    j - start
}

/// The byte length of the port at the start of `text` (see `port_len_of`).
pub fn find_port_len(text: &str) -> (res: usize)
    ensures
        res == port_len_of(text.spec_bytes()),
{
    let b = text.as_bytes();
    assert(b@.skip(0) =~= b@);
    port_len_at(b, 0)
}


/// An address never reaches past the end of the text.
pub proof fn lemma_ip_len_bounded(s: Seq<u8>)
    ensures
        0 <= ip_len_of(s) <= s.len(),
{
    lemma_ip_run_end_bounded(s, 0);
}

/// A URL never reaches past the end of the text.
pub proof fn lemma_ws_index_bounded(s: Seq<u8>, i: int)
    requires
        0 <= i <= s.len(),
    ensures
        i <= ws_index(s, i) <= s.len(),
    decreases s.len() - i,
{
    if i < s.len() && !is_ascii_ws(s[i]) {
        lemma_ws_index_bounded(s, i + 1);
    }
}

/// A port never reaches past the end of the text.
pub proof fn lemma_port_len_bounded(s: Seq<u8>)
    ensures
        0 <= port_len_of(s) <= s.len(),
{
    if s.len() > 0 {
        lemma_digit_end_bounds(s, 1);
    }
}

proof fn lemma_ws_index_at_least(s: Seq<u8>, i: int, j: int)
    requires
        0 <= i <= j <= s.len(),
        forall|x: int| i <= x < j ==> !is_ascii_ws(#[trigger] s[x]),
    ensures
        ws_index(s, i) >= j,
    decreases j - i,
{
    if i < j {
        assert(!is_ascii_ws(s[i]));
        lemma_ws_index_at_least(s, i + 1, j);
    } else {
        lemma_ws_index_bounded(s, i);
    }
}

/// Every match the scanners report has a length at its position: an address a
/// positive one, a URL at least its `http://` prefix, a port its colon and at
/// least one digit.
pub proof fn law_reported_matches_have_length(s: Seq<u8>, i: int)
    ensures
        ip_start(s, i) ==> ip_len_of(s.skip(i)) > 0,
        url_start(s, i) ==> ws_index(s.skip(i), 0) >= 7,
        port_start(s, i) ==> port_len_of(s.skip(i)) >= 2,
{
    let t = s.skip(i);
    if url_start(s, i) {
        assert forall|x: int| 0 <= x < 7 implies !is_ascii_ws(#[trigger] t[x]) by {
            if matches_at(s, https_prefix(), i) {
                assert(s[i + x] == https_prefix()[x]);
            } else {
                assert(s[i + x] == http_prefix()[x]);
            }
            assert(t[x] == s[i + x]);
        }
        lemma_ws_index_at_least(t, 0, 7);
    }
    if port_start(s, i) {
        assert(t[0] == s[i]);
        assert(t[1] == s[i + 1]);
        assert(digit_end(t, 1) == digit_end(t, 2));
        lemma_digit_end_bounds(t, 2);
    }
}

/// A reported port's length covers its colon and exactly the run of digits after
/// it, whose value is a port number from 1 to 65535.
pub proof fn law_port_length_is_digit_run(s: Seq<u8>, i: int)
    requires
        port_start(s, i),
    ensures
        ({
            let len = port_len_of(s.skip(i));
            &&& len >= 2
            &&& i + len <= s.len()
            &&& forall|t: int| i + 1 <= t < i + len ==> is_digit(#[trigger] s[t])
            &&& (i + len == s.len() || !is_digit(s[i + len]))
            &&& 0 < dec_value(s.subrange(i + 1, i + len)) <= 65535
        }),
{
    let t = s.skip(i);
    let j = digit_end(s, i + 1);
    lemma_digit_end_bounds(s, i + 1);
    assert forall|x: int| 1 <= x < j - i implies is_digit(t[x]) by {
        assert(t[x] == s[i + x]);
    }
    if j < s.len() {
        assert(t[j - i] == s[j]);
    }
    lemma_digit_end(t, 1, j - i);
    assert(t[0] == s[i]);
    law_reported_matches_have_length(s, i);
}

// ---------------------------------------------------------------------------
// Completeness of the scanners
// ---------------------------------------------------------------------------

/// `x` separates words: it is not an ASCII letter, an ASCII digit or `_`.
pub open spec fn separates_words(x: u8) -> bool {
    !((48 <= x && x <= 57) || (65 <= x && x <= 90) || (97 <= x && x <= 122) || x == 95)
}

proof fn lemma_scan_reaches(s: Seq<u8>, k: Seq<u8>, p: int, i: int)
    requires
        k.len() > 0,
        0 <= i <= p,
        p + k.len() <= s.len(),
        forall|j: int| 0 <= j < k.len() ==> s[p + j] == k[j],
        p == 0 || separates_words(s[p - 1]),
        p + k.len() == s.len() || separates_words(s[p + k.len()]),
        forall|q: int| p - k.len() < q < p && 0 <= q ==> !#[trigger] matches_at(s, k, q),
    ensures
        keyword_scan(s, k, i).contains(p),
    decreases p - i,
{
    if matches_at(s, k, i) {
        if i == p {
            assert(keyword_scan(s, k, i)[0] == p);
        } else {
            lemma_scan_reaches(s, k, p, i + k.len());
            let tail = keyword_scan(s, k, i + k.len());
            let j = choose|j: int| 0 <= j < tail.len() && tail[j] == p;
            if keyword_bounded(s, k, i) {
                assert((seq![i] + tail)[j + 1] == p);
            }
        }
    } else {
        assert(matches_at(s, k, p));
        lemma_scan_reaches(s, k, p, i + 1);
    }
}

/// The keyword search misses no whole word it reaches: wherever `k` occurs at `p`
/// as a whole word (the bytes around it, where there are any, separate words) and
/// no earlier occurrence of `k` overlaps it, `p` is reported. An occurrence that is
/// not a whole word therefore never hides a later whole-word one.
pub proof fn law_keyword_search_complete(s: Seq<u8>, k: Seq<u8>, p: int)
    requires
        k.len() > 0,
        0 <= p,
        p + k.len() <= s.len(),
        forall|j: int| 0 <= j < k.len() ==> s[p + j] == k[j],
        p == 0 || separates_words(s[p - 1]),
        p + k.len() == s.len() || separates_words(s[p + k.len()]),
        forall|q: int| p - k.len() < q < p && 0 <= q ==> !#[trigger] matches_at(s, k, q),
    ensures
        keyword_scan(s, k, 0).contains(p),
{
    lemma_scan_reaches(s, k, p, 0);
}

/// A port is found wherever it stands as a word: a `:` at `i` that starts the text
/// or follows any byte separating words, then a run of digits up to `j` whose
/// value is from 1 to 65535, ending the text or followed by a byte separating
/// words, is reported, with the length of the colon and the whole digit run.
pub proof fn law_port_search_complete(s: Seq<u8>, i: int, j: int)
    requires
        0 <= i,
        i + 1 < j <= s.len(),
        s[i] == 58,
        forall|t: int| i < t < j ==> 48 <= #[trigger] s[t] <= 57,
        j == s.len() || separates_words(s[j]),
        0 < dec_value(s.subrange(i + 1, j)) <= 65535,
        i == 0 || separates_words(s[i - 1]),
    ensures
        positions_from(s.len() as int, 0, |x: int| port_start(s, x)).contains(i),
        port_len_of(s.skip(i)) == j - i,
{
    lemma_digit_end(s, i + 1, j);
    assert(port_start(s, i));
    lemma_positions_from(s.len() as int, 0, |x: int| port_start(s, x));
    let t = s.skip(i);
    assert forall|x: int| 1 <= x < j - i implies is_digit(t[x]) by {
        assert(t[x] == s[i + x]);
    }
    if j < s.len() {
        assert(t[j - i] == s[j]);
    }
    lemma_digit_end(t, 1, j - i);
}

/// Which byte separates an address from what precedes it does not matter: putting
/// any byte that separates words in front of a text shifts every reported address
/// by one and reports no other, so an address at the start of the text stays
/// reported after `(`, `[`, `=`, a space or any other separator.
pub proof fn law_ip_after_any_separator(s: Seq<u8>, x: u8, i: int)
    requires
        separates_words(x),
    ensures
        positions_from(s.len() as int, 0, |k: int| ip_start(s, k)).contains(i) == positions_from(
            (seq![x] + s).len() as int,
            0,
            |k: int| ip_start(seq![x] + s, k),
        ).contains(i + 1),
{
    let t = seq![x] + s;
    lemma_positions_from(s.len() as int, 0, |k: int| ip_start(s, k));
    lemma_positions_from(t.len() as int, 0, |k: int| ip_start(t, k));
    if 0 <= i < s.len() {
        assert(t[i + 1] == s[i]);
        if i > 0 {
            assert(t[i] == s[i - 1]);
        }
        assert(t.skip(i + 1) =~= s.skip(i));
    }
}

/// A URL is found wherever `http://` or `https://` starts the text or follows any
/// byte separating words.
pub proof fn law_url_search_complete(s: Seq<u8>, i: int)
    requires
        0 <= i,
        i == 0 || separates_words(s[i - 1]),
        ({
            let h = seq![104u8, 116u8, 116u8, 112u8, 58u8, 47u8, 47u8];
            let hs = seq![104u8, 116u8, 116u8, 112u8, 115u8, 58u8, 47u8, 47u8];
            (i + 7 <= s.len() && forall|j: int| 0 <= j < 7 ==> s[i + j] == h[j]) || (i + 8
                <= s.len() && forall|j: int| 0 <= j < 8 ==> s[i + j] == hs[j])
        }),
    ensures
        positions_from(s.len() as int, 0, |k: int| url_start(s, k)).contains(i),
{
    lemma_positions_from(s.len() as int, 0, |k: int| url_start(s, k));
    assert(http_prefix() =~= seq![104u8, 116u8, 116u8, 112u8, 58u8, 47u8, 47u8]);
    assert(https_prefix() =~= seq![104u8, 116u8, 116u8, 112u8, 115u8, 58u8, 47u8, 47u8]);
    assert(url_start(s, i));
}

/// Bytes `[a, b)` of `s` are one to three digits whose value is at most 255.
pub open spec fn u8_field(s: Seq<u8>, a: int, b: int) -> bool {
    &&& 0 <= a < b <= a + 3
    &&& b <= s.len()
    &&& forall|t: int| a <= t < b ==> 48 <= #[trigger] s[t] <= 57
    &&& dec_value(s.subrange(a, b)) <= 255
}

proof fn lemma_count_dots_prefix(u: Seq<u8>, k: int, d1: int, d2: int, d3: int)
    requires
        0 <= k <= u.len(),
        forall|j: int| 0 <= j < u.len() ==> ((#[trigger] u[j] == 46) <==> (j == d1 || j == d2 || j == d3)),
        0 <= d1 < d2 < d3,
    ensures
        count_dots(u.take(k)) == (if k > d1 { 1int } else { 0 }) + (if k > d2 { 1int } else { 0 }) + (
        if k > d3 {
            1int
        } else {
            0
        }),
    decreases k,
{
    if k > 0 {
        lemma_count_dots_prefix(u, k - 1, d1, d2, d3);
        assert(u.take(k).drop_last() =~= u.take(k - 1));
        assert(u.take(k).last() == u[k - 1]);
        if u[k - 1] == 46 {
            assert(k - 1 == d1 || k - 1 == d2 || k - 1 == d3);
        } else {
            assert(k - 1 != d1 && k - 1 != d2 && k - 1 != d3);
        }
    } else {
        assert(u.take(0) =~= Seq::<u8>::empty());
    }
}

proof fn lemma_fields_step(u: Seq<u8>, d: int)
    requires
        0 < d < u.len(),
        u[d] == 46,
        forall|j: int| 0 <= j < d ==> u[j] != 46,
    ensures
        fields_u8(u) == (parses_u8(u.take(d)) && fields_u8(u.skip(d + 1))),
{
    lemma_dot_index(u, 0, d);
}

proof fn lemma_fields_last(u: Seq<u8>)
    requires
        forall|j: int| 0 <= j < u.len() ==> u[j] != 46,
    ensures
        fields_u8(u) == parses_u8(u),
{
    lemma_dot_index(u, 0, u.len() as int);
}

/// The bytes of `u` are digits but for dots exactly at `d1`, `d2` and `d3`, which
/// cut it into four fields of one to three bytes.
pub open spec fn quad_layout(u: Seq<u8>, d1: int, d2: int, d3: int) -> bool {
    &&& 0 < d1 <= 3
    &&& d1 < d2 <= d1 + 4
    &&& d2 + 1 < d3 <= d2 + 4
    &&& d3 + 1 < u.len() <= d3 + 4
    &&& d1 + 1 < d2
    &&& forall|j: int| 0 <= j < u.len() ==> ((#[trigger] u[j] == 46) <==> (j == d1 || j == d2 || j == d3))
    &&& forall|j: int| 0 <= j < u.len() ==> (#[trigger] u[j] == 46 || is_digit(u[j]))
}

proof fn lemma_quad_shape(u: Seq<u8>, d1: int, d2: int, d3: int)
    requires
        quad_layout(u, d1, d2, d3),
    ensures
        dotted_quad(u),
{
    lemma_count_dots_prefix(u, u.len() as int, d1, d2, d3);
    assert(u.take(u.len() as int) =~= u);
    assert forall|j: int| 0 <= j && j + 1 < u.len() implies !(u[j] == 46 && #[trigger] u[j + 1] == 46) by {
        if u[j] == 46 {
            assert(j == d1 || j == d2 || j == d3);
            assert(j + 1 != d1 && j + 1 != d2 && j + 1 != d3);
        }
    }
    assert forall|j: int| 0 <= j && j + 3 < u.len() implies !(is_digit(u[j]) && is_digit(u[j + 1])
        && is_digit(u[j + 2]) && is_digit(#[trigger] u[j + 3])) by {
        if is_digit(u[j]) && is_digit(u[j + 1]) && is_digit(u[j + 2]) && is_digit(u[j + 3]) {
            assert(u[j] != 46 && u[j + 1] != 46 && u[j + 2] != 46 && u[j + 3] != 46);
            assert(j != d1 && j + 1 != d1 && j + 2 != d1 && j + 3 != d1);
            assert(j != d2 && j + 1 != d2 && j + 2 != d2 && j + 3 != d2);
            assert(j != d3 && j + 1 != d3 && j + 2 != d3 && j + 3 != d3);
        }
    }
    assert(u[0] != 46);
    assert(u.last() == u[u.len() - 1]);
    assert(u[u.len() - 1] != 46);
}

proof fn lemma_quad_fields(u: Seq<u8>, d1: int, d2: int, d3: int)
    requires
        quad_layout(u, d1, d2, d3),
        dec_value(u.subrange(0, d1)) <= 255,
        dec_value(u.subrange(d1 + 1, d2)) <= 255,
        dec_value(u.subrange(d2 + 1, d3)) <= 255,
        dec_value(u.subrange(d3 + 1, u.len() as int)) <= 255,
    ensures
        fields_u8(u),
{
    assert forall|j: int| 0 <= j < d1 implies u[j] != 46 by {
        assert(j != d2 && j != d3);
    }
    lemma_fields_step(u, d1);
    let u2 = u.skip(d1 + 1);
    assert(u.take(d1) =~= u.subrange(0, d1));
    assert forall|j: int| 0 <= j < d2 - d1 - 1 implies u2[j] != 46 by {
        assert(u2[j] == u[d1 + 1 + j]);
    }
    assert(u2[d2 - d1 - 1] == u[d2]);
    lemma_fields_step(u2, d2 - d1 - 1);
    let u3 = u2.skip(d2 - d1);
    assert(u2.take(d2 - d1 - 1) =~= u.subrange(d1 + 1, d2));
    assert forall|j: int| 0 <= j < d3 - d2 - 1 implies u3[j] != 46 by {
        assert(u3[j] == u[d2 + 1 + j]);
    }
    assert(u3[d3 - d2 - 1] == u[d3]);
    lemma_fields_step(u3, d3 - d2 - 1);
    let u4 = u3.skip(d3 - d2);
    assert(u3.take(d3 - d2 - 1) =~= u.subrange(d2 + 1, d3));
    assert(u4 =~= u.subrange(d3 + 1, u.len() as int));
    assert forall|j: int| 0 <= j < u4.len() implies u4[j] != 46 by {
        assert(u4[j] == u[d3 + 1 + j]);
    }
    lemma_fields_last(u4);
    assert forall|j: int| 0 <= j < u4.len() implies is_digit(#[trigger] u4[j]) by {
        assert(u4[j] == u[d3 + 1 + j]);
    }
    assert forall|j: int| 0 <= j < u3.take(d3 - d2 - 1).len() implies is_digit(#[trigger] u3.take(d3 - d2 - 1)[j]) by {
        assert(u3.take(d3 - d2 - 1)[j] == u[d2 + 1 + j]);
    }
    assert forall|j: int| 0 <= j < u2.take(d2 - d1 - 1).len() implies is_digit(#[trigger] u2.take(d2 - d1 - 1)[j]) by {
        assert(u2.take(d2 - d1 - 1)[j] == u[d1 + 1 + j]);
    }
    assert forall|j: int| 0 <= j < u.take(d1).len() implies is_digit(#[trigger] u.take(d1)[j]) by {
        assert(u.take(d1)[j] == u[j]);
    }
}

/// An address is found wherever it stands as a word: four fields of one to three
/// digits, each worth at most 255, separated by dots, starting the text or
/// following any byte that separates words, and not followed by a further digit
/// or dot, are reported at their start, with the length of the whole address.
#[verifier::rlimit(30)]
pub proof fn law_ip_search_complete(s: Seq<u8>, i: int, x1: int, x2: int, x3: int, e: int)
    requires
        u8_field(s, i, x1),
        s[x1] == 46,
        u8_field(s, x1 + 1, x2),
        s[x2] == 46,
        u8_field(s, x2 + 1, x3),
        s[x3] == 46,
        u8_field(s, x3 + 1, e),
        e == s.len() || !(48 <= s[e] <= 57 || s[e] == 46),
        i == 0 || separates_words(s[i - 1]),
    ensures
        positions_from(s.len() as int, 0, |k: int| ip_start(s, k)).contains(i),
        ip_len_of(s.skip(i)) == e - i,
{
    let t = s.skip(i);
    let len = e - i;
    let u = t.take(len);
    let d1 = x1 - i;
    let d2 = x2 - i;
    let d3 = x3 - i;
    assert forall|j: int| 0 <= j < len implies #[trigger] u[j] == s[i + j] by {}
    assert forall|j: int| 0 <= j < len implies ((#[trigger] u[j] == 46) <==> (j == d1 || j == d2
        || j == d3)) && (u[j] == 46 || is_digit(u[j])) by {
        assert(u[j] == s[i + j]);
        if i + j != x1 && i + j != x2 && i + j != x3 {
            assert(48 <= s[i + j] <= 57);
        }
    }
    assert(quad_layout(u, d1, d2, d3));
    assert forall|k: int| 0 <= k < len implies is_ip_byte(#[trigger] t[k]) by {
        assert(t[k] == u[k]);
    }
    if e < s.len() {
        assert(t[len] == s[e]);
    }
    lemma_ip_run_end_exact(t, 0, len);
    lemma_quad_shape(u, d1, d2, d3);
    assert(u.subrange(0, d1) =~= s.subrange(i, x1));
    assert(u.subrange(d1 + 1, d2) =~= s.subrange(x1 + 1, x2));
    assert(u.subrange(d2 + 1, d3) =~= s.subrange(x2 + 1, x3));
    assert(u.subrange(d3 + 1, len) =~= s.subrange(x3 + 1, e));
    lemma_quad_fields(u, d1, d2, d3);
    assert(ip_start(s, i));
    lemma_positions_from(s.len() as int, 0, |k: int| ip_start(s, k));
}

} // verus!
