//! Semantic highlighting of a terminal screen: which cells are coloured as
//! errors, successes, failures, warnings, notices, debug output, IP addresses,
//! URLs or ports.
use vstd::prelude::*;
use vstd::utf8::encode_scalar;
use crate::scan::{
    as_ints, ip_len_at, ip_len_of, ip_positions, ip_start, keyword_positions, keyword_scan,
    lemma_keyword_scan, lemma_positions_from, matches_at, port_len_at, port_len_of, port_positions,
    port_start, positions_from, separates_words, url_len_at, url_positions, url_start, ws_index,
    law_keyword_search_complete,
};

verus! {

/// What a highlighted cell shows; the renderer picks a colour for each kind.
#[derive(Clone, Copy, Debug, PartialEq, Eq)]
pub enum HighlightKind {
    Error,
    Success,
    Failure,
    Warning,
    Info,
    Debug,
    Network,
    Url,
    Port,
}

/// One rendered cell: its grid position and the character drawn there.
#[derive(Clone, Copy, Debug, PartialEq, Eq)]
pub struct CellChar {
    pub row: i32,
    pub col: i32,
    pub c: char,
}

// ---------------------------------------------------------------------------
// The model of one row
// ---------------------------------------------------------------------------

/// The cells of `cells` that lie in row `r`, in their original order.
pub open spec fn cells_in_row(cells: Seq<CellChar>, r: int) -> Seq<CellChar>
    decreases cells.len(),
{
    if cells.len() == 0 {
        seq![]
    } else if cells.last().row == r {
        cells_in_row(cells.drop_last(), r).push(cells.last())
    } else {
        cells_in_row(cells.drop_last(), r)
    }
}

/// `x` placed into `s` after every cell whose column is at most `x.col`, which
/// keeps a column-sorted `s` sorted and cells of equal column in arrival order.
pub open spec fn insert_by_col(s: Seq<CellChar>, x: CellChar) -> Seq<CellChar>
    decreases s.len(),
{
    if s.len() == 0 || s.last().col <= x.col {
        s.push(x)
    } else {
        insert_by_col(s.drop_last(), x).push(s.last())
    }
}

/// `s` stably sorted by column.
pub open spec fn sort_by_col(s: Seq<CellChar>) -> Seq<CellChar>
    decreases s.len(),
{
    if s.len() == 0 {
        seq![]
    } else {
        insert_by_col(sort_by_col(s.drop_last()), s.last())
    }
}

/// The cells of row `r`, left to right.
pub open spec fn row_seq(cells: Seq<CellChar>, r: int) -> Seq<CellChar> {
    sort_by_col(cells_in_row(cells, r))
}

/// The UTF-8 encoding of the characters of the row.
pub open spec fn row_bytes(rs: Seq<CellChar>) -> Seq<u8>
    decreases rs.len(),
{
    if rs.len() == 0 {
        seq![]
    } else {
        row_bytes(rs.drop_last()) + encode_scalar(rs.last().c as u32)
    }
}

/// For each byte of `row_bytes(rs)`, the column of the cell it encodes.
pub open spec fn row_cols(rs: Seq<CellChar>) -> Seq<i32>
    decreases rs.len(),
{
    if rs.len() == 0 {
        seq![]
    } else {
        row_cols(rs.drop_last()) + Seq::new(
            encode_scalar(rs.last().c as u32).len(),
            |i: int| rs.last().col,
        )
    }
}

/// The keywords of each keyword kind, as bytes, in the order they are searched.
pub open spec fn keyword_group(kind: HighlightKind) -> Seq<Seq<u8>> {
    match kind {
        // EMERGENCY CRITICAL FATAL PANIC ERROR ERR
        HighlightKind::Error => seq![
            seq![69u8, 77u8, 69u8, 82u8, 71u8, 69u8, 78u8, 67u8, 89u8],
            seq![67u8, 82u8, 73u8, 84u8, 73u8, 67u8, 65u8, 76u8],
            seq![70u8, 65u8, 84u8, 65u8, 76u8],
            seq![80u8, 65u8, 78u8, 73u8, 67u8],
            seq![69u8, 82u8, 82u8, 79u8, 82u8],
            seq![69u8, 82u8, 82u8],
        ],
        // SUCCESS SUCCEEDED PASSED PASS OK
        HighlightKind::Success => seq![
            seq![83u8, 85u8, 67u8, 67u8, 69u8, 83u8, 83u8],
            seq![83u8, 85u8, 67u8, 67u8, 69u8, 69u8, 68u8, 69u8, 68u8],
            seq![80u8, 65u8, 83u8, 83u8, 69u8, 68u8],
            seq![80u8, 65u8, 83u8, 83u8],
            seq![79u8, 75u8],
        ],
        // FAILED FAILURE DENIED REJECTED TIMEOUT FAIL
        HighlightKind::Failure => seq![
            seq![70u8, 65u8, 73u8, 76u8, 69u8, 68u8],
            seq![70u8, 65u8, 73u8, 76u8, 85u8, 82u8, 69u8],
            seq![68u8, 69u8, 78u8, 73u8, 69u8, 68u8],
            seq![82u8, 69u8, 74u8, 69u8, 67u8, 84u8, 69u8, 68u8],
            seq![84u8, 73u8, 77u8, 69u8, 79u8, 85u8, 84u8],
            seq![70u8, 65u8, 73u8, 76u8],
        ],
        // WARNING WARN
        HighlightKind::Warning => seq![
            seq![87u8, 65u8, 82u8, 78u8, 73u8, 78u8, 71u8],
            seq![87u8, 65u8, 82u8, 78u8],
        ],
        // NOTICE INFO
        HighlightKind::Info => seq![
            seq![78u8, 79u8, 84u8, 73u8, 67u8, 69u8],
            seq![73u8, 78u8, 70u8, 79u8],
        ],
        // DEBUG DBG TRACE
        HighlightKind::Debug => seq![
            seq![68u8, 69u8, 66u8, 85u8, 71u8],
            seq![68u8, 66u8, 71u8],
            seq![84u8, 82u8, 65u8, 67u8, 69u8],
        ],
        _ => seq![],
    }
}

/// The keywords of a keyword kind, as bytes (see `keyword_group`).
fn keyword_list(kind: HighlightKind) -> (res: Vec<Vec<u8>>)
    ensures
        res@.len() == keyword_group(kind).len(),
        forall|i: int| 0 <= i < res@.len() ==> #[trigger] res@[i]@ == keyword_group(kind)[i],
{
    let res = match kind {
        // EMERGENCY CRITICAL FATAL PANIC ERROR ERR
        HighlightKind::Error => vec![
            vec![69u8, 77u8, 69u8, 82u8, 71u8, 69u8, 78u8, 67u8, 89u8],
            vec![67u8, 82u8, 73u8, 84u8, 73u8, 67u8, 65u8, 76u8],
            vec![70u8, 65u8, 84u8, 65u8, 76u8],
            vec![80u8, 65u8, 78u8, 73u8, 67u8],
            vec![69u8, 82u8, 82u8, 79u8, 82u8],
            vec![69u8, 82u8, 82u8],
        ],
        // SUCCESS SUCCEEDED PASSED PASS OK
        HighlightKind::Success => vec![
            vec![83u8, 85u8, 67u8, 67u8, 69u8, 83u8, 83u8],
            vec![83u8, 85u8, 67u8, 67u8, 69u8, 69u8, 68u8, 69u8, 68u8],
            vec![80u8, 65u8, 83u8, 83u8, 69u8, 68u8],
            vec![80u8, 65u8, 83u8, 83u8],
            vec![79u8, 75u8],
        ],
        // FAILED FAILURE DENIED REJECTED TIMEOUT FAIL
        HighlightKind::Failure => vec![
            vec![70u8, 65u8, 73u8, 76u8, 69u8, 68u8],
            vec![70u8, 65u8, 73u8, 76u8, 85u8, 82u8, 69u8],
            vec![68u8, 69u8, 78u8, 73u8, 69u8, 68u8],
            vec![82u8, 69u8, 74u8, 69u8, 67u8, 84u8, 69u8, 68u8],
            vec![84u8, 73u8, 77u8, 69u8, 79u8, 85u8, 84u8],
            vec![70u8, 65u8, 73u8, 76u8],
        ],
        // WARNING WARN
        HighlightKind::Warning => vec![
            vec![87u8, 65u8, 82u8, 78u8, 73u8, 78u8, 71u8],
            vec![87u8, 65u8, 82u8, 78u8],
        ],
        // NOTICE INFO
        HighlightKind::Info => vec![
            vec![78u8, 79u8, 84u8, 73u8, 67u8, 69u8],
            vec![73u8, 78u8, 70u8, 79u8],
        ],
        // DEBUG DBG TRACE
        HighlightKind::Debug => vec![
            vec![68u8, 69u8, 66u8, 85u8, 71u8],
            vec![68u8, 66u8, 71u8],
            vec![84u8, 82u8, 65u8, 67u8, 69u8],
        ],
        _ => Vec::new(),
    };
    assert(forall|i: int| 0 <= i < res@.len() ==> #[trigger] res@[i]@ == keyword_group(kind)[i]);
    res
}

// ---------------------------------------------------------------------------
// Building a row
// ---------------------------------------------------------------------------

proof fn lemma_insert_by_col(s: Seq<CellChar>, x: CellChar, k: int)
    requires
        0 <= k <= s.len(),
        forall|i: int| k <= i < s.len() ==> s[i].col > x.col,
        k == 0 || s[k - 1].col <= x.col,
    ensures
        insert_by_col(s, x) == s.insert(k, x),
    decreases s.len(),
{
    if k == s.len() {
        assert(s.push(x) =~= s.insert(k, x));
    } else {
        lemma_insert_by_col(s.drop_last(), x, k);
        assert(s.drop_last().insert(k, x).push(s.last()) =~= s.insert(k, x));
    }
}

/// The cells of row `r`, stably sorted by column.
fn row_cells(cells: &[CellChar], r: i32) -> (res: Vec<CellChar>)
    ensures
        res@ == row_seq(cells@, r as int),
{
    let n = cells.len();
    let mut v: Vec<CellChar> = Vec::new();
    let mut i: usize = 0;
    while i < n
        invariant
            i <= n,
            n == cells@.len(),
            v@ == sort_by_col(cells_in_row(cells@.take(i as int), r as int)),
        decreases n - i,
    {
        let x = cells[i];
        assert(cells@.take(i + 1).drop_last() =~= cells@.take(i as int));
        assert(cells@.take(i + 1).last() == x);
        if x.row == r {
            let ghost pre = v@;
            let mut k = v.len();
            while k > 0 && v[k - 1].col > x.col
                invariant
                    k <= v@.len(),
                    v@ == pre,
                    forall|t: int| k <= t < v@.len() ==> v@[t].col > x.col,
                decreases k,
            {
                k = k - 1;
            }
            proof {
                lemma_insert_by_col(pre, x, k as int);
                let c = cells_in_row(cells@.take(i as int), r as int);
                assert(cells_in_row(cells@.take(i + 1), r as int) == c.push(x));
                assert(c.push(x).drop_last() =~= c);
            }
            v.insert(k, x);
        }
        i = i + 1;
    }
    assert(cells@.take(n as int) =~= cells@);
    v
}

/// The UTF-8 encoding of `c`.
fn utf8_of(c: char) -> (res: Vec<u8>)
    ensures
        res@ == encode_scalar(c as u32),
{
    let x = c as u32;
    if x <= 0x7F {
        vec![(x & 0x7F) as u8]
    } else if x <= 0x7FF {
        vec![0xC0u8 | ((x >> 6) & 0x1F) as u8, 0x80u8 | (x & 0x3F) as u8]
    } else if x <= 0xFFFF && !(0xD800 <= x && x <= 0xDFFF) {
        vec![
            0xE0u8 | ((x >> 12) & 0x0F) as u8,
            0x80u8 | ((x >> 6) & 0x3F) as u8,
            0x80u8 | (x & 0x3F) as u8,
        ]
    } else {
        vec![
            0xF0u8 | ((x >> 18) & 0x7) as u8,
            0x80u8 | ((x >> 12) & 0x3F) as u8,
            0x80u8 | ((x >> 6) & 0x3F) as u8,
            0x80u8 | (x & 0x3F) as u8,
        ]
    }
}

/// The bytes of a row's text and, for each byte, the column of its cell.
fn row_text(rs: &Vec<CellChar>) -> (res: (Vec<u8>, Vec<i32>))
    ensures
        res.0@ == row_bytes(rs@),
        res.1@ == row_cols(rs@),
        res.0@.len() == res.1@.len(),
        rs@.len() > 0 ==> res.0@.len() > 0,
{
    let n = rs.len();
    let mut bytes: Vec<u8> = Vec::new();
    let mut cols: Vec<i32> = Vec::new();
    let mut i: usize = 0;
    while i < n
        invariant
            i <= n,
            n == rs@.len(),
            bytes@ == row_bytes(rs@.take(i as int)),
            cols@ == row_cols(rs@.take(i as int)),
            bytes@.len() == cols@.len(),
            i > 0 ==> bytes@.len() > 0,
        decreases n - i,
    {
        let cell = rs[i];
        let enc = utf8_of(cell.c);
        let ghost b0 = bytes@;
        let ghost c0 = cols@;
        let m = enc.len();
        let mut j: usize = 0;
        while j < m
            invariant
                j <= m,
                m == enc@.len(),
                bytes@ == b0 + enc@.take(j as int),
                cols@ == c0 + Seq::new(j as nat, |t: int| cell.col),
            decreases m - j,
        {
            assert(enc@.take(j + 1) =~= enc@.take(j as int).push(enc@[j as int]));
            bytes.push(enc[j]);
            assert(Seq::new((j + 1) as nat, |t: int| cell.col) =~= Seq::new(
                j as nat,
                |t: int| cell.col,
            ).push(cell.col));
            cols.push(cell.col);
            j = j + 1;
        }
        proof {
            let t = rs@.take(i + 1);
            assert(t.drop_last() =~= rs@.take(i as int));
            assert(t.last() == cell);
            assert(enc@.take(m as int) =~= enc@);
            assert(enc@.len() > 0);
        }
        i = i + 1;
    }
    assert(rs@.take(n as int) =~= rs@);
    (bytes, cols)
}


// ---------------------------------------------------------------------------
// Spans of a row
// ---------------------------------------------------------------------------

/// A highlighted stretch of a row: first byte, last byte (inclusive) and kind.
pub type SpanView = (int, int, HighlightKind);

/// The last byte a match of `len` bytes at `m` colours: the byte just after the
/// match, or the row's last byte when the match reaches the end.
pub open spec fn span_end(b: Seq<u8>, m: int, len: int) -> int {
    if m + len < b.len() - 1 {
        m + len
    } else {
        b.len() - 1
    }
}

/// The spans of the whole-word occurrences of `kw`.
pub open spec fn keyword_spans(b: Seq<u8>, kw: Seq<u8>, kind: HighlightKind) -> Seq<SpanView> {
    keyword_scan(b, kw, 0).map_values(|m: int| (m, span_end(b, m, kw.len() as int), kind))
}

/// The spans of a list of keywords, keyword after keyword.
pub open spec fn group_spans(b: Seq<u8>, kws: Seq<Seq<u8>>, kind: HighlightKind) -> Seq<SpanView>
    decreases kws.len(),
{
    if kws.len() == 0 {
        seq![]
    } else {
        group_spans(b, kws.drop_last(), kind) + keyword_spans(b, kws.last(), kind)
    }
}

/// The spans of the IPv4 addresses.
pub open spec fn ip_spans(b: Seq<u8>) -> Seq<SpanView> {
    positions_from(b.len() as int, 0, |i: int| ip_start(b, i)).map_values(
        |m: int| (m, span_end(b, m, ip_len_of(b.skip(m))), HighlightKind::Network),
    )
}

/// The spans of the URLs.
pub open spec fn url_spans(b: Seq<u8>) -> Seq<SpanView> {
    positions_from(b.len() as int, 0, |i: int| url_start(b, i)).map_values(
        |m: int| (m, span_end(b, m, ws_index(b.skip(m), 0)), HighlightKind::Url),
    )
}

/// The spans of the ports.
pub open spec fn port_spans(b: Seq<u8>) -> Seq<SpanView> {
    positions_from(b.len() as int, 0, |i: int| port_start(b, i)).map_values(
        |m: int| (m, span_end(b, m, port_len_of(b.skip(m))), HighlightKind::Port),
    )
}

/// Every span of a row, in priority order: error, success, failure, warning, info
/// and debug keywords, then addresses, URLs and ports.
pub open spec fn row_spans(b: Seq<u8>) -> Seq<SpanView> {
    group_spans(b, keyword_group(HighlightKind::Error), HighlightKind::Error) + group_spans(
        b,
        keyword_group(HighlightKind::Success),
        HighlightKind::Success,
    ) + group_spans(b, keyword_group(HighlightKind::Failure), HighlightKind::Failure)
        + group_spans(b, keyword_group(HighlightKind::Warning), HighlightKind::Warning)
        + group_spans(b, keyword_group(HighlightKind::Info), HighlightKind::Info) + group_spans(
        b,
        keyword_group(HighlightKind::Debug),
        HighlightKind::Debug,
    ) + ip_spans(b) + url_spans(b) + port_spans(b)
}

/// The span covers column `c`: `c` lies between the columns of its first and last byte.
pub open spec fn covers(sp: SpanView, cols: Seq<i32>, c: int) -> bool {
    cols[sp.0] <= c <= cols[sp.1]
}

/// The kind of the first span that covers column `c`, if any.
pub open spec fn first_cover(spans: Seq<SpanView>, cols: Seq<i32>, c: int) -> Option<HighlightKind>
    decreases spans.len(),
{
    if spans.len() == 0 {
        None
    } else {
        match first_cover(spans.drop_last(), cols, c) {
            Some(k) => Some(k),
            None => if covers(spans.last(), cols, c) {
                Some(spans.last().2)
            } else {
                None
            },
        }
    }
}

/// How a match's length is found.
enum LenRule {
    Fixed(usize),
    Ip,
    Url,
    Port,
}

spec fn rule_len(rule: LenRule, b: Seq<u8>, m: int) -> int {
    match rule {
        LenRule::Fixed(l) => l as int,
        LenRule::Ip => ip_len_of(b.skip(m)),
        LenRule::Url => ws_index(b.skip(m), 0),
        LenRule::Port => port_len_of(b.skip(m)),
    }
}

spec fn spans_view(v: Seq<(usize, usize, HighlightKind)>) -> Seq<SpanView> {
    v.map_values(|t: (usize, usize, HighlightKind)| (t.0 as int, t.1 as int, t.2))
}

/// Every span starts and ends at a byte of a row of `n` bytes.
spec fn spans_within(v: Seq<(usize, usize, HighlightKind)>, n: int) -> bool {
    forall|j: int| 0 <= j < v.len() ==> #[trigger] v[j].0 < n && v[j].1 < n
}

spec fn spans_of(b: Seq<u8>, pos: Seq<int>, rule: LenRule, kind: HighlightKind) -> Seq<SpanView> {
    pos.map_values(|m: int| (m, span_end(b, m, rule_len(rule, b, m)), kind))
}

/// Appends the spans of matches at `pos`, each `rule` long, to `spans`.
fn push_spans(
    spans: &mut Vec<(usize, usize, HighlightKind)>,
    b: &[u8],
    pos: &Vec<usize>,
    rule: LenRule,
    kind: HighlightKind,
)
    requires
        b@.len() > 0,
        forall|j: int|
            0 <= j < pos@.len() ==> pos@[j] < b@.len() && #[trigger] pos@[j] + rule_len(
                rule,
                b@,
                pos@[j] as int,
            ) <= b@.len(),
    ensures
        spans_view(final(spans)@) == spans_view(old(spans)@) + spans_of(b@, as_ints(pos@), rule, kind),
        spans_within(old(spans)@, b@.len() as int) ==> spans_within(final(spans)@, b@.len() as int),
{
    let ghost base = spans_view(spans@);
    let n = b.len();
    let k = pos.len();
    let mut i: usize = 0;
    while i < k
        invariant
            i <= k,
            k == pos@.len(),
            n == b@.len(),
            n > 0,
            forall|j: int|
                0 <= j < pos@.len() ==> pos@[j] < b@.len() && #[trigger] pos@[j] + rule_len(
                    rule,
                    b@,
                    pos@[j] as int,
                ) <= b@.len(),
            spans_view(spans@) == base + spans_of(b@, as_ints(pos@), rule, kind).take(i as int),
            spans_within(old(spans)@, n as int) ==> spans_within(spans@, n as int),
        decreases k - i,
    {
        let m = pos[i];
        let len = match rule {
            LenRule::Fixed(l) => l,
            LenRule::Ip => ip_len_at(b, m),
            LenRule::Url => url_len_at(b, m),
            LenRule::Port => port_len_at(b, m),
        };
        assert(len == rule_len(rule, b@, m as int));
        let end = if m + len < n - 1 {
            m + len
        } else {
            n - 1
        };
        let ghost before = spans@;
        spans.push((m, end, kind));
        proof {
            let whole = spans_of(b@, as_ints(pos@), rule, kind);
            assert(whole[i as int] == (m as int, end as int, kind));
            assert(whole.take(i + 1) =~= whole.take(i as int).push(whole[i as int]));
            assert(spans_view(spans@) =~= spans_view(before).push((m as int, end as int, kind)));
        }
        i = i + 1;
    }
    assert(spans_of(b@, as_ints(pos@), rule, kind).take(k as int) =~= spans_of(
        b@,
        as_ints(pos@),
        rule,
        kind,
    ));
}


/// Appends the spans of a keyword kind's keywords to `spans`.
fn push_group_spans(spans: &mut Vec<(usize, usize, HighlightKind)>, b: &[u8], kind: HighlightKind)
    requires
        b@.len() > 0,
    ensures
        spans_view(final(spans)@) == spans_view(old(spans)@) + group_spans(b@, keyword_group(kind), kind),
        spans_within(old(spans)@, b@.len() as int) ==> spans_within(final(spans)@, b@.len() as int),
{
    let kws = keyword_list(kind);
    let ghost base = spans_view(spans@);
    let ghost g = keyword_group(kind);
    let k = kws.len();
    let mut i: usize = 0;
    while i < k
        invariant
            i <= k,
            k == kws@.len(),
            g == keyword_group(kind),
            kws@.len() == g.len(),
            forall|j: int| 0 <= j < kws@.len() ==> #[trigger] kws@[j]@ == g[j],
            b@.len() > 0,
            spans_view(spans@) == base + group_spans(b@, g.take(i as int), kind),
            spans_within(old(spans)@, b@.len() as int) ==> spans_within(spans@, b@.len() as int),
        decreases k - i,
    {
        let kw = &kws[i];
        assert(kw@ == g[i as int]);
        assert(g.take(i + 1).drop_last() =~= g.take(i as int));
        assert(g.take(i + 1).last() == kw@);
        if kw.len() == 0 {
            assert(keyword_spans(b@, kw@, kind) =~= seq![]);
            assert(group_spans(b@, g.take(i + 1), kind) =~= group_spans(b@, g.take(i as int), kind));
        } else {
            let pos = keyword_positions(b, kw.as_slice());
            proof {
                lemma_keyword_scan(b@, kw@, 0);
                assert forall|j: int| 0 <= j < pos@.len() implies pos@[j] < b@.len() && #[trigger] pos@[j]
                    + rule_len(LenRule::Fixed(kw.len()), b@, pos@[j] as int) <= b@.len() by {
                    assert(as_ints(pos@)[j] == pos@[j] as int);
                    assert(matches_at(b@, kw@, keyword_scan(b@, kw@, 0)[j]));
                }
            }
            push_spans(spans, b, &pos, LenRule::Fixed(kw.len()), kind);
            assert(spans_of(b@, as_ints(pos@), LenRule::Fixed(kw.len()), kind) =~= keyword_spans(
                b@,
                kw@,
                kind,
            ));
        }
        i = i + 1;
    }
    assert(g.take(k as int) =~= g);
}

proof fn lemma_positions_valid(n: int, p: spec_fn(int) -> bool, pos: Seq<usize>)
    requires
        as_ints(pos) == positions_from(n, 0, p),
    ensures
        forall|j: int| 0 <= j < pos.len() ==> 0 <= #[trigger] pos[j] < n && p(pos[j] as int),
{
    lemma_positions_from(n, 0, p);
    assert forall|j: int| 0 <= j < pos.len() implies 0 <= #[trigger] pos[j] < n && p(
        pos[j] as int,
    ) by {
        assert(as_ints(pos)[j] == pos[j] as int);
        assert(positions_from(n, 0, p).contains(pos[j] as int));
    }
}

/// Every span of a row's bytes, in priority order (see `row_spans`).
fn spans_of_row(b: &[u8]) -> (res: Vec<(usize, usize, HighlightKind)>)
    requires
        b@.len() > 0,
    ensures
        spans_view(res@) == row_spans(b@),
        spans_within(res@, b@.len() as int),
{
    let mut spans: Vec<(usize, usize, HighlightKind)> = Vec::new();
    assert(spans_view(spans@) =~= seq![]);
    push_group_spans(&mut spans, b, HighlightKind::Error);
    push_group_spans(&mut spans, b, HighlightKind::Success);
    push_group_spans(&mut spans, b, HighlightKind::Failure);
    push_group_spans(&mut spans, b, HighlightKind::Warning);
    push_group_spans(&mut spans, b, HighlightKind::Info);
    push_group_spans(&mut spans, b, HighlightKind::Debug);
    let n = b.len();
    let ips = ip_positions(b);
    proof {
        lemma_positions_valid(n as int, |i: int| ip_start(b@, i), ips@);
        assert forall|j: int| 0 <= j < ips@.len() implies ips@[j] < b@.len() && #[trigger] ips@[j]
            + rule_len(LenRule::Ip, b@, ips@[j] as int) <= b@.len() by {
            assert(ip_start(b@, ips@[j] as int));
            crate::scan::lemma_ip_len_bounded(b@.skip(ips@[j] as int));
        }
    }
    push_spans(&mut spans, b, &ips, LenRule::Ip, HighlightKind::Network);
    assert(spans_of(b@, as_ints(ips@), LenRule::Ip, HighlightKind::Network) =~= ip_spans(b@));
    let urls = url_positions(b);
    proof {
        lemma_positions_valid(n as int, |i: int| url_start(b@, i), urls@);
        assert forall|j: int| 0 <= j < urls@.len() implies urls@[j] < b@.len() && #[trigger] urls@[j]
            + rule_len(LenRule::Url, b@, urls@[j] as int) <= b@.len() by {
            crate::scan::lemma_ws_index_bounded(b@.skip(urls@[j] as int), 0);
        }
    }
    push_spans(&mut spans, b, &urls, LenRule::Url, HighlightKind::Url);
    assert(spans_of(b@, as_ints(urls@), LenRule::Url, HighlightKind::Url) =~= url_spans(b@));
    let ports = port_positions(b);
    proof {
        lemma_positions_valid(n as int, |i: int| port_start(b@, i), ports@);
        assert forall|j: int| 0 <= j < ports@.len() implies ports@[j] < b@.len() && #[trigger] ports@[j]
            + rule_len(LenRule::Port, b@, ports@[j] as int) <= b@.len() by {
            crate::scan::lemma_port_len_bounded(b@.skip(ports@[j] as int));
        }
    }
    push_spans(&mut spans, b, &ports, LenRule::Port, HighlightKind::Port);
    assert(spans_of(b@, as_ints(ports@), LenRule::Port, HighlightKind::Port) =~= port_spans(b@));
    assert(spans_view(spans@) =~= row_spans(b@));
    spans
}


// ---------------------------------------------------------------------------
// Colouring
// ---------------------------------------------------------------------------

/// `v` lists each column that `f` colours exactly once, with the kind `f` gives it.
pub open spec fn describes_row(
    v: Seq<(i32, HighlightKind)>,
    f: spec_fn(int) -> Option<HighlightKind>,
) -> bool {
    &&& forall|a: int, b: int| 0 <= a < b < v.len() ==> v[a].0 != v[b].0
    &&& forall|j: int| 0 <= j < v.len() ==> f(#[trigger] v[j].0 as int) == Some(v[j].1)
    &&& forall|c: int| #[trigger] f(c) is Some ==> exists|j: int| 0 <= j < v.len() && v[j].0 == c
}

/// `v` lists each cell that `f` colours exactly once, with the kind `f` gives it.
pub open spec fn describes_grid(
    v: Seq<(i32, i32, HighlightKind)>,
    f: spec_fn(int, int) -> Option<HighlightKind>,
) -> bool {
    &&& forall|a: int, b: int| 0 <= a < b < v.len() ==> (v[a].0, v[a].1) != (v[b].0, v[b].1)
    &&& forall|j: int| 0 <= j < v.len() ==> f(#[trigger] v[j].0 as int, v[j].1 as int) == Some(v[j].2)
    &&& forall|r: int, c: int| #[trigger] f(r, c) is Some ==> exists|j: int|
        0 <= j < v.len() && v[j].0 == r && v[j].1 == c
}

/// The kind of cell `(r, c)` on a screen of `rows` rows: the kind of the first span
/// of row `r` that covers column `c`, if any.
#[verifier::opaque]
pub open spec fn highlight_at(cells: Seq<CellChar>, rows: int, r: int, c: int) -> Option<
    HighlightKind,
> {
    let rs = row_seq(cells, r);
    if 0 <= r < rows && rs.len() > 0 {
        first_cover(row_spans(row_bytes(rs)), row_cols(rs), c)
    } else {
        None
    }
}

fn has_col(v: &Vec<(i32, HighlightKind)>, c: i32) -> (res: bool)
    ensures
        res == exists|j: int| 0 <= j < v@.len() && v@[j].0 == c,
{
    let n = v.len();
    let mut i: usize = 0;
    while i < n
        invariant
            i <= n,
            n == v@.len(),
            forall|j: int| 0 <= j < i ==> v@[j].0 != c,
        decreases n - i,
    {
        if v[i].0 == c {
            return true;
        }
        i = i + 1;
    }
    false
}

/// The columns the spans colour: each column gets the kind of the first span covering it.
fn apply_spans(cols: &Vec<i32>, spans: &Vec<(usize, usize, HighlightKind)>) -> (res: Vec<
    (i32, HighlightKind),
>)
    requires
        spans_within(spans@, cols@.len() as int),
    ensures
        describes_row(res@, |c: int| first_cover(spans_view(spans@), cols@, c)),
{
    let ghost sv = spans_view(spans@);
    let k = spans.len();
    let mut res: Vec<(i32, HighlightKind)> = Vec::new();
    let mut t: usize = 0;
    while t < k
        invariant
            t <= k,
            k == spans@.len(),
            sv == spans_view(spans@),
            spans_within(spans@, cols@.len() as int),
            describes_row(res@, |c: int| first_cover(sv.take(t as int), cols@, c)),
        decreases k - t,
    {
        let (s, e, kind) = spans[t];
        let lo = cols[s] as i64;
        let hi = cols[e] as i64;
        let ghost f0 = |x: int| first_cover(sv.take(t as int), cols@, x);
        let mut c: i64 = lo;
        while c <= hi
            invariant
                lo <= c,
                c <= hi + 1 || c == lo,
                i32::MIN <= lo,
                hi <= i32::MAX,
                f0 == (|x: int| first_cover(sv.take(t as int), cols@, x)),
                describes_row(
                    res@,
                    |x: int|
                        match f0(x) {
                            Some(q) => Some(q),
                            None => if lo <= x < c {
                                Some(kind)
                            } else {
                                None
                            },
                        },
                ),
            decreases hi + 1 - c,
        {
            let ghost g = |x: int|
                match f0(x) {
                    Some(q) => Some(q),
                    None => if lo <= x < c {
                        Some(kind)
                    } else {
                        None
                    },
                };
            let ghost g2 = |x: int|
                match f0(x) {
                    Some(q) => Some(q),
                    None => if lo <= x < c + 1 {
                        Some(kind)
                    } else {
                        None
                    },
                };
            let ci = c as i32;
            if !has_col(&res, ci) {
                let ghost old_res = res@;
                res.push((ci, kind));
                proof {
                    assert(g(c as int) is None);
                    assert forall|a: int, b: int| 0 <= a < b < res@.len() implies res@[a].0
                        != res@[b].0 by {
                        if b == res@.len() - 1 {
                            assert(old_res[a].0 != ci);
                        }
                    }
                    assert forall|j: int| 0 <= j < res@.len() implies g2(
                        #[trigger] res@[j].0 as int,
                    ) == Some(res@[j].1) by {
                        if j < old_res.len() {
                            assert(res@[j] == old_res[j]);
                            assert(g(old_res[j].0 as int) == Some(old_res[j].1));
                        }
                    }
                    assert forall|x: int| #[trigger] g2(x) is Some implies exists|j: int|
                        0 <= j < res@.len() && res@[j].0 == x by {
                        if x == c {
                            assert(res@[res@.len() - 1].0 == x);
                        } else {
                            assert(g(x) is Some);
                            let j = choose|j: int| 0 <= j < old_res.len() && old_res[j].0 == x;
                            assert(res@[j] == old_res[j]);
                        }
                    }
                }
            } else {
                proof {
                    let j0 = choose|j: int| 0 <= j < res@.len() && res@[j].0 == ci;
                    assert(g(res@[j0].0 as int) == Some(res@[j0].1));
                    assert forall|j: int| 0 <= j < res@.len() implies g2(
                        #[trigger] res@[j].0 as int,
                    ) == Some(res@[j].1) by {
                        assert(g(res@[j].0 as int) == Some(res@[j].1));
                    }
                    assert forall|x: int| #[trigger] g2(x) is Some implies exists|j: int|
                        0 <= j < res@.len() && res@[j].0 == x by {
                        if x == c {
                            assert(res@[j0].0 == x);
                        } else {
                            assert(g(x) is Some);
                        }
                    }
                }
            }
            c = c + 1;
        }
        proof {
            let f1 = |x: int| first_cover(sv.take(t + 1), cols@, x);
            let g = |x: int|
                match f0(x) {
                    Some(q) => Some(q),
                    None => if lo <= x < c {
                        Some(kind)
                    } else {
                        None
                    },
                };
            assert(sv.take(t + 1).drop_last() =~= sv.take(t as int));
            assert(sv.take(t + 1).last() == (s as int, e as int, kind));
            assert forall|x: int| #[trigger] f1(x) == g(x) by {
                assert(first_cover(sv.take(t + 1), cols@, x) == match first_cover(
                    sv.take(t as int),
                    cols@,
                    x,
                ) {
                    Some(q) => Some(q),
                    None => if covers(sv.take(t + 1).last(), cols@, x) {
                        Some(kind)
                    } else {
                        None
                    },
                });
            }
            assert(f1 =~= g);
        }
        t = t + 1;
    }
    assert(sv.take(k as int) =~= sv);
    res
}

/// Adds row `r`'s coloured columns to the grid listing.
fn append_row(
    res: &mut Vec<(i32, i32, HighlightKind)>,
    r: i32,
    row_map: &Vec<(i32, HighlightKind)>,
    Ghost(h): Ghost<spec_fn(int, int) -> Option<HighlightKind>>,
    Ghost(f): Ghost<spec_fn(int) -> Option<HighlightKind>>,
)
    requires
        describes_grid(
            old(res)@,
            |row: int, c: int|
                if row < r {
                    h(row, c)
                } else {
                    None
                },
        ),
        describes_row(row_map@, f),
    ensures
        describes_grid(
            final(res)@,
            |row: int, c: int|
                if row < r {
                    h(row, c)
                } else if row == r {
                    f(c)
                } else {
                    None
                },
        ),
{
    let m = row_map.len();
    let mut j: usize = 0;
    proof {
        let g0 = |row: int, c: int|
            if row < r {
                h(row, c)
            } else if row == r && exists|q: int| 0 <= q < 0 && row_map@[q].0 == c {
                f(c)
            } else {
                None
            };
        let g = |row: int, c: int|
            if row < r {
                h(row, c)
            } else {
                None
            };
        assert forall|row: int, c: int| #[trigger] g0(row, c) == g(row, c) by {}
        assert(g0 =~= g);
    }
    while j < m
        invariant
            j <= m,
            m == row_map@.len(),
            describes_row(row_map@, f),
            describes_grid(
                res@,
                |row: int, c: int|
                    if row < r {
                        h(row, c)
                    } else if row == r && exists|q: int| 0 <= q < j && row_map@[q].0 == c {
                        f(c)
                    } else {
                        None
                    },
            ),
        decreases m - j,
    {
        let (c, kind) = row_map[j];
        let ghost old_res = res@;
        let ghost gj = |row: int, c: int|
            if row < r {
                h(row, c)
            } else if row == r && exists|q: int| 0 <= q < j && row_map@[q].0 == c {
                f(c)
            } else {
                None
            };
        let ghost gj1 = |row: int, c: int|
            if row < r {
                h(row, c)
            } else if row == r && exists|q: int| 0 <= q < j + 1 && row_map@[q].0 == c {
                f(c)
            } else {
                None
            };
        res.push((r, c, kind));
        proof {
            assert(f(c as int) == Some(kind));
            assert(gj(r as int, c as int) is None) by {
                if exists|q: int| 0 <= q < j && row_map@[q].0 == c {
                    let q = choose|q: int| 0 <= q < j && row_map@[q].0 == c;
                    assert(row_map@[q].0 != row_map@[j as int].0);
                }
            }
            assert forall|a: int, b: int| 0 <= a < b < res@.len() implies (res@[a].0, res@[a].1) != (
                res@[b].0,
                res@[b].1,
            ) by {
                if b == res@.len() - 1 {
                    assert(gj(old_res[a].0 as int, old_res[a].1 as int) == Some(old_res[a].2));
                }
            }
            assert forall|i: int| 0 <= i < res@.len() implies gj1(
                #[trigger] res@[i].0 as int,
                res@[i].1 as int,
            ) == Some(res@[i].2) by {
                if i < old_res.len() {
                    assert(res@[i] == old_res[i]);
                    assert(gj(old_res[i].0 as int, old_res[i].1 as int) == Some(old_res[i].2));
                } else {
                    assert(row_map@[j as int].0 == c);
                }
            }
            assert forall|row: int, x: int| #[trigger] gj1(row, x) is Some implies exists|i: int|
                0 <= i < res@.len() && res@[i].0 == row && res@[i].1 == x by {
                if row == r && x == c {
                    assert(res@[res@.len() - 1].0 == row && res@[res@.len() - 1].1 == x);
                } else {
                    if row == r {
                        let q = choose|q: int| 0 <= q < j + 1 && row_map@[q].0 == x;
                        assert(q < j);
                    }
                    assert(gj(row, x) is Some);
                    let i = choose|i: int|
                        0 <= i < old_res.len() && old_res[i].0 == row && old_res[i].1 == x;
                    assert(res@[i] == old_res[i]);
                }
            }
            assert(gj1 =~= (|row: int, c: int|
                if row < r {
                    h(row, c)
                } else if row == r && exists|q: int| 0 <= q < j + 1 && row_map@[q].0 == c {
                    f(c)
                } else {
                    None
                }));
        }
        j = j + 1;
    }
    proof {
        let gm = |row: int, c: int|
            if row < r {
                h(row, c)
            } else if row == r && exists|q: int| 0 <= q < m && row_map@[q].0 == c {
                f(c)
            } else {
                None
            };
        let want = |row: int, c: int|
            if row < r {
                h(row, c)
            } else if row == r {
                f(c)
            } else {
                None
            };
        assert forall|row: int, c: int| #[trigger] gm(row, c) == want(row, c) by {
            if row == r && f(c) is Some {
                let q = choose|q: int| 0 <= q < row_map@.len() && row_map@[q].0 == c;
                assert(0 <= q < m && row_map@[q].0 == c);
            }
        }
        assert(gm =~= want);
    }
}

/// The coloured columns of row `r` (see `highlight_at`).
fn row_highlights(cells: &[CellChar], rows: usize, r: usize) -> (res: Vec<(i32, HighlightKind)>)
    requires
        r < rows,
        r <= 2147483647,
    ensures
        describes_row(res@, |c: int| highlight_at(cells@, rows as int, r as int, c)),
{
    let rs = row_cells(cells, r as i32);
    if rs.len() == 0 {
        let res: Vec<(i32, HighlightKind)> = Vec::new();
        proof {
            reveal(highlight_at);
        }
        return res;
    }
    let (bytes, cols) = row_text(&rs);
    let spans = spans_of_row(bytes.as_slice());
    let row_map = apply_spans(&cols, &spans);
    proof {
        reveal(highlight_at);
        let f = |c: int| first_cover(spans_view(spans@), cols@, c);
        let h = |c: int| highlight_at(cells@, rows as int, r as int, c);
        assert forall|c: int| #[trigger] f(c) == h(c) by {}
        assert(f =~= h);
    }
    row_map
}

/// The highlighted cells of a screen of `rows` rows: for every coloured cell one
/// entry `(row, column, kind)`.
///
/// Each row's characters, in column order, form a line of text. In that line the
/// error, success, failure, warning, info and debug keywords (as whole words), the
/// IPv4 addresses, the URLs and the ports are found, in that order; each match
/// colours the columns from its first byte through the byte after it (or the
/// last byte of the line), and a column keeps the kind of the first match that
/// reaches it.
pub fn highlight_cells(cells: &[CellChar], rows: usize) -> (res: Vec<(i32, i32, HighlightKind)>)
    ensures
        describes_grid(res@, |r: int, c: int| highlight_at(cells@, rows as int, r, c)),
{
    let ghost h = |r: int, c: int| highlight_at(cells@, rows as int, r, c);
    let mut res: Vec<(i32, i32, HighlightKind)> = Vec::new();
    let mut r: usize = 0;
    proof {
        reveal(highlight_at);
    }
    while r < rows && r <= 2147483647
        invariant
            r <= rows,
            r <= 2147483648,
            h == (|r: int, c: int| highlight_at(cells@, rows as int, r, c)),
            describes_grid(
                res@,
                |row: int, c: int|
                    if row < r {
                        h(row, c)
                    } else {
                        None
                    },
            ),
        decreases rows - r,
    {
        let ghost g2 = |row: int, c: int|
            if row < r + 1 {
                h(row, c)
            } else {
                None
            };
        let row_map = row_highlights(cells, rows, r);
        let ghost f = |c: int| h(r as int, c);
        assert(f =~= (|c: int| highlight_at(cells@, rows as int, r as int, c)));
        append_row(&mut res, r as i32, &row_map, Ghost(h), Ghost(f));
        proof {
            let gm = |row: int, c: int|
                if row < r {
                    h(row, c)
                } else if row == r {
                    f(c)
                } else {
                    None
                };
            assert forall|row: int, c: int| #[trigger] gm(row, c) == g2(row, c) by {}
            assert(gm =~= g2);
        }
        r = r + 1;
    }
    proof {
        let g = |row: int, c: int|
            if row < r {
                h(row, c)
            } else {
                None
            };
        assert forall|row: int, c: int| #[trigger] g(row, c) == h(row, c) by {
            reveal(highlight_at);
            if row >= r && r < rows {
                lemma_cells_in_row_empty(cells@, row);
            }
        }
        assert(g =~= h);
    }
    res
}

proof fn lemma_cells_in_row_empty(cells: Seq<CellChar>, r: int)
    requires
        r > 2147483647,
    ensures
        cells_in_row(cells, r).len() == 0,
    decreases cells.len(),
{
    if cells.len() > 0 {
        lemma_cells_in_row_empty(cells.drop_last(), r);
    }
}

// ---------------------------------------------------------------------------
// Priority of the rules
// ---------------------------------------------------------------------------

/// The first span of `a + b` that covers `c` is the first in `a`, or else the first in `b`.
proof fn lemma_first_cover_append(a: Seq<SpanView>, b: Seq<SpanView>, cols: Seq<i32>, c: int)
    ensures
        first_cover(a + b, cols, c) == (match first_cover(a, cols, c) {
            Some(k) => Some(k),
            None => first_cover(b, cols, c),
        }),
    decreases b.len(),
{
    if b.len() == 0 {
        assert(a + b =~= a);
    } else {
        lemma_first_cover_append(a, b.drop_last(), cols, c);
        assert((a + b).drop_last() =~= a + b.drop_last());
        assert((a + b).last() == b.last());
    }
}

/// Where every span has kind `k`, the first cover, if any, is `k`.
proof fn lemma_first_cover_kind(s: Seq<SpanView>, cols: Seq<i32>, c: int, k: HighlightKind)
    requires
        forall|i: int| 0 <= i < s.len() ==> #[trigger] s[i].2 == k,
    ensures
        first_cover(s, cols, c) is None || first_cover(s, cols, c) == Some(k),
    decreases s.len(),
{
    if s.len() > 0 {
        let d = s.drop_last();
        assert forall|i: int| 0 <= i < d.len() implies #[trigger] d[i].2 == k by {
            assert(d[i] == s[i]);
        }
        lemma_first_cover_kind(d, cols, c, k);
        assert(s.last() == s[s.len() - 1]);
    }
}

/// Where every span has kind `k` and the `j`-th covers `c`, the first cover is `k`.
proof fn lemma_first_cover_uniform(s: Seq<SpanView>, cols: Seq<i32>, c: int, k: HighlightKind, j: int)
    requires
        forall|i: int| 0 <= i < s.len() ==> #[trigger] s[i].2 == k,
        0 <= j < s.len(),
        covers(s[j], cols, c),
    ensures
        first_cover(s, cols, c) == Some(k),
    decreases s.len(),
{
    let d = s.drop_last();
    assert forall|i: int| 0 <= i < d.len() implies #[trigger] d[i].2 == k by {
        assert(d[i] == s[i]);
    }
    if j < s.len() - 1 {
        assert(d[j] == s[j]);
        lemma_first_cover_uniform(d, cols, c, k, j);
    } else {
        lemma_first_cover_kind(d, cols, c, k);
        assert(s.last() == s[j]);
    }
}

/// Every span of a keyword group has the group's kind.
proof fn lemma_group_spans_kind(b: Seq<u8>, kws: Seq<Seq<u8>>, kind: HighlightKind)
    ensures
        forall|i: int|
            0 <= i < group_spans(b, kws, kind).len() ==> #[trigger] group_spans(b, kws, kind)[i].2
                == kind,
    decreases kws.len(),
{
    if kws.len() > 0 {
        lemma_group_spans_kind(b, kws.drop_last(), kind);
        let a = group_spans(b, kws.drop_last(), kind);
        let d = keyword_spans(b, kws.last(), kind);
        assert forall|i: int| 0 <= i < (a + d).len() implies #[trigger] (a + d)[i].2 == kind by {
            if i >= a.len() {
                assert((a + d)[i] == d[i - a.len()]);
            }
        }
    }
}

/// A row without bytes has no keyword spans.
proof fn lemma_group_spans_of_empty(kws: Seq<Seq<u8>>, kind: HighlightKind)
    ensures
        group_spans(seq![], kws, kind).len() == 0,
    decreases kws.len(),
{
    if kws.len() > 0 {
        lemma_group_spans_of_empty(kws.drop_last(), kind);
        assert(keyword_scan(seq![], kws.last(), 0).len() == 0);
    }
}

/// Error keywords come first: a cell of a screen row that a whole-word error
/// keyword of that row reaches is shown as an error, whatever else matches there.
pub proof fn law_error_keywords_win(cells: Seq<CellChar>, rows: int, r: int, c: int, j: int)
    requires
        0 <= r < rows,
        0 <= j < group_spans(
            row_bytes(row_seq(cells, r)),
            keyword_group(HighlightKind::Error),
            HighlightKind::Error,
        ).len(),
        covers(
            group_spans(
                row_bytes(row_seq(cells, r)),
                keyword_group(HighlightKind::Error),
                HighlightKind::Error,
            )[j],
            row_cols(row_seq(cells, r)),
            c,
        ),
    ensures
        highlight_at(cells, rows, r, c) == Some(HighlightKind::Error),
{
    reveal(highlight_at);
    let rs = row_seq(cells, r);
    let b = row_bytes(rs);
    let cols = row_cols(rs);
    let e = group_spans(b, keyword_group(HighlightKind::Error), HighlightKind::Error);
    if rs.len() == 0 {
        assert(b =~= seq![]);
        lemma_group_spans_of_empty(keyword_group(HighlightKind::Error), HighlightKind::Error);
    }
    lemma_group_spans_kind(b, keyword_group(HighlightKind::Error), HighlightKind::Error);
    lemma_first_cover_uniform(e, cols, c, HighlightKind::Error, j);
    let s = group_spans(b, keyword_group(HighlightKind::Success), HighlightKind::Success);
    let f = group_spans(b, keyword_group(HighlightKind::Failure), HighlightKind::Failure);
    let w = group_spans(b, keyword_group(HighlightKind::Warning), HighlightKind::Warning);
    let i = group_spans(b, keyword_group(HighlightKind::Info), HighlightKind::Info);
    let d = group_spans(b, keyword_group(HighlightKind::Debug), HighlightKind::Debug);
    lemma_first_cover_append(e, s, cols, c);
    lemma_first_cover_append(e + s, f, cols, c);
    lemma_first_cover_append(e + s + f, w, cols, c);
    lemma_first_cover_append(e + s + f + w, i, cols, c);
    lemma_first_cover_append(e + s + f + w + i, d, cols, c);
    lemma_first_cover_append(e + s + f + w + i + d, ip_spans(b), cols, c);
    lemma_first_cover_append(e + s + f + w + i + d + ip_spans(b), url_spans(b), cols, c);
    lemma_first_cover_append(
        e + s + f + w + i + d + ip_spans(b) + url_spans(b),
        port_spans(b),
        cols,
        c,
    );
}

// ---------------------------------------------------------------------------
// Rows are coloured independently
// ---------------------------------------------------------------------------

/// A cell lies on a screen of `rows` rows.
pub open spec fn on_screen(rows: int) -> spec_fn(CellChar) -> bool {
    |x: CellChar| 0 <= x.row < rows
}

proof fn lemma_cells_in_row_filter(cells: Seq<CellChar>, p: spec_fn(CellChar) -> bool, r: int)
    requires
        forall|x: CellChar| x.row == r ==> #[trigger] p(x),
    ensures
        cells_in_row(cells.filter(p), r) == cells_in_row(cells, r),
    decreases cells.len(),
{
    reveal(Seq::filter);
    if cells.len() > 0 {
        lemma_cells_in_row_filter(cells.drop_last(), p, r);
        let f = cells.drop_last().filter(p);
        if p(cells.last()) {
            assert(f.push(cells.last()).drop_last() =~= f);
        }
    }
}

proof fn lemma_cells_in_row_filter_off(cells: Seq<CellChar>, p: spec_fn(CellChar) -> bool, r: int)
    requires
        forall|x: CellChar| x.row == r ==> !#[trigger] p(x),
    ensures
        cells_in_row(cells.filter(p), r).len() == 0,
    decreases cells.len(),
{
    reveal(Seq::filter);
    if cells.len() > 0 {
        lemma_cells_in_row_filter_off(cells.drop_last(), p, r);
        let f = cells.drop_last().filter(p);
        if p(cells.last()) {
            assert(f.push(cells.last()).drop_last() =~= f);
        }
    }
}

/// Rows are coloured independently: how a cell of row `r` is coloured depends
/// only on the cells of row `r`, in their order, so changing, adding or removing
/// cells of other rows changes nothing in row `r`.
pub proof fn law_rows_are_independent(a: Seq<CellChar>, b: Seq<CellChar>, rows: int, r: int, c: int)
    requires
        cells_in_row(a, r) == cells_in_row(b, r),
    ensures
        highlight_at(a, rows, r, c) == highlight_at(b, rows, r, c),
{
    reveal(highlight_at);
}

/// Cells off the screen change nothing: the screen is coloured as if only its
/// own cells, in their order, had been given.
pub proof fn law_off_screen_cells_ignored(cells: Seq<CellChar>, rows: int, r: int, c: int)
    ensures
        highlight_at(cells.filter(on_screen(rows)), rows, r, c) == highlight_at(cells, rows, r, c),
{
    reveal(highlight_at);
    if 0 <= r < rows {
        lemma_cells_in_row_filter(cells, on_screen(rows), r);
    } else {
        lemma_cells_in_row_filter_off(cells, on_screen(rows), r);
        assert(row_seq(cells.filter(on_screen(rows)), r).len() == 0);
    }
}

// ---------------------------------------------------------------------------
// The keywords
// ---------------------------------------------------------------------------

/// The keywords of each keyword kind, as they are written: errors EMERGENCY,
/// CRITICAL, FATAL, PANIC, ERROR and ERR; successes SUCCESS, SUCCEEDED, PASSED,
/// PASS and OK; failures FAILED, FAILURE, DENIED, REJECTED, TIMEOUT and FAIL;
/// warnings WARNING and WARN; notices NOTICE and INFO; debug output DEBUG, DBG
/// and TRACE.
pub open spec fn is_listed_keyword(kind: HighlightKind, w: Seq<u8>) -> bool {
    match kind {
        HighlightKind::Error => w == "EMERGENCY"@.map_values(|c: char| c as u8) || w
            == "CRITICAL"@.map_values(|c: char| c as u8) || w == "FATAL"@.map_values(
            |c: char| c as u8,
        ) || w == "PANIC"@.map_values(|c: char| c as u8) || w == "ERROR"@.map_values(
            |c: char| c as u8,
        ) || w == "ERR"@.map_values(|c: char| c as u8),
        HighlightKind::Success => w == "SUCCESS"@.map_values(|c: char| c as u8) || w
            == "SUCCEEDED"@.map_values(|c: char| c as u8) || w == "PASSED"@.map_values(
            |c: char| c as u8,
        ) || w == "PASS"@.map_values(|c: char| c as u8) || w == "OK"@.map_values(
            |c: char| c as u8,
        ),
        HighlightKind::Failure => w == "FAILED"@.map_values(|c: char| c as u8) || w
            == "FAILURE"@.map_values(|c: char| c as u8) || w == "DENIED"@.map_values(
            |c: char| c as u8,
        ) || w == "REJECTED"@.map_values(|c: char| c as u8) || w == "TIMEOUT"@.map_values(
            |c: char| c as u8,
        ) || w == "FAIL"@.map_values(|c: char| c as u8),
        HighlightKind::Warning => w == "WARNING"@.map_values(|c: char| c as u8) || w
            == "WARN"@.map_values(|c: char| c as u8),
        HighlightKind::Info => w == "NOTICE"@.map_values(|c: char| c as u8) || w
            == "INFO"@.map_values(|c: char| c as u8),
        HighlightKind::Debug => w == "DEBUG"@.map_values(|c: char| c as u8) || w
            == "DBG"@.map_values(|c: char| c as u8) || w == "TRACE"@.map_values(
            |c: char| c as u8,
        ),
        _ => false,
    }
}

/// A row has as many byte columns as bytes.
proof fn lemma_row_lens(rs: Seq<CellChar>)
    ensures
        row_bytes(rs).len() == row_cols(rs).len(),
    decreases rs.len(),
{
    if rs.len() > 0 {
        lemma_row_lens(rs.drop_last());
    }
}

/// Every listed keyword is among those the highlighting searches for.
proof fn lemma_listed_in_group(kind: HighlightKind, w: Seq<u8>) -> (idx: int)
    requires
        is_listed_keyword(kind, w),
    ensures
        0 <= idx < keyword_group(kind).len(),
        keyword_group(kind)[idx] == w,
{
    match kind {
        HighlightKind::Error => {
            reveal_strlit("EMERGENCY");
            assert("EMERGENCY"@.map_values(|c: char| c as u8) =~= keyword_group(HighlightKind::Error)[0]);
            reveal_strlit("CRITICAL");
            assert("CRITICAL"@.map_values(|c: char| c as u8) =~= keyword_group(HighlightKind::Error)[1]);
            reveal_strlit("FATAL");
            assert("FATAL"@.map_values(|c: char| c as u8) =~= keyword_group(HighlightKind::Error)[2]);
            reveal_strlit("PANIC");
            assert("PANIC"@.map_values(|c: char| c as u8) =~= keyword_group(HighlightKind::Error)[3]);
            reveal_strlit("ERROR");
            assert("ERROR"@.map_values(|c: char| c as u8) =~= keyword_group(HighlightKind::Error)[4]);
            reveal_strlit("ERR");
            assert("ERR"@.map_values(|c: char| c as u8) =~= keyword_group(HighlightKind::Error)[5]);
        },
        HighlightKind::Success => {
            reveal_strlit("SUCCESS");
            assert("SUCCESS"@.map_values(|c: char| c as u8) =~= keyword_group(HighlightKind::Success)[0]);
            reveal_strlit("SUCCEEDED");
            assert("SUCCEEDED"@.map_values(|c: char| c as u8) =~= keyword_group(HighlightKind::Success)[1]);
            reveal_strlit("PASSED");
            assert("PASSED"@.map_values(|c: char| c as u8) =~= keyword_group(HighlightKind::Success)[2]);
            reveal_strlit("PASS");
            assert("PASS"@.map_values(|c: char| c as u8) =~= keyword_group(HighlightKind::Success)[3]);
            reveal_strlit("OK");
            assert("OK"@.map_values(|c: char| c as u8) =~= keyword_group(HighlightKind::Success)[4]);
        },
        HighlightKind::Failure => {
            reveal_strlit("FAILED");
            assert("FAILED"@.map_values(|c: char| c as u8) =~= keyword_group(HighlightKind::Failure)[0]);
            reveal_strlit("FAILURE");
            assert("FAILURE"@.map_values(|c: char| c as u8) =~= keyword_group(HighlightKind::Failure)[1]);
            reveal_strlit("DENIED");
            assert("DENIED"@.map_values(|c: char| c as u8) =~= keyword_group(HighlightKind::Failure)[2]);
            reveal_strlit("REJECTED");
            assert("REJECTED"@.map_values(|c: char| c as u8) =~= keyword_group(HighlightKind::Failure)[3]);
            reveal_strlit("TIMEOUT");
            assert("TIMEOUT"@.map_values(|c: char| c as u8) =~= keyword_group(HighlightKind::Failure)[4]);
            reveal_strlit("FAIL");
            assert("FAIL"@.map_values(|c: char| c as u8) =~= keyword_group(HighlightKind::Failure)[5]);
        },
        HighlightKind::Warning => {
            reveal_strlit("WARNING");
            assert("WARNING"@.map_values(|c: char| c as u8) =~= keyword_group(HighlightKind::Warning)[0]);
            reveal_strlit("WARN");
            assert("WARN"@.map_values(|c: char| c as u8) =~= keyword_group(HighlightKind::Warning)[1]);
        },
        HighlightKind::Info => {
            reveal_strlit("NOTICE");
            assert("NOTICE"@.map_values(|c: char| c as u8) =~= keyword_group(HighlightKind::Info)[0]);
            reveal_strlit("INFO");
            assert("INFO"@.map_values(|c: char| c as u8) =~= keyword_group(HighlightKind::Info)[1]);
        },
        HighlightKind::Debug => {
            reveal_strlit("DEBUG");
            assert("DEBUG"@.map_values(|c: char| c as u8) =~= keyword_group(HighlightKind::Debug)[0]);
            reveal_strlit("DBG");
            assert("DBG"@.map_values(|c: char| c as u8) =~= keyword_group(HighlightKind::Debug)[1]);
            reveal_strlit("TRACE");
            assert("TRACE"@.map_values(|c: char| c as u8) =~= keyword_group(HighlightKind::Debug)[2]);
        },
        _ => {},
    }
    choose|idx: int| 0 <= idx < keyword_group(kind).len() && keyword_group(kind)[idx] == w
}

/// Each span of each keyword of a list is among the spans of the list.
proof fn lemma_group_spans_contains(
    b: Seq<u8>,
    kws: Seq<Seq<u8>>,
    kind: HighlightKind,
    idx: int,
    m: int,
) -> (j: int)
    requires
        0 <= idx < kws.len(),
        0 <= m < keyword_spans(b, kws[idx], kind).len(),
    ensures
        0 <= j < group_spans(b, kws, kind).len(),
        group_spans(b, kws, kind)[j] == keyword_spans(b, kws[idx], kind)[m],
    decreases kws.len(),
{
    let a = group_spans(b, kws.drop_last(), kind);
    if idx == kws.len() - 1 {
        assert(kws.last() == kws[idx]);
        a.len() + m
    } else {
        assert(kws.drop_last()[idx] == kws[idx]);
        lemma_group_spans_contains(b, kws.drop_last(), kind, idx, m)
    }
}

/// Where some span covers `c`, some span is the first to.
proof fn lemma_first_cover_some(s: Seq<SpanView>, cols: Seq<i32>, c: int, j: int)
    requires
        0 <= j < s.len(),
        covers(s[j], cols, c),
    ensures
        first_cover(s, cols, c) is Some,
    decreases s.len(),
{
    if j < s.len() - 1 {
        assert(s.drop_last()[j] == s[j]);
        lemma_first_cover_some(s.drop_last(), cols, c, j);
    } else {
        assert(s.last() == s[j]);
    }
}

/// `w` occurs at `p` in `b` as a whole word that the left-to-right search reaches:
/// the bytes around it, where there are any, separate words, and no earlier
/// occurrence of `w` overlaps it.
pub open spec fn reached_whole_word(b: Seq<u8>, w: Seq<u8>, p: int) -> bool {
    &&& 0 <= p
    &&& p + w.len() <= b.len()
    &&& forall|j: int| 0 <= j < w.len() ==> b[p + j] == w[j]
    &&& p == 0 || separates_words(b[p - 1])
    &&& p + w.len() == b.len() || separates_words(b[p + w.len()])
    &&& forall|q: int| p - w.len() < q < p && 0 <= q ==> !#[trigger] matches_at(b, w, q)
}

/// The columns a keyword match at `p` of `len` bytes colours: from the column of
/// its first byte through the column of the byte after it (the row's last byte
/// when it reaches the end).
pub open spec fn keyword_reaches(cols: Seq<i32>, p: int, len: int, c: int) -> bool {
    let last = if p + len < cols.len() - 1 {
        p + len
    } else {
        cols.len() - 1
    };
    cols[p] <= c <= cols[last]
}

proof fn lemma_keyword_covers(
    cells: Seq<CellChar>,
    r: int,
    kind: HighlightKind,
    w: Seq<u8>,
    p: int,
    c: int,
) -> (j: int)
    requires
        is_listed_keyword(kind, w),
        reached_whole_word(row_bytes(row_seq(cells, r)), w, p),
        keyword_reaches(row_cols(row_seq(cells, r)), p, w.len() as int, c),
    ensures
        0 <= j < group_spans(row_bytes(row_seq(cells, r)), keyword_group(kind), kind).len(),
        covers(
            group_spans(row_bytes(row_seq(cells, r)), keyword_group(kind), kind)[j],
            row_cols(row_seq(cells, r)),
            c,
        ),
        row_seq(cells, r).len() > 0,
{
    let rs = row_seq(cells, r);
    let b = row_bytes(rs);
    let cols = row_cols(rs);
    lemma_row_lens(rs);
    let idx = lemma_listed_in_group(kind, w);
    assert(w.len() > 0) by {
        reveal_strlit("EMERGENCY");
        reveal_strlit("CRITICAL");
        reveal_strlit("FATAL");
        reveal_strlit("PANIC");
        reveal_strlit("ERROR");
        reveal_strlit("ERR");
        reveal_strlit("SUCCESS");
        reveal_strlit("SUCCEEDED");
        reveal_strlit("PASSED");
        reveal_strlit("PASS");
        reveal_strlit("OK");
        reveal_strlit("FAILED");
        reveal_strlit("FAILURE");
        reveal_strlit("DENIED");
        reveal_strlit("REJECTED");
        reveal_strlit("TIMEOUT");
        reveal_strlit("FAIL");
        reveal_strlit("WARNING");
        reveal_strlit("WARN");
        reveal_strlit("NOTICE");
        reveal_strlit("INFO");
        reveal_strlit("DEBUG");
        reveal_strlit("DBG");
        reveal_strlit("TRACE");
    }
    if rs.len() == 0 {
        assert(b =~= seq![]);
    }
    law_keyword_search_complete(b, w, p);
    let found = keyword_scan(b, w, 0);
    let m = choose|m: int| 0 <= m < found.len() && found[m] == p;
    let j = lemma_group_spans_contains(b, keyword_group(kind), kind, idx, m);
    assert(keyword_spans(b, w, kind)[m] == (p, span_end(b, p, w.len() as int), kind));
    j
}

/// The error keywords are coloured as errors: in a row of the screen, a reached
/// whole-word occurrence of EMERGENCY, CRITICAL, FATAL, PANIC, ERROR or ERR colours
/// the columns of its bytes, through the column of the byte after it, as errors.
pub proof fn law_error_keywords_coloured(
    cells: Seq<CellChar>,
    rows: int,
    r: int,
    w: Seq<u8>,
    p: int,
    c: int,
)
    requires
        0 <= r < rows,
        is_listed_keyword(HighlightKind::Error, w),
        reached_whole_word(row_bytes(row_seq(cells, r)), w, p),
        keyword_reaches(row_cols(row_seq(cells, r)), p, w.len() as int, c),
    ensures
        highlight_at(cells, rows, r, c) == Some(HighlightKind::Error),
{
    let j = lemma_keyword_covers(cells, r, HighlightKind::Error, w, p, c);
    law_error_keywords_win(cells, rows, r, c, j);
}

/// Every listed keyword is coloured: in a row of the screen, the columns that a
/// reached whole-word occurrence of a keyword of any kind covers (through the
/// column of the byte after it) are highlighted, as that kind or as a kind that
/// comes before it.
pub proof fn law_keywords_coloured(
    cells: Seq<CellChar>,
    rows: int,
    r: int,
    kind: HighlightKind,
    w: Seq<u8>,
    p: int,
    c: int,
)
    requires
        0 <= r < rows,
        is_listed_keyword(kind, w),
        reached_whole_word(row_bytes(row_seq(cells, r)), w, p),
        keyword_reaches(row_cols(row_seq(cells, r)), p, w.len() as int, c),
    ensures
        highlight_at(cells, rows, r, c) is Some,
{
    reveal(highlight_at);
    let j = lemma_keyword_covers(cells, r, kind, w, p, c);
    let rs = row_seq(cells, r);
    let b = row_bytes(rs);
    let cols = row_cols(rs);
    lemma_first_cover_some(group_spans(b, keyword_group(kind), kind), cols, c, j);
    let e = group_spans(b, keyword_group(HighlightKind::Error), HighlightKind::Error);
    let s = group_spans(b, keyword_group(HighlightKind::Success), HighlightKind::Success);
    let f = group_spans(b, keyword_group(HighlightKind::Failure), HighlightKind::Failure);
    let w2 = group_spans(b, keyword_group(HighlightKind::Warning), HighlightKind::Warning);
    let i = group_spans(b, keyword_group(HighlightKind::Info), HighlightKind::Info);
    let d = group_spans(b, keyword_group(HighlightKind::Debug), HighlightKind::Debug);
    lemma_first_cover_append(e, s, cols, c);
    lemma_first_cover_append(e + s, f, cols, c);
    lemma_first_cover_append(e + s + f, w2, cols, c);
    lemma_first_cover_append(e + s + f + w2, i, cols, c);
    lemma_first_cover_append(e + s + f + w2 + i, d, cols, c);
    lemma_first_cover_append(e + s + f + w2 + i + d, ip_spans(b), cols, c);
    lemma_first_cover_append(e + s + f + w2 + i + d + ip_spans(b), url_spans(b), cols, c);
    lemma_first_cover_append(
        e + s + f + w2 + i + d + ip_spans(b) + url_spans(b),
        port_spans(b),
        cols,
        c,
    );
}

} // verus!
