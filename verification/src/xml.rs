//! A lenient tokenizer for the manifest markup dialect, with the two
//! serializers the sanitizer and the patcher use.
//!
//! Markup is modelled as a flat stream of tokens: start tags, end tags,
//! self-closing tags, text runs, and opaque markup (comments, processing
//! instructions, CDATA and declarations, kept verbatim). The tokenizer is
//! total: any byte string tokenizes, and unterminated constructs are kept
//! as opaque markup so that nothing is lost.

use vstd::prelude::*;

use crate::ascii::{AMP, LT, GT, APOS, QUOT, SLASH, BANG, QMARK, spec_amp_ent, spec_lt_ent,
    spec_gt_ent, spec_apos_ent, spec_quot_ent, amp_ent, lt_ent, gt_ent, apos_ent, quot_ent,
    has_prefix, match_at, find_sub_from, find_byte_from, bytes_match_at, bytes_find_from,
    bytes_find_byte, append_bytes, subvec, is_ws, byte_is_ws, spec_comment_open,
    spec_comment_close, spec_cdata_open, spec_cdata_close, comment_open, comment_close,
    cdata_open, cdata_close};

verus! {

/// An executable markup token. `attrs` is the raw byte run between the
/// tag name and the closing angle bracket, kept verbatim.
pub enum Token {
    Start { name: Vec<u8>, attrs: Vec<u8> },
    End { name: Vec<u8> },
    Empty { name: Vec<u8>, attrs: Vec<u8> },
    Text { raw: Vec<u8> },
    Markup { raw: Vec<u8> },
}

/// The mathematical model of a `Token`.
pub enum GToken {
    Start { name: Seq<u8>, attrs: Seq<u8> },
    End { name: Seq<u8> },
    Empty { name: Seq<u8>, attrs: Seq<u8> },
    Text { raw: Seq<u8> },
    Markup { raw: Seq<u8> },
}

impl View for Token {
    type V = GToken;

    open spec fn view(&self) -> GToken {
        match self {
            Token::Start { name, attrs } => GToken::Start { name: name@, attrs: attrs@ },
            Token::End { name } => GToken::End { name: name@ },
            Token::Empty { name, attrs } => GToken::Empty { name: name@, attrs: attrs@ },
            Token::Text { raw } => GToken::Text { raw: raw@ },
            Token::Markup { raw } => GToken::Markup { raw: raw@ },
        }
    }
}

/// The token views of a token vector.
pub open spec fn toks_view(ts: Seq<Token>) -> Seq<GToken> {
    Seq::new(ts.len(), |i: int| ts[i]@)
}

// ---------------------------------------------------------------------
// Text escaping
// ---------------------------------------------------------------------

/// Markup escaping of one text byte.
pub open spec fn escape_byte(b: u8) -> Seq<u8> {
    if b == AMP {
        spec_amp_ent()
    } else if b == LT {
        spec_lt_ent()
    } else if b == GT {
        spec_gt_ent()
    } else if b == APOS {
        spec_apos_ent()
    } else if b == QUOT {
        spec_quot_ent()
    } else {
        seq![b]
    }
}

/// Markup escaping of a text run.
pub open spec fn escape_text(s: Seq<u8>) -> Seq<u8>
    decreases s.len(),
{
    if s.len() == 0 {
        Seq::empty()
    } else {
        escape_byte(s[0]) + escape_text(s.skip(1))
    }
}

pub proof fn lemma_escape_single(b: u8)
    ensures
        escape_text(seq![b]) == escape_byte(b),
{
    assert(seq![b].skip(1) =~= Seq::<u8>::empty());
    assert(escape_text(seq![b].skip(1)) =~= Seq::<u8>::empty());
    assert(escape_text(seq![b]) =~= escape_byte(b) + Seq::<u8>::empty());
    assert(escape_byte(b) + Seq::<u8>::empty() =~= escape_byte(b));
}

pub proof fn lemma_escape_concat(a: Seq<u8>, b: Seq<u8>)
    ensures
        escape_text(a + b) == escape_text(a) + escape_text(b),
    decreases a.len(),
{
    if a.len() == 0 {
        assert(a + b =~= b);
        assert(escape_text(a) + escape_text(b) =~= escape_text(b));
    } else {
        assert((a + b).skip(1) =~= a.skip(1) + b);
        lemma_escape_concat(a.skip(1), b);
        assert(escape_byte((a + b)[0]) + (escape_text(a.skip(1)) + escape_text(b)) =~= (
        escape_byte(a[0]) + escape_text(a.skip(1))) + escape_text(b));
    }
}

/// Escapes a text run.
pub fn escape(s: &Vec<u8>) -> (r: Vec<u8>)
    ensures
        r@ == escape_text(s@),
{
    let mut out: Vec<u8> = Vec::new();
    let mut i: usize = 0;
    while i < s.len()
        invariant
            i <= s@.len(),
            out@ == escape_text(s@.take(i as int)),
        decreases s@.len() - i,
    {
        let b = s[i];
        if b == AMP {
            let e = amp_ent();
            append_bytes(&mut out, &e);
        } else if b == LT {
            let e = lt_ent();
            append_bytes(&mut out, &e);
        } else if b == GT {
            let e = gt_ent();
            append_bytes(&mut out, &e);
        } else if b == APOS {
            let e = apos_ent();
            append_bytes(&mut out, &e);
        } else if b == QUOT {
            let e = quot_ent();
            append_bytes(&mut out, &e);
        } else {
            out.push(b);
        }
        proof {
            assert(s@.take(i + 1) =~= s@.take(i as int) + seq![s@[i as int]]);
            lemma_escape_concat(s@.take(i as int), seq![s@[i as int]]);
            lemma_escape_single(s@[i as int]);
        }
        i = i + 1;
    }
    proof {
        assert(s@.take(s@.len() as int) =~= s@);
    }
    out
}

/// Entity decoding of a text run. `None` means the run holds a bad
/// entity and cannot be decoded.
pub open spec fn unescape_text(s: Seq<u8>) -> Option<Seq<u8>>
    decreases s.len(),
{
    if s.len() == 0 {
        Some(Seq::empty())
    } else if s[0] == AMP {
        if has_prefix(s, spec_amp_ent()) {
            unescape_cons(AMP, unescape_text(s.skip(5)))
        } else if has_prefix(s, spec_lt_ent()) {
            unescape_cons(LT, unescape_text(s.skip(4)))
        } else if has_prefix(s, spec_gt_ent()) {
            unescape_cons(GT, unescape_text(s.skip(4)))
        } else if has_prefix(s, spec_apos_ent()) {
            unescape_cons(APOS, unescape_text(s.skip(6)))
        } else if has_prefix(s, spec_quot_ent()) {
            unescape_cons(QUOT, unescape_text(s.skip(6)))
        } else {
            None
        }
    } else {
        unescape_cons(s[0], unescape_text(s.skip(1)))
    }
}

pub open spec fn unescape_cons(b: u8, rest: Option<Seq<u8>>) -> Option<Seq<u8>> {
    match rest {
        Some(r) => Some(seq![b] + r),
        None => None,
    }
}

/// The decoded text when the run decodes, else the raw run itself.
pub open spec fn unescape_or_raw(s: Seq<u8>) -> Seq<u8> {
    match unescape_text(s) {
        Some(u) => u,
        None => s,
    }
}

/// What the sanitizer emits for a text run: decode if possible, then
/// re-escape.
pub open spec fn clean_text(s: Seq<u8>) -> Seq<u8> {
    escape_text(unescape_or_raw(s))
}

/// Decodes a text run, or `None` on a bad entity.
pub fn unescape(s: &Vec<u8>) -> (r: Option<Vec<u8>>)
    ensures
        match r {
            Some(u) => unescape_text(s@) == Some(u@),
            None => unescape_text(s@) is None,
        },
{
    let mut out: Vec<u8> = Vec::new();
    let mut i: usize = 0;
    let e_amp = amp_ent();
    let e_lt = lt_ent();
    let e_gt = gt_ent();
    let e_apos = apos_ent();
    let e_quot = quot_ent();
    proof {
        assert(s@.skip(0) =~= s@);
        if unescape_text(s@) is Some {
            assert(Seq::<u8>::empty() + unescape_text(s@).unwrap() =~= unescape_text(
                s@,
            ).unwrap());
        }
    }
    loop
        invariant
            i <= s@.len(),
            e_amp@ == spec_amp_ent(),
            e_lt@ == spec_lt_ent(),
            e_gt@ == spec_gt_ent(),
            e_apos@ == spec_apos_ent(),
            e_quot@ == spec_quot_ent(),
            unescape_text(s@) == unescape_cons_seq(out@, unescape_text(s@.skip(i as int))),
        decreases s@.len() - i,
    {
        if i >= s.len() {
            proof {
                assert(s@.skip(i as int) =~= Seq::<u8>::empty());
            }
            return Some(out);
        }
        let b = s[i];
        proof {
            assert(s@.skip(i as int)[0] == s@[i as int]);
        }
        if b == AMP {
            let ghost out0 = out@;
            if bytes_match_at(s, &e_amp, i) {
                out.push(AMP);
                proof {
                    lemma_prefix_skip(s@, i as int, spec_amp_ent());
                    lemma_cons_assoc(out0, AMP, unescape_text(s@.skip(i + 5)));
                }
                i = i + 5;
            } else if bytes_match_at(s, &e_lt, i) {
                out.push(LT);
                proof {
                    lemma_prefix_skip(s@, i as int, spec_lt_ent());
                    lemma_no_prefix(s@, i as int, spec_amp_ent());
                    lemma_cons_assoc(out0, LT, unescape_text(s@.skip(i + 4)));
                }
                i = i + 4;
            } else if bytes_match_at(s, &e_gt, i) {
                out.push(GT);
                proof {
                    lemma_prefix_skip(s@, i as int, spec_gt_ent());
                    lemma_no_prefix(s@, i as int, spec_amp_ent());
                    lemma_no_prefix(s@, i as int, spec_lt_ent());
                    lemma_cons_assoc(out0, GT, unescape_text(s@.skip(i + 4)));
                }
                i = i + 4;
            } else if bytes_match_at(s, &e_apos, i) {
                out.push(APOS);
                proof {
                    lemma_prefix_skip(s@, i as int, spec_apos_ent());
                    lemma_no_prefix(s@, i as int, spec_amp_ent());
                    lemma_no_prefix(s@, i as int, spec_lt_ent());
                    lemma_no_prefix(s@, i as int, spec_gt_ent());
                    lemma_cons_assoc(out0, APOS, unescape_text(s@.skip(i + 6)));
                }
                i = i + 6;
            } else if bytes_match_at(s, &e_quot, i) {
                out.push(QUOT);
                proof {
                    lemma_prefix_skip(s@, i as int, spec_quot_ent());
                    lemma_no_prefix(s@, i as int, spec_amp_ent());
                    lemma_no_prefix(s@, i as int, spec_lt_ent());
                    lemma_no_prefix(s@, i as int, spec_gt_ent());
                    lemma_no_prefix(s@, i as int, spec_apos_ent());
                    lemma_cons_assoc(out0, QUOT, unescape_text(s@.skip(i + 6)));
                }
                i = i + 6;
            } else {
                proof {
                    lemma_no_prefix(s@, i as int, spec_amp_ent());
                    lemma_no_prefix(s@, i as int, spec_lt_ent());
                    lemma_no_prefix(s@, i as int, spec_gt_ent());
                    lemma_no_prefix(s@, i as int, spec_apos_ent());
                    lemma_no_prefix(s@, i as int, spec_quot_ent());
                }
                return None;
            }
        } else {
            let ghost out0 = out@;
            out.push(b);
            proof {
                assert(s@.skip(i as int).skip(1) =~= s@.skip(i + 1));
                lemma_cons_assoc(out0, b, unescape_text(s@.skip(i + 1)));
            }
            i = i + 1;
        }
    }
}

/// Composition of an already-decoded prefix with the decoding of the rest.
pub open spec fn unescape_cons_seq(done: Seq<u8>, rest: Option<Seq<u8>>) -> Option<Seq<u8>> {
    match rest {
        Some(r) => Some(done + r),
        None => None,
    }
}

proof fn lemma_cons_assoc(done: Seq<u8>, b: u8, rest: Option<Seq<u8>>)
    ensures
        unescape_cons_seq(done, unescape_cons(b, rest)) == unescape_cons_seq(done.push(b), rest),
{
    match rest {
        Some(r) => {
            assert(done + (seq![b] + r) =~= done.push(b) + r);
        },
        None => {},
    }
}

proof fn lemma_prefix_skip(s: Seq<u8>, i: int, p: Seq<u8>)
    requires
        0 <= i <= s.len(),
        match_at(s, p, i),
    ensures
        has_prefix(s.skip(i), p),
        s.skip(i).skip(p.len() as int) =~= s.skip(i + p.len()),
{
    assert(s.skip(i).take(p.len() as int) =~= s.subrange(i, i + p.len()));
}

proof fn lemma_no_prefix(s: Seq<u8>, i: int, p: Seq<u8>)
    requires
        0 <= i <= s.len(),
        !match_at(s, p, i),
    ensures
        !has_prefix(s.skip(i), p),
{
    if has_prefix(s.skip(i), p) {
        assert(s.skip(i).take(p.len() as int) =~= s.subrange(i, i + p.len()));
    }
}

/// Decoding inverts escaping: every escaped run decodes back to the
/// original text.
pub proof fn lemma_unescape_escape(s: Seq<u8>)
    ensures
        unescape_text(escape_text(s)) == Some(s),
    decreases s.len(),
{
    if s.len() == 0 {
    } else {
        lemma_unescape_escape(s.skip(1));
        let e = escape_text(s);
        let b = s[0];
        let eb = escape_byte(b);
        assert(e =~= eb + escape_text(s.skip(1)));
        assert(e.skip(eb.len() as int) =~= escape_text(s.skip(1)));
        if b == AMP {
            assert(e.take(5) =~= spec_amp_ent());
            assert(has_prefix(e, spec_amp_ent()));
            assert(seq![AMP] + s.skip(1) =~= s);
        } else if b == LT {
            assert(e.take(4) =~= spec_lt_ent());
            if has_prefix(e, spec_amp_ent()) {
                assert(e.take(spec_amp_ent().len() as int)[1] == spec_amp_ent()[1]);
                assert(e.take(4)[1] == spec_lt_ent()[1]);
                assert(false);
            }
            assert(seq![LT] + s.skip(1) =~= s);
        } else if b == GT {
            assert(e.take(4) =~= spec_gt_ent());
            if has_prefix(e, spec_amp_ent()) {
                assert(e.take(spec_amp_ent().len() as int)[1] == spec_amp_ent()[1]);
                assert(e.take(4)[1] == spec_gt_ent()[1]);
                assert(false);
            }
            if has_prefix(e, spec_lt_ent()) {
                assert(e.take(spec_lt_ent().len() as int)[1] == spec_lt_ent()[1]);
                assert(e.take(4)[1] == spec_gt_ent()[1]);
                assert(false);
            }
            assert(seq![GT] + s.skip(1) =~= s);
        } else if b == APOS {
            assert(e.take(6) =~= spec_apos_ent());
            if has_prefix(e, spec_amp_ent()) {
                assert(e.take(spec_amp_ent().len() as int)[2] == spec_amp_ent()[2]);
                assert(e.take(6)[2] == spec_apos_ent()[2]);
                assert(false);
            }
            if has_prefix(e, spec_lt_ent()) {
                assert(e.take(spec_lt_ent().len() as int)[1] == spec_lt_ent()[1]);
                assert(e.take(6)[1] == spec_apos_ent()[1]);
                assert(false);
            }
            if has_prefix(e, spec_gt_ent()) {
                assert(e.take(spec_gt_ent().len() as int)[1] == spec_gt_ent()[1]);
                assert(e.take(6)[1] == spec_apos_ent()[1]);
                assert(false);
            }
            assert(seq![APOS] + s.skip(1) =~= s);
        } else if b == QUOT {
            assert(e.take(6) =~= spec_quot_ent());
            if has_prefix(e, spec_amp_ent()) {
                assert(e.take(spec_amp_ent().len() as int)[1] == spec_amp_ent()[1]);
                assert(e.take(6)[1] == spec_quot_ent()[1]);
                assert(false);
            }
            if has_prefix(e, spec_lt_ent()) {
                assert(e.take(spec_lt_ent().len() as int)[1] == spec_lt_ent()[1]);
                assert(e.take(6)[1] == spec_quot_ent()[1]);
                assert(false);
            }
            if has_prefix(e, spec_gt_ent()) {
                assert(e.take(spec_gt_ent().len() as int)[1] == spec_gt_ent()[1]);
                assert(e.take(6)[1] == spec_quot_ent()[1]);
                assert(false);
            }
            if has_prefix(e, spec_apos_ent()) {
                assert(e.take(spec_apos_ent().len() as int)[2] == spec_apos_ent()[2]);
                assert(e.take(6)[2] == spec_quot_ent()[2]);
                assert(false);
            }
            assert(seq![QUOT] + s.skip(1) =~= s);
        } else {
            assert(e[0] == b);
            assert(e.skip(1) =~= escape_text(s.skip(1)));
            assert(seq![b] + s.skip(1) =~= s);
        }
    }
}

// ---------------------------------------------------------------------
// Tokenizing
// ---------------------------------------------------------------------

/// First index `j >= from` holding an ASCII whitespace byte, or `-1`.
pub open spec fn find_ws_from(s: Seq<u8>, from: int) -> int
    decreases s.len() + 1 - from,
{
    if from < 0 || from >= s.len() {
        -1
    } else if is_ws(s[from]) {
        from
    } else {
        find_ws_from(s, from + 1)
    }
}

/// Length of the tag name inside the raw content of an angle-bracket tag:
/// everything before the first whitespace byte.
pub open spec fn name_len(c: Seq<u8>) -> int {
    let w = find_ws_from(c, 0);
    if w == -1 {
        c.len() as int
    } else {
        w
    }
}

/// Where a whitespace search succeeds, the position is in range.
pub proof fn lemma_find_ws_found(s: Seq<u8>, from: int)
    requires
        find_ws_from(s, from) != -1,
    ensures
        find_ws_from(s, from) < s.len(),
        from <= find_ws_from(s, from) || from < 0,
    decreases s.len() - from,
{
    if from < 0 || from >= s.len() {
    } else if is_ws(s[from]) {
    } else {
        lemma_find_ws_found(s, from + 1);
    }
}

/// The tag name length is within the content.
pub proof fn lemma_name_len_bounds(c: Seq<u8>)
    ensures
        0 <= name_len(c) <= c.len(),
{
    if find_ws_from(c, 0) != -1 {
        lemma_find_ws_found(c, 0);
    }
}

pub open spec fn tag_name(c: Seq<u8>) -> Seq<u8> {
    c.take(name_len(c))
}

pub open spec fn tag_attrs(c: Seq<u8>) -> Seq<u8> {
    c.skip(name_len(c))
}

/// Reads one tag (or opaque markup run) starting at the `<` at index `i`,
/// returning the token and the index just past it. Unterminated constructs
/// run to the end of input and are kept verbatim as opaque markup.
pub open spec fn scan_tag(s: Seq<u8>, i: int) -> (GToken, int) {
    let n = s.len() as int;
    if match_at(s, spec_comment_open(), i) {
        let e = find_sub_from(s, spec_comment_close(), i + 4);
        if e == -1 {
            (GToken::Markup { raw: s.subrange(i, n) }, n)
        } else {
            (GToken::Markup { raw: s.subrange(i, e + 3) }, e + 3)
        }
    } else if match_at(s, spec_cdata_open(), i) {
        let e = find_sub_from(s, spec_cdata_close(), i + 9);
        if e == -1 {
            (GToken::Markup { raw: s.subrange(i, n) }, n)
        } else {
            (GToken::Markup { raw: s.subrange(i, e + 3) }, e + 3)
        }
    } else if i + 1 < n && (s[i + 1] == BANG || s[i + 1] == QMARK) {
        let e = find_byte_from(s, GT, i + 1);
        if e == -1 {
            (GToken::Markup { raw: s.subrange(i, n) }, n)
        } else {
            (GToken::Markup { raw: s.subrange(i, e + 1) }, e + 1)
        }
    } else if i + 1 < n && s[i + 1] == SLASH {
        let e = find_byte_from(s, GT, i + 2);
        if e == -1 {
            (GToken::Markup { raw: s.subrange(i, n) }, n)
        } else {
            (GToken::End { name: s.subrange(i + 2, e) }, e + 1)
        }
    } else {
        let e = find_byte_from(s, GT, i + 1);
        if e == -1 {
            (GToken::Markup { raw: s.subrange(i, n) }, n)
        } else if e > i + 1 && s[e - 1] == SLASH {
            let c = s.subrange(i + 1, e - 1);
            (GToken::Empty { name: tag_name(c), attrs: tag_attrs(c) }, e + 1)
        } else {
            let c = s.subrange(i + 1, e);
            (GToken::Start { name: tag_name(c), attrs: tag_attrs(c) }, e + 1)
        }
    }
}

/// The token stream of `s` from index `i` on. The position handed back by
/// `scan_tag` is clamped into `(i, n]` so the stream is defined for every
/// input.
pub open spec fn spec_tokenize_from(s: Seq<u8>, i: int) -> Seq<GToken>
    decreases s.len() - i,
{
    let n = s.len() as int;
    if i < 0 || i >= n {
        Seq::empty()
    } else if s[i] == LT {
        let sc = scan_tag(s, i);
        let j = if sc.1 <= i {
            i + 1
        } else if sc.1 > n {
            n
        } else {
            sc.1
        };
        seq![sc.0] + spec_tokenize_from(s, j)
    } else {
        let e = find_byte_from(s, LT, i);
        let j = if e <= i || e > n {
            n
        } else {
            e
        };
        seq![GToken::Text { raw: s.subrange(i, j) }] + spec_tokenize_from(s, j)
    }
}

/// The full token stream of a byte string.
pub open spec fn spec_tokenize(s: Seq<u8>) -> Seq<GToken> {
    spec_tokenize_from(s, 0)
}

/// Finds the first whitespace byte of `c` at or after `from`.
fn bytes_find_ws(c: &Vec<u8>, from: usize) -> (r: Option<usize>)
    requires
        from <= c@.len(),
    ensures
        match r {
            Some(i) => find_ws_from(c@, from as int) == i as int && from <= i < c@.len(),
            None => find_ws_from(c@, from as int) == -1,
        },
{
    let mut i: usize = from;
    while i < c.len()
        invariant
            from <= i <= c@.len(),
            find_ws_from(c@, from as int) == find_ws_from(c@, i as int),
        decreases c@.len() - i,
    {
        if byte_is_ws(c[i]) {
            return Some(i);
        }
        i = i + 1;
    }
    None
}

/// Splits raw tag content into its name and its raw attribute run.
fn split_tag_content(c: Vec<u8>) -> (r: (Vec<u8>, Vec<u8>))
    ensures
        r.0@ == tag_name(c@),
        r.1@ == tag_attrs(c@),
{
    let w = bytes_find_ws(&c, 0);
    let nl: usize = match w {
        Some(i) => i,
        None => c.len(),
    };
    let name = subvec(&c, 0, nl);
    let attrs = subvec(&c, nl, c.len());
    proof {
        assert(c@.skip(name_len(c@)) =~= c@.subrange(name_len(c@), c@.len() as int));
    }
    (name, attrs)
}

/// Tokenizes a byte string.
pub fn tokenize(s: &Vec<u8>) -> (r: Vec<Token>)
    ensures
        toks_view(r@) == spec_tokenize(s@),
{
    let n = s.len();
    let c_open = comment_open();
    let c_close = comment_close();
    let cd_open = cdata_open();
    let cd_close = cdata_close();
    let mut out: Vec<Token> = Vec::new();
    let mut i: usize = 0;
    while i < n
        invariant
            n == s@.len(),
            i <= n,
            c_open@ == spec_comment_open(),
            c_close@ == spec_comment_close(),
            cd_open@ == spec_cdata_open(),
            cd_close@ == spec_cdata_close(),
            toks_view(out@) + spec_tokenize_from(s@, i as int) == spec_tokenize(s@),
        decreases n - i,
    {
        let ghost prev = toks_view(out@);
        let tok: Token;
        let next: usize;
        if s[i] == LT {
            if bytes_match_at(s, &c_open, i) {
                let from = if i + 4 <= n {
                    i + 4
                } else {
                    n
                };
                proof {
                    if from < i + 4 {
                        assert(find_sub_from(s@, spec_comment_close(), i + 4) == -1);
                    }
                }
                match bytes_find_from(s, &c_close, from) {
                    Some(e) => {
                        tok = Token::Markup { raw: subvec(s, i, e + 3) };
                        next = e + 3;
                    },
                    None => {
                        tok = Token::Markup { raw: subvec(s, i, n) };
                        next = n;
                    },
                }
            } else if bytes_match_at(s, &cd_open, i) {
                let from = if i + 9 <= n {
                    i + 9
                } else {
                    n
                };
                proof {
                    if from < i + 9 {
                        assert(find_sub_from(s@, spec_cdata_close(), i + 9) == -1);
                    }
                }
                match bytes_find_from(s, &cd_close, from) {
                    Some(e) => {
                        tok = Token::Markup { raw: subvec(s, i, e + 3) };
                        next = e + 3;
                    },
                    None => {
                        tok = Token::Markup { raw: subvec(s, i, n) };
                        next = n;
                    },
                }
            } else if i + 1 < n && (s[i + 1] == BANG || s[i + 1] == QMARK) {
                match bytes_find_byte(s, GT, i + 1) {
                    Some(e) => {
                        tok = Token::Markup { raw: subvec(s, i, e + 1) };
                        next = e + 1;
                    },
                    None => {
                        tok = Token::Markup { raw: subvec(s, i, n) };
                        next = n;
                    },
                }
            } else if i + 1 < n && s[i + 1] == SLASH {
                match bytes_find_byte(s, GT, i + 2) {
                    Some(e) => {
                        tok = Token::End { name: subvec(s, i + 2, e) };
                        next = e + 1;
                    },
                    None => {
                        tok = Token::Markup { raw: subvec(s, i, n) };
                        next = n;
                    },
                }
            } else {
                match bytes_find_byte(s, GT, i + 1) {
                    Some(e) => {
                        if e > i + 1 && s[e - 1] == SLASH {
                            let c = subvec(s, i + 1, e - 1);
                            let (name, attrs) = split_tag_content(c);
                            tok = Token::Empty { name, attrs };
                        } else {
                            let c = subvec(s, i + 1, e);
                            let (name, attrs) = split_tag_content(c);
                            tok = Token::Start { name, attrs };
                        }
                        next = e + 1;
                    },
                    None => {
                        tok = Token::Markup { raw: subvec(s, i, n) };
                        next = n;
                    },
                }
            }
            proof {
                let sc = scan_tag(s@, i as int);
                assert(tok@ == sc.0);
                assert(next as int == if sc.1 <= i as int {
                    i + 1
                } else if sc.1 > n as int {
                    n as int
                } else {
                    sc.1
                });
            }
        } else {
            match bytes_find_byte(s, LT, i) {
                Some(e) => {
                    tok = Token::Text { raw: subvec(s, i, e) };
                    next = e;
                },
                None => {
                    tok = Token::Text { raw: subvec(s, i, n) };
                    next = n;
                },
            }
        }
        proof {
            assert(spec_tokenize_from(s@, i as int) == seq![tok@] + spec_tokenize_from(
                s@,
                next as int,
            ));
        }
        out.push(tok);
        proof {
            assert(toks_view(out@) =~~= prev + seq![out@[out@.len() - 1]@]);
            assert((prev + seq![tok@]) + spec_tokenize_from(s@, next as int) =~~= prev + (
            seq![tok@] + spec_tokenize_from(s@, next as int)));
        }
        i = next;
    }
    proof {
        assert(toks_view(out@) + Seq::<GToken>::empty() =~~= toks_view(out@));
    }
    out
}

// ---------------------------------------------------------------------
// Rendering
// ---------------------------------------------------------------------

/// Serialization of one token with text runs normalized: decode if
/// possible, then re-escape.
pub open spec fn render_token_clean(t: GToken) -> Seq<u8> {
    match t {
        GToken::Start { name, attrs } => seq![LT] + name + attrs + seq![GT],
        GToken::End { name } => seq![LT, SLASH] + name + seq![GT],
        GToken::Empty { name, attrs } => seq![LT] + name + attrs + seq![SLASH, GT],
        GToken::Text { raw } => clean_text(raw),
        GToken::Markup { raw } => raw,
    }
}

/// Serialization of one token with text runs kept verbatim.
pub open spec fn render_token_verbatim(t: GToken) -> Seq<u8> {
    match t {
        GToken::Start { name, attrs } => seq![LT] + name + attrs + seq![GT],
        GToken::End { name } => seq![LT, SLASH] + name + seq![GT],
        GToken::Empty { name, attrs } => seq![LT] + name + attrs + seq![SLASH, GT],
        GToken::Text { raw } => raw,
        GToken::Markup { raw } => raw,
    }
}

pub open spec fn render_clean_from(ts: Seq<GToken>, i: int) -> Seq<u8>
    decreases ts.len() - i,
{
    if i < 0 || i >= ts.len() {
        Seq::empty()
    } else {
        render_token_clean(ts[i]) + render_clean_from(ts, i + 1)
    }
}

/// Serialization of a token stream with normalized text runs.
pub open spec fn render_clean(ts: Seq<GToken>) -> Seq<u8> {
    render_clean_from(ts, 0)
}

pub open spec fn render_verbatim_from(ts: Seq<GToken>, i: int) -> Seq<u8>
    decreases ts.len() - i,
{
    if i < 0 || i >= ts.len() {
        Seq::empty()
    } else {
        render_token_verbatim(ts[i]) + render_verbatim_from(ts, i + 1)
    }
}

/// Serialization of a token stream with text runs kept verbatim.
pub open spec fn render_verbatim(ts: Seq<GToken>) -> Seq<u8> {
    render_verbatim_from(ts, 0)
}

/// Renders one token, normalizing text runs.
fn render_one_clean(t: &Token, out: &mut Vec<u8>)
    ensures
        final(out)@ == old(out)@ + render_token_clean(t@),
{
    match t {
        Token::Start { name, attrs } => {
            out.push(LT);
            append_bytes(out, name);
            append_bytes(out, attrs);
            out.push(GT);
            proof {
                assert(out@ =~= old(out)@ + (seq![LT] + name@ + attrs@ + seq![GT]));
            }
        },
        Token::End { name } => {
            out.push(LT);
            out.push(SLASH);
            append_bytes(out, name);
            out.push(GT);
            proof {
                assert(out@ =~= old(out)@ + (seq![LT, SLASH] + name@ + seq![GT]));
            }
        },
        Token::Empty { name, attrs } => {
            out.push(LT);
            append_bytes(out, name);
            append_bytes(out, attrs);
            out.push(SLASH);
            out.push(GT);
            proof {
                assert(out@ =~= old(out)@ + (seq![LT] + name@ + attrs@ + seq![SLASH, GT]));
            }
        },
        Token::Text { raw } => {
            let content = match unescape(raw) {
                Some(u) => u,
                None => subvec(raw, 0, raw.len()),
            };
            proof {
                assert(raw@.subrange(0, raw@.len() as int) =~= raw@);
                assert(content@ == unescape_or_raw(raw@));
            }
            let esc = escape(&content);
            append_bytes(out, &esc);
        },
        Token::Markup { raw } => {
            append_bytes(out, raw);
        },
    }
}

/// Renders one token verbatim.
fn render_one_verbatim(t: &Token, out: &mut Vec<u8>)
    ensures
        final(out)@ == old(out)@ + render_token_verbatim(t@),
{
    match t {
        Token::Start { name, attrs } => {
            out.push(LT);
            append_bytes(out, name);
            append_bytes(out, attrs);
            out.push(GT);
            proof {
                assert(out@ =~= old(out)@ + (seq![LT] + name@ + attrs@ + seq![GT]));
            }
        },
        Token::End { name } => {
            out.push(LT);
            out.push(SLASH);
            append_bytes(out, name);
            out.push(GT);
            proof {
                assert(out@ =~= old(out)@ + (seq![LT, SLASH] + name@ + seq![GT]));
            }
        },
        Token::Empty { name, attrs } => {
            out.push(LT);
            append_bytes(out, name);
            append_bytes(out, attrs);
            out.push(SLASH);
            out.push(GT);
            proof {
                assert(out@ =~= old(out)@ + (seq![LT] + name@ + attrs@ + seq![SLASH, GT]));
            }
        },
        Token::Text { raw } => {
            append_bytes(out, raw);
        },
        Token::Markup { raw } => {
            append_bytes(out, raw);
        },
    }
}

/// Renders a token stream with normalized text runs.
pub fn render_tokens_clean(ts: &Vec<Token>) -> (r: Vec<u8>)
    ensures
        r@ == render_clean(toks_view(ts@)),
{
    let mut out: Vec<u8> = Vec::new();
    let mut i: usize = 0;
    while i < ts.len()
        invariant
            i <= ts@.len(),
            render_clean(toks_view(ts@)) == out@ + render_clean_from(toks_view(ts@), i as int),
        decreases ts@.len() - i,
    {
        let ghost out0 = out@;
        render_one_clean(&ts[i], &mut out);
        proof {
            assert(toks_view(ts@)[i as int] == ts@[i as int]@);
            assert((out0 + render_token_clean(ts@[i as int]@)) + render_clean_from(
                toks_view(ts@),
                i + 1,
            ) =~= out0 + (render_token_clean(ts@[i as int]@) + render_clean_from(
                toks_view(ts@),
                i + 1,
            )));
        }
        i = i + 1;
    }
    proof {
        assert(out@ + Seq::<u8>::empty() =~= out@);
    }
    out
}

/// Renders a token stream with text runs kept verbatim.
pub fn render_tokens_verbatim(ts: &Vec<Token>) -> (r: Vec<u8>)
    ensures
        r@ == render_verbatim(toks_view(ts@)),
{
    let mut out: Vec<u8> = Vec::new();
    let mut i: usize = 0;
    while i < ts.len()
        invariant
            i <= ts@.len(),
            render_verbatim(toks_view(ts@)) == out@ + render_verbatim_from(
                toks_view(ts@),
                i as int,
            ),
        decreases ts@.len() - i,
    {
        let ghost out0 = out@;
        render_one_verbatim(&ts[i], &mut out);
        proof {
            assert(toks_view(ts@)[i as int] == ts@[i as int]@);
            assert((out0 + render_token_verbatim(ts@[i as int]@)) + render_verbatim_from(
                toks_view(ts@),
                i + 1,
            ) =~= out0 + (render_token_verbatim(ts@[i as int]@) + render_verbatim_from(
                toks_view(ts@),
                i + 1,
            )));
        }
        i = i + 1;
    }
    proof {
        assert(out@ + Seq::<u8>::empty() =~= out@);
    }
    out
}

} // verus!
