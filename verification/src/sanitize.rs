//! The manifest sanitizer: a lenient re-serializer that repairs the
//! three ill-formedness patterns local repair can fix, and normalizes
//! text runs so that stray ampersands and angle brackets become valid
//! markup again.

use vstd::prelude::*;

use crate::ascii::{subvec, LT, GT, SLASH, match_at, find_sub_from, find_byte_from,
    lemma_find_sub_found, lemma_find_byte_found, spec_comment_open, spec_comment_close,
    spec_cdata_open, spec_cdata_close};
use crate::xml::{GToken, Token, toks_view, spec_tokenize, spec_tokenize_from, scan_tag, tokenize,
    render_clean, render_clean_from, render_token_clean, render_tokens_clean, clean_text,
    tag_name, tag_attrs};

verus! {

/// Closing tags for every name still open, innermost first.
pub open spec fn close_all(stack: Seq<Seq<u8>>) -> Seq<GToken>
    decreases stack.len(),
{
    if stack.len() == 0 {
        Seq::empty()
    } else {
        seq![GToken::End { name: stack.last() }] + close_all(stack.drop_last())
    }
}

/// The repair pass over a token stream, from index `i` with the given
/// stack of open tag names:
///
/// - a closing tag matching the innermost open tag closes it;
/// - a closing tag that does not match it is replaced by a synthetic
///   closing tag for the tag that was open (the mismatched one is dropped);
/// - a closing tag with no open tag at all passes through unchanged;
/// - at the end of input every still-open tag is closed synthetically.
pub open spec fn repair_from(ts: Seq<GToken>, i: int, stack: Seq<Seq<u8>>) -> Seq<GToken>
    decreases ts.len() - i,
{
    if i < 0 || i >= ts.len() {
        close_all(stack)
    } else {
        match ts[i] {
            GToken::Start { name, attrs } => seq![ts[i]] + repair_from(ts, i + 1, stack.push(name)),
            GToken::End { name } => {
                if stack.len() == 0 {
                    seq![ts[i]] + repair_from(ts, i + 1, stack)
                } else if stack.last() == name {
                    seq![ts[i]] + repair_from(ts, i + 1, stack.drop_last())
                } else {
                    seq![GToken::End { name: stack.last() }] + repair_from(
                        ts,
                        i + 1,
                        stack.drop_last(),
                    )
                }
            },
            _ => seq![ts[i]] + repair_from(ts, i + 1, stack),
        }
    }
}

/// The repaired form of a token stream.
pub open spec fn repair(ts: Seq<GToken>) -> Seq<GToken> {
    repair_from(ts, 0, Seq::empty())
}

/// What `sanitize_xml` returns: tokenize, repair, re-serialize with
/// normalized text runs.
pub open spec fn sanitize_spec(x: Seq<u8>) -> Seq<u8> {
    render_clean(repair(spec_tokenize(x)))
}

/// The names of the open tags of a token vector stack.
pub open spec fn names_view(st: Seq<Vec<u8>>) -> Seq<Seq<u8>> {
    Seq::new(st.len(), |i: int| st[i]@)
}

/// Runs the repair pass over a token vector.
pub fn repair_tokens(ts: Vec<Token>) -> (r: Vec<Token>)
    ensures
        toks_view(r@) == repair(toks_view(ts@)),
{
    let ghost gts = toks_view(ts@);
    let mut out: Vec<Token> = Vec::new();
    let mut stack: Vec<Vec<u8>> = Vec::new();
    let mut i: usize = 0;
    proof {
        assert(names_view(stack@) =~= Seq::<Seq<u8>>::empty());
    }
    while i < ts.len()
        invariant
            i <= ts@.len(),
            gts == toks_view(ts@),
            toks_view(out@) + repair_from(gts, i as int, names_view(stack@)) == repair(gts),
        decreases ts@.len() - i,
    {
        let ghost out0 = toks_view(out@);
        let ghost st0 = names_view(stack@);
        proof {
            assert(gts[i as int] == ts@[i as int]@);
        }
        match &ts[i] {
            Token::Start { name, attrs } => {
                proof {
                    assert(name@.subrange(0, name@.len() as int) =~= name@);
                    assert(attrs@.subrange(0, attrs@.len() as int) =~= attrs@);
                }
                let n2 = subvec(name, 0, name.len());
                stack.push(n2);
                out.push(Token::Start { name: subvec(name, 0, name.len()), attrs: subvec(attrs, 0, attrs.len()) });
                proof {
                    assert(names_view(stack@) =~= st0.push(name@));
                    assert(out@[out@.len() - 1]@ == gts[i as int]);
                }
            },
            Token::End { name } => {
                proof {
                    assert(name@.subrange(0, name@.len() as int) =~= name@);
                }
                if stack.len() == 0 {
                    out.push(Token::End { name: subvec(name, 0, name.len()) });
                    proof {
                        assert(out@[out@.len() - 1]@ == gts[i as int]);
                    }
                } else {
                    let top = stack.pop().unwrap();
                    proof {
                        assert(top@ == st0.last());
                        assert(names_view(stack@) =~= st0.drop_last());
                    }
                    if crate::ascii::bytes_eq(&top, name) {
                        out.push(Token::End { name: subvec(name, 0, name.len()) });
                        proof {
                            assert(out@[out@.len() - 1]@ == gts[i as int]);
                        }
                    } else {
                        out.push(Token::End { name: top });
                        proof {
                            assert(out@[out@.len() - 1]@ == GToken::End { name: st0.last() });
                        }
                    }
                }
            },
            Token::Empty { name, attrs } => {
                proof {
                    assert(name@.subrange(0, name@.len() as int) =~= name@);
                    assert(attrs@.subrange(0, attrs@.len() as int) =~= attrs@);
                }
                out.push(Token::Empty { name: subvec(name, 0, name.len()), attrs: subvec(attrs, 0, attrs.len()) });
                proof {
                    assert(out@[out@.len() - 1]@ == gts[i as int]);
                }
            },
            Token::Text { raw } => {
                proof {
                    assert(raw@.subrange(0, raw@.len() as int) =~= raw@);
                }
                out.push(Token::Text { raw: subvec(raw, 0, raw.len()) });
                proof {
                    assert(out@[out@.len() - 1]@ == gts[i as int]);
                }
            },
            Token::Markup { raw } => {
                proof {
                    assert(raw@.subrange(0, raw@.len() as int) =~= raw@);
                }
                out.push(Token::Markup { raw: subvec(raw, 0, raw.len()) });
                proof {
                    assert(out@[out@.len() - 1]@ == gts[i as int]);
                }
            },
        }
        proof {
            assert(toks_view(out@) =~~= out0 + seq![out@[out@.len() - 1]@]);
            assert(repair_from(gts, i as int, st0) == seq![out@[out@.len() - 1]@] + repair_from(
                gts,
                i + 1,
                names_view(stack@),
            ));
            assert((out0 + seq![out@[out@.len() - 1]@]) + repair_from(
                gts,
                i + 1,
                names_view(stack@),
            ) =~~= out0 + (seq![out@[out@.len() - 1]@] + repair_from(
                gts,
                i + 1,
                names_view(stack@),
            )));
        }
        i = i + 1;
    }
    while stack.len() > 0
        invariant
            toks_view(out@) + close_all(names_view(stack@)) == repair(gts),
        decreases stack@.len(),
    {
        let ghost out0 = toks_view(out@);
        let ghost st0 = names_view(stack@);
        let top = stack.pop().unwrap();
        proof {
            assert(top@ == st0.last());
            assert(names_view(stack@) =~= st0.drop_last());
        }
        out.push(Token::End { name: top });
        proof {
            assert(toks_view(out@) =~~= out0 + seq![GToken::End { name: st0.last() }]);
            assert((out0 + seq![GToken::End { name: st0.last() }]) + close_all(st0.drop_last())
                =~~= out0 + (seq![GToken::End { name: st0.last() }] + close_all(st0.drop_last())));
        }
    }
    proof {
        assert(names_view(stack@).len() == 0);
        assert(names_view(stack@) =~= Seq::<Seq<u8>>::empty());
        assert(toks_view(out@) + Seq::<GToken>::empty() =~~= toks_view(out@));
    }
    out
}

/// Repairs ill-formed manifest markup: mismatched closing tags are
/// replaced by the expected ones, missing closing tags are synthesized
/// at the end of input, stray closing tags pass through, and text runs
/// are re-escaped from their decoded form.
pub fn sanitize_xml(input: &Vec<u8>) -> (r: Vec<u8>)
    ensures
        r@ == sanitize_spec(input@),
{
    let toks = tokenize(input);
    let repaired = repair_tokens(toks);
    render_tokens_clean(&repaired)
}

// ---------------------------------------------------------------------
// Idempotence
// ---------------------------------------------------------------------

/// A token stream is balanced from `(i, stack)` when every opened tag is
/// closed by a matching closing tag and no stray closing tag occurs.
pub open spec fn balanced_from(ts: Seq<GToken>, i: int, stack: Seq<Seq<u8>>) -> bool
    decreases ts.len() - i,
{
    if i < 0 || i >= ts.len() {
        stack.len() == 0
    } else {
        match ts[i] {
            GToken::Start { name, attrs } => balanced_from(ts, i + 1, stack.push(name)),
            GToken::End { name } => stack.len() > 0 && stack.last() == name && balanced_from(
                ts,
                i + 1,
                stack.drop_last(),
            ),
            _ => balanced_from(ts, i + 1, stack),
        }
    }
}

/// A balanced token stream.
pub open spec fn balanced(ts: Seq<GToken>) -> bool {
    balanced_from(ts, 0, Seq::empty())
}

/// A text run is canonical when normalizing it changes nothing.
pub open spec fn canonical_texts(ts: Seq<GToken>) -> bool {
    forall|i: int|
        0 <= i < ts.len() ==> match #[trigger] ts[i] {
            GToken::Text { raw } => clean_text(raw) == raw,
            _ => true,
        }
}

/// Well-formed manifest markup: it tokenizes to a balanced stream whose
/// text runs are canonical.
pub open spec fn well_formed_markup(x: Seq<u8>) -> bool {
    &&& balanced(spec_tokenize(x))
    &&& canonical_texts(spec_tokenize(x))
}

/// Serialization from a later position equals serialization of the
/// suffix.
proof fn lemma_render_suffix(ts: Seq<GToken>, k: int)
    requires
        0 <= k <= ts.len(),
    ensures
        render_clean_from(ts, k) == render_clean(ts.skip(k)),
    decreases ts.len() - k,
{
    if k == ts.len() {
    } else {
        lemma_render_suffix(ts, k + 1);
        assert(ts.skip(k)[0] == ts[k]);
        assert(ts.skip(k).skip(1) =~= ts.skip(k + 1));
        assert(render_clean_from(ts.skip(k), 1) == render_clean(ts.skip(k).skip(1))) by {
            lemma_render_suffix(ts.skip(k), 1);
        }
    }
}

/// Serializing a token stream starts with its first token's bytes.
proof fn lemma_render_cons(t: GToken, rest: Seq<GToken>)
    ensures
        render_clean(seq![t] + rest) == render_token_clean(t) + render_clean(rest),
{
    let ts = seq![t] + rest;
    assert(ts[0] == t);
    lemma_render_suffix(ts, 1);
    assert(ts.skip(1) =~= rest);
}

/// Serializing the token stream of `x` from position `i` gives the bytes
/// of `x` from `i` back, as long as every text run is canonical: the
/// tokenizer partitions its input exactly, and every tag and opaque run
/// serializes back to the slice it was read from.
proof fn lemma_render_tokenize(x: Seq<u8>, i: int)
    requires
        0 <= i <= x.len(),
        canonical_texts(spec_tokenize_from(x, i)),
    ensures
        render_clean(spec_tokenize_from(x, i)) == x.skip(i),
    decreases x.len() - i,
{
    let n = x.len() as int;
    if i == n {
        assert(x.skip(i) =~= Seq::<u8>::empty());
    } else if x[i] == LT {
        let sc = scan_tag(x, i);
        let j = if sc.1 <= i {
            i + 1
        } else if sc.1 > n {
            n
        } else {
            sc.1
        };
        let ts = spec_tokenize_from(x, i);
        assert(ts == seq![sc.0] + spec_tokenize_from(x, j));
        assert(canonical_texts(spec_tokenize_from(x, j))) by {
            assert(forall|k: int|
                0 <= k < spec_tokenize_from(x, j).len() ==> #[trigger] spec_tokenize_from(
                    x,
                    j,
                )[k] == ts[k + 1]);
        }
        lemma_render_cons(sc.0, spec_tokenize_from(x, j));
        // the scanned token serializes back to the slice it was read from
        if match_at(x, spec_comment_open(), i) {
            let e = find_sub_from(x, spec_comment_close(), i + 4);
            if e == -1 {
                assert(render_token_clean(sc.0) =~= x.subrange(i, n));
            } else {
                lemma_find_sub_found(x, spec_comment_close(), i + 4);
                assert(render_token_clean(sc.0) =~= x.subrange(i, e + 3));
            }
        } else if match_at(x, spec_cdata_open(), i) {
            let e = find_sub_from(x, spec_cdata_close(), i + 9);
            if e == -1 {
                assert(render_token_clean(sc.0) =~= x.subrange(i, n));
            } else {
                lemma_find_sub_found(x, spec_cdata_close(), i + 9);
                assert(render_token_clean(sc.0) =~= x.subrange(i, e + 3));
            }
        } else if i + 1 < n && (x[i + 1] == crate::ascii::BANG || x[i + 1]
            == crate::ascii::QMARK) {
            let e = find_byte_from(x, GT, i + 1);
            if e == -1 {
                assert(render_token_clean(sc.0) =~= x.subrange(i, n));
            } else {
                lemma_find_byte_found(x, GT, i + 1);
                assert(render_token_clean(sc.0) =~= x.subrange(i, e + 1));
            }
        } else if i + 1 < n && x[i + 1] == SLASH {
            let e = find_byte_from(x, GT, i + 2);
            if e == -1 {
                assert(render_token_clean(sc.0) =~= x.subrange(i, n));
            } else {
                lemma_find_byte_found(x, GT, i + 2);
                assert(render_token_clean(sc.0) =~= seq![LT, SLASH] + x.subrange(i + 2, e) + seq![
                    GT,
                ]);
                assert(seq![LT, SLASH] + x.subrange(i + 2, e) + seq![GT] =~= x.subrange(
                    i,
                    e + 1,
                ));
            }
        } else {
            let e = find_byte_from(x, GT, i + 1);
            if e == -1 {
                assert(render_token_clean(sc.0) =~= x.subrange(i, n));
            } else {
                lemma_find_byte_found(x, GT, i + 1);
                if e > i + 1 && x[e - 1] == SLASH {
                    let c = x.subrange(i + 1, e - 1);
                    crate::xml::lemma_name_len_bounds(c);
                    assert(tag_name(c) + tag_attrs(c) =~= c);
                    assert(render_token_clean(sc.0) =~= seq![LT] + c + seq![SLASH, GT]);
                    assert(seq![LT] + c + seq![SLASH, GT] =~= x.subrange(i, e + 1));
                } else {
                    let c = x.subrange(i + 1, e);
                    crate::xml::lemma_name_len_bounds(c);
                    assert(tag_name(c) + tag_attrs(c) =~= c);
                    assert(render_token_clean(sc.0) =~= seq![LT] + c + seq![GT]);
                    assert(seq![LT] + c + seq![GT] =~= x.subrange(i, e + 1));
                }
            }
        }
        lemma_render_tokenize(x, j);
        assert(x.subrange(i, j) + x.skip(j) =~= x.skip(i));
    } else {
        let e = find_byte_from(x, LT, i);
        let j = if e <= i || e > n {
            n
        } else {
            e
        };
        let raw = x.subrange(i, j);
        let t = GToken::Text { raw };
        let ts = spec_tokenize_from(x, i);
        assert(ts == seq![t] + spec_tokenize_from(x, j));
        assert(canonical_texts(spec_tokenize_from(x, j))) by {
            assert(forall|k: int|
                0 <= k < spec_tokenize_from(x, j).len() ==> #[trigger] spec_tokenize_from(
                    x,
                    j,
                )[k] == ts[k + 1]);
        }
        assert(ts[0] == t);
        assert(clean_text(raw) == raw);
        lemma_render_cons(t, spec_tokenize_from(x, j));
        if e != -1 {
            lemma_find_byte_found(x, LT, i);
        }
        lemma_render_tokenize(x, j);
        assert(raw + x.skip(j) =~= x.skip(i));
    }
}

/// Repair leaves a balanced stream untouched./// Repair leaves a balanced stream untouched.
pub proof fn lemma_repair_balanced(ts: Seq<GToken>, i: int, stack: Seq<Seq<u8>>)
    requires
        0 <= i <= ts.len(),
        balanced_from(ts, i, stack),
    ensures
        repair_from(ts, i, stack) == ts.skip(i),
    decreases ts.len() - i,
{
    if i >= ts.len() {
        assert(close_all(stack) =~= Seq::<GToken>::empty());
        assert(ts.skip(i) =~= Seq::<GToken>::empty());
    } else {
        match ts[i] {
            GToken::Start { name, attrs } => {
                lemma_repair_balanced(ts, i + 1, stack.push(name));
            },
            GToken::End { name } => {
                lemma_repair_balanced(ts, i + 1, stack.drop_last());
            },
            _ => {
                lemma_repair_balanced(ts, i + 1, stack);
            },
        }
        assert(ts.skip(i) =~= seq![ts[i]] + ts.skip(i + 1));
    }
}

/// Sanitizing leaves well-formed input untouched.
pub proof fn lemma_sanitize_well_formed(x: Seq<u8>)
    requires
        well_formed_markup(x),
    ensures
        sanitize_spec(x) == x,
{
    lemma_repair_balanced(spec_tokenize(x), 0, Seq::empty());
    assert(spec_tokenize(x).skip(0) =~= spec_tokenize(x));
    lemma_render_tokenize(x, 0);
    assert(x.skip(0) =~= x);
}

/// The sanitizer is idempotent on well-formed input.
pub proof fn lemma_sanitize_idempotent(x: Seq<u8>)
    requires
        well_formed_markup(x),
    ensures
        sanitize_spec(sanitize_spec(x)) == sanitize_spec(x),
{
    lemma_sanitize_well_formed(x);
}

} // verus!
