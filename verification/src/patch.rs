//! The manifest patcher: injects application-owned metadata elements into
//! the `Properties` block of a manifest and emits a reversible sidecar
//! diff, so the byte-exact original text can always be reconstructed from
//! the patched file.

use vstd::prelude::*;

use crate::ModError;
use crate::ascii::{NL, is_ws, byte_is_ws, lower_seq, to_lower, bytes_eq, subvec, append_bytes,
    spec_properties_lower, properties_lower, spec_civmods_comment, civmods_comment,
    spec_default_indent, default_indent, spec_key_category, key_category,
    spec_key_internal_version_id, key_internal_version_id, spec_key_url, key_url,
    spec_key_version, key_version, spec_key_version_date, key_version_date};
use crate::xml::{GToken, Token, toks_view, spec_tokenize, tokenize, render_verbatim,
    render_tokens_verbatim, escape_text, escape};
use crate::sanitize::close_all;

verus! {

/// The application-owned metadata injected into a manifest.
pub struct CivModsProperties {
    pub target_modinfo_id: Option<Vec<u8>>,
    pub target_modinfo_path: Option<Vec<u8>>,
    pub internal_version_id: Vec<u8>,
    pub mod_url: Vec<u8>,
    pub mod_version: Option<Vec<u8>>,
    pub mod_category: Option<Vec<u8>>,
    pub mod_version_date: Option<Vec<u8>>,
}

/// The injected elements as (tag name, value) pairs in ascending tag-name
/// order, as a sorted map would hold them.
pub open spec fn spec_fields_of(p: CivModsProperties) -> Seq<(Seq<u8>, Seq<u8>)> {
    (match p.mod_category {
        Some(c) => seq![(spec_key_category(), c@)],
        None => Seq::empty(),
    }) + seq![(spec_key_internal_version_id(), p.internal_version_id@)] + (match p.mod_url {
        u => seq![(spec_key_url(), u@)],
    }) + (match p.mod_version {
        Some(v) => seq![(spec_key_version(), v@)],
        None => Seq::empty(),
    }) + (match p.mod_version_date {
        Some(d) => seq![(spec_key_version_date(), d@)],
        None => Seq::empty(),
    })
}

/// The pair views of a field vector.
pub open spec fn pairs_view(fs: Seq<(Vec<u8>, Vec<u8>)>) -> Seq<(Seq<u8>, Seq<u8>)> {
    Seq::new(fs.len(), |i: int| (fs[i].0@, fs[i].1@))
}

/// Maps the metadata to the (tag name, value) pairs that are injected,
/// in ascending tag-name order.
pub fn map_props_to_xml(props: &CivModsProperties) -> (r: Vec<(Vec<u8>, Vec<u8>)>)
    ensures
        pairs_view(r@) == spec_fields_of(*props),
{
    let mut out: Vec<(Vec<u8>, Vec<u8>)> = Vec::new();
    match &props.mod_category {
        Some(c) => {
            out.push((key_category(), subvec(c, 0, c.len())));
        },
        None => {},
    }
    out.push((key_internal_version_id(), subvec(&props.internal_version_id, 0, props.internal_version_id.len())));
    out.push((key_url(), subvec(&props.mod_url, 0, props.mod_url.len())));
    match &props.mod_version {
        Some(v) => {
            out.push((key_version(), subvec(v, 0, v.len())));
        },
        None => {},
    }
    match &props.mod_version_date {
        Some(d) => {
            out.push((key_version_date(), subvec(d, 0, d.len())));
        },
        None => {},
    }
    proof {
        assert(pairs_view(out@) =~~= spec_fields_of(*props));
    }
    out
}

/// A text run of whitespace bytes only (the empty run included).
pub open spec fn is_ws_only(s: Seq<u8>) -> bool {
    forall|j: int| 0 <= j < s.len() ==> is_ws(#[trigger] s[j])
}

/// Executable copy of `is_ws_only`.
pub fn ws_only(s: &Vec<u8>) -> (r: bool)
    ensures
        r == is_ws_only(s@),
{
    let mut i: usize = 0;
    while i < s.len()
        invariant
            i <= s@.len(),
            forall|j: int| 0 <= j < i ==> is_ws(#[trigger] s@[j]),
        decreases s@.len() - i,
    {
        if !byte_is_ws(s[i]) {
            return false;
        }
        i = i + 1;
    }
    true
}

/// Index of the last occurrence of `b` in `s`, or `-1`.
pub open spec fn find_last_byte(s: Seq<u8>, b: u8) -> int
    decreases s.len(),
{
    if s.len() == 0 {
        -1
    } else if s.last() == b {
        s.len() - 1
    } else {
        find_last_byte(s.drop_last(), b)
    }
}

/// The last line of a text run: everything after its last line feed.
pub open spec fn last_line(s: Seq<u8>) -> Seq<u8> {
    s.skip(find_last_byte(s, NL) + 1)
}

/// Extracts the last line of a text run.
pub fn text_last_line(s: &Vec<u8>) -> (r: Vec<u8>)
    ensures
        r@ == last_line(s@),
{
    let mut i: usize = s.len();
    proof {
        assert(s@.take(i as int) =~= s@);
    }
    while i > 0
        invariant
            i <= s@.len(),
            find_last_byte(s@, NL) == find_last_byte(s@.take(i as int), NL),
            forall|j: int| i <= j < s@.len() ==> s@[j] != NL,
        decreases i,
    {
        proof {
            assert(s@.take(i as int).last() == s@[i - 1]);
            assert(s@.take(i as int).drop_last() =~= s@.take(i - 1));
        }
        if s[i - 1] == NL {
            proof {
                assert(find_last_byte(s@, NL) == i - 1);
            }
            return subvec(s, i, s.len());
        }
        i = i - 1;
    }
    proof {
        assert(s@.take(0) =~= Seq::<u8>::empty());
        assert(find_last_byte(s@, NL) == -1);
        assert(s@.subrange(0, s@.len() as int) =~= s@.skip(0));
    }
    subvec(s, 0, s.len())
}

/// A tag name naming the `Properties` element, compared without ASCII
/// case.
pub open spec fn is_props_name(name: Seq<u8>) -> bool {
    lower_seq(name) == spec_properties_lower()
}

/// A line feed followed by the captured indentation.
pub open spec fn nl_indent(ind: Seq<u8>) -> Seq<u8> {
    seq![NL] + ind
}

/// The tokens injected for the fields from index `j` on: one element per
/// field, each followed by the indentation text run.
pub open spec fn fields_block(fields: Seq<(Seq<u8>, Seq<u8>)>, ind: Seq<u8>, j: int) -> Seq<GToken>
    decreases fields.len() - j,
{
    if j < 0 || j >= fields.len() {
        Seq::empty()
    } else {
        seq![
            GToken::Start { name: fields[j].0, attrs: Seq::empty() },
            GToken::Text { raw: escape_text(fields[j].1) },
            GToken::End { name: fields[j].0 },
            GToken::Text { raw: nl_indent(ind) },
        ] + fields_block(fields, ind, j + 1)
    }
}

/// The whole injected block: the explanatory comment, an indentation text
/// run, then one element per field.
pub open spec fn insertion_block(fields: Seq<(Seq<u8>, Seq<u8>)>, ind: Seq<u8>) -> Seq<GToken> {
    seq![
        GToken::Markup { raw: spec_civmods_comment() },
        GToken::Text { raw: nl_indent(ind) },
    ] + fields_block(fields, ind, 0)
}

/// The indentation to use: the captured one, or the default four spaces.
pub open spec fn indent_or_default(ind: Option<Seq<u8>>) -> Seq<u8> {
    match ind {
        Some(x) => x,
        None => spec_default_indent(),
    }
}

/// The patch pass over a token stream. It applies the same repair rules
/// as the sanitizer (synthetic closing tags trigger no insertion), tracks
/// whether the cursor is inside a `Properties` element, captures the
/// indentation from the first whitespace-only text run inside it, and
/// injects the field block once, just before the genuine `Properties`
/// closing tag.
pub open spec fn patch_from(
    ts: Seq<GToken>,
    i: int,
    stack: Seq<Seq<u8>>,
    in_props: bool,
    inserted: bool,
    indent: Option<Seq<u8>>,
    fields: Seq<(Seq<u8>, Seq<u8>)>,
) -> Seq<GToken>
    decreases ts.len() - i,
{
    if i < 0 || i >= ts.len() {
        close_all(stack)
    } else {
        match ts[i] {
            GToken::Start { name, attrs } => seq![ts[i]] + patch_from(
                ts,
                i + 1,
                stack.push(name),
                in_props || is_props_name(name),
                inserted,
                indent,
                fields,
            ),
            GToken::Text { raw } => {
                let indent2 = if in_props && indent is None && is_ws_only(raw) {
                    Some(last_line(raw))
                } else {
                    indent
                };
                seq![ts[i]] + patch_from(ts, i + 1, stack, in_props, inserted, indent2, fields)
            },
            GToken::End { name } => {
                if stack.len() == 0 {
                    seq![ts[i]] + patch_from(ts, i + 1, stack, in_props, inserted, indent, fields)
                } else if stack.last() == name {
                    if in_props && is_props_name(name) {
                        if !inserted {
                            insertion_block(fields, indent_or_default(indent)) + seq![ts[i]]
                                + patch_from(
                                ts,
                                i + 1,
                                stack.drop_last(),
                                false,
                                true,
                                indent,
                                fields,
                            )
                        } else {
                            seq![ts[i]] + patch_from(
                                ts,
                                i + 1,
                                stack.drop_last(),
                                false,
                                inserted,
                                indent,
                                fields,
                            )
                        }
                    } else {
                        seq![ts[i]] + patch_from(
                            ts,
                            i + 1,
                            stack.drop_last(),
                            in_props,
                            inserted,
                            indent,
                            fields,
                        )
                    }
                } else {
                    seq![GToken::End { name: stack.last() }] + patch_from(
                        ts,
                        i + 1,
                        stack.drop_last(),
                        in_props,
                        inserted,
                        indent,
                        fields,
                    )
                }
            },
            _ => seq![ts[i]] + patch_from(ts, i + 1, stack, in_props, inserted, indent, fields),
        }
    }
}

/// The patched text of a manifest: tokenize, run the patch pass, and
/// re-serialize with text runs kept verbatim.
pub open spec fn patched_spec(orig: Seq<u8>, fields: Seq<(Seq<u8>, Seq<u8>)>) -> Seq<u8> {
    render_verbatim(patch_from(spec_tokenize(orig), 0, Seq::empty(), false, false, None, fields))
}

/// The view of an optional indentation vector.
pub open spec fn opt_view(o: Option<Vec<u8>>) -> Option<Seq<u8>> {
    match o {
        Some(v) => Some(v@),
        None => None,
    }
}

/// Appends the injected block for all fields to `out`.
fn emit_insertion(out: &mut Vec<Token>, fields: &Vec<(Vec<u8>, Vec<u8>)>, ind: &Vec<u8>)
    ensures
        toks_view(final(out)@) == toks_view(old(out)@) + insertion_block(pairs_view(fields@), ind@),
{
    let comment = civmods_comment();
    let mut nli: Vec<u8> = Vec::new();
    nli.push(NL);
    append_bytes(&mut nli, ind);
    proof {
        assert(nli@ =~= nl_indent(ind@));
    }
    out.push(Token::Markup { raw: comment });
    out.push(Token::Text { raw: subvec(&nli, 0, nli.len()) });
    let ghost base = toks_view(out@);
    proof {
        assert(nli@.subrange(0, nli@.len() as int) =~= nli@);
        assert(base =~~= toks_view(old(out)@) + seq![
            GToken::Markup { raw: spec_civmods_comment() },
            GToken::Text { raw: nl_indent(ind@) },
        ]);
    }
    let mut j: usize = 0;
    while j < fields.len()
        invariant
            j <= fields@.len(),
            nli@ == nl_indent(ind@),
            toks_view(out@) + fields_block(pairs_view(fields@), ind@, j as int) == base
                + fields_block(pairs_view(fields@), ind@, 0),
        decreases fields@.len() - j,
    {
        let ghost out0 = toks_view(out@);
        let key = &fields[j].0;
        let val = &fields[j].1;
        out.push(Token::Start { name: subvec(key, 0, key.len()), attrs: Vec::new() });
        out.push(Token::Text { raw: escape(val) });
        out.push(Token::End { name: subvec(key, 0, key.len()) });
        out.push(Token::Text { raw: subvec(&nli, 0, nli.len()) });
        proof {
            assert(key@.subrange(0, key@.len() as int) =~= key@);
            assert(nli@.subrange(0, nli@.len() as int) =~= nli@);
            assert(pairs_view(fields@)[j as int] == (key@, val@));
            let four = seq![
                GToken::Start { name: key@, attrs: Seq::<u8>::empty() },
                GToken::Text { raw: escape_text(val@) },
                GToken::End { name: key@ },
                GToken::Text { raw: nl_indent(ind@) },
            ];
            assert(toks_view(out@) =~~= out0 + four);
            assert(fields_block(pairs_view(fields@), ind@, j as int) == four + fields_block(
                pairs_view(fields@),
                ind@,
                j + 1,
            ));
            assert((out0 + four) + fields_block(pairs_view(fields@), ind@, j + 1) =~~= out0 + (four
                + fields_block(pairs_view(fields@), ind@, j + 1)));
        }
        j = j + 1;
    }
    proof {
        assert(fields_block(pairs_view(fields@), ind@, fields@.len() as int)
            =~~= Seq::<GToken>::empty());
        assert(toks_view(out@) + Seq::<GToken>::empty() =~~= toks_view(out@));
        assert(toks_view(out@) =~~= base + fields_block(pairs_view(fields@), ind@, 0));
        assert(toks_view(old(out)@) + insertion_block(pairs_view(fields@), ind@) =~~= (toks_view(
            old(out)@,
        ) + seq![
            GToken::Markup { raw: spec_civmods_comment() },
            GToken::Text { raw: nl_indent(ind@) },
        ]) + fields_block(pairs_view(fields@), ind@, 0));
    }
}

/// Runs the patch pass over a token vector.
fn patch_tokens(ts: &Vec<Token>, fields: &Vec<(Vec<u8>, Vec<u8>)>) -> (r: Vec<Token>)
    ensures
        toks_view(r@) == patch_from(
            toks_view(ts@),
            0,
            Seq::empty(),
            false,
            false,
            None,
            pairs_view(fields@),
        ),
{
    let ghost gts = toks_view(ts@);
    let ghost gfs = pairs_view(fields@);
    let props_l = properties_lower();
    let mut out: Vec<Token> = Vec::new();
    let mut stack: Vec<Vec<u8>> = Vec::new();
    let mut in_props: bool = false;
    let mut inserted: bool = false;
    let mut indent: Option<Vec<u8>> = None;
    let mut i: usize = 0;
    proof {
        assert(crate::sanitize::names_view(stack@) =~= Seq::<Seq<u8>>::empty());
    }
    while i < ts.len()
        invariant
            i <= ts@.len(),
            gts == toks_view(ts@),
            gfs == pairs_view(fields@),
            props_l@ == spec_properties_lower(),
            toks_view(out@) + patch_from(
                gts,
                i as int,
                crate::sanitize::names_view(stack@),
                in_props,
                inserted,
                opt_view(indent),
                gfs,
            ) == patch_from(gts, 0, Seq::empty(), false, false, None, gfs),
        decreases ts@.len() - i,
    {
        let ghost out0 = toks_view(out@);
        let ghost st0 = crate::sanitize::names_view(stack@);
        let ghost suffix0 = patch_from(gts, i as int, st0, in_props, inserted, opt_view(indent), gfs);
        proof {
            assert(gts[i as int] == ts@[i as int]@);
        }
        match &ts[i] {
            Token::Start { name, attrs } => {
                proof {
                    assert(name@.subrange(0, name@.len() as int) =~= name@);
                    assert(attrs@.subrange(0, attrs@.len() as int) =~= attrs@);
                }
                let lname = to_lower(name);
                let isp = bytes_eq(&lname, &props_l);
                stack.push(subvec(name, 0, name.len()));
                if isp {
                    in_props = true;
                }
                out.push(Token::Start { name: subvec(name, 0, name.len()), attrs: subvec(attrs, 0, attrs.len()) });
                proof {
                    assert(crate::sanitize::names_view(stack@) =~= st0.push(name@));
                    assert(out@[out@.len() - 1]@ == gts[i as int]);
                    assert(toks_view(out@) =~~= out0 + seq![gts[i as int]]);
                    assert((out0 + seq![gts[i as int]]) + patch_from(
                        gts,
                        i + 1,
                        crate::sanitize::names_view(stack@),
                        in_props,
                        inserted,
                        opt_view(indent),
                        gfs,
                    ) =~~= out0 + suffix0);
                }
            },
            Token::Text { raw } => {
                proof {
                    assert(raw@.subrange(0, raw@.len() as int) =~= raw@);
                }
                if in_props && indent.is_none() {
                    if ws_only(raw) {
                        indent = Some(text_last_line(raw));
                    }
                }
                out.push(Token::Text { raw: subvec(raw, 0, raw.len()) });
                proof {
                    assert(out@[out@.len() - 1]@ == gts[i as int]);
                    assert(toks_view(out@) =~~= out0 + seq![gts[i as int]]);
                    assert((out0 + seq![gts[i as int]]) + patch_from(
                        gts,
                        i + 1,
                        crate::sanitize::names_view(stack@),
                        in_props,
                        inserted,
                        opt_view(indent),
                        gfs,
                    ) =~~= out0 + suffix0);
                }
            },
            Token::End { name } => {
                proof {
                    assert(name@.subrange(0, name@.len() as int) =~= name@);
                }
                if stack.len() == 0 {
                    out.push(Token::End { name: subvec(name, 0, name.len()) });
                    proof {
                        assert(out@[out@.len() - 1]@ == gts[i as int]);
                        assert(toks_view(out@) =~~= out0 + seq![gts[i as int]]);
                        assert((out0 + seq![gts[i as int]]) + patch_from(
                            gts,
                            i + 1,
                            crate::sanitize::names_view(stack@),
                            in_props,
                            inserted,
                            opt_view(indent),
                            gfs,
                        ) =~~= out0 + suffix0);
                    }
                } else {
                    let top = stack.pop().unwrap();
                    proof {
                        assert(top@ == st0.last());
                        assert(crate::sanitize::names_view(stack@) =~= st0.drop_last());
                    }
                    if bytes_eq(&top, name) {
                        let lname = to_lower(name);
                        let isp = bytes_eq(&lname, &props_l);
                        if in_props && isp && !inserted {
                            let ind = match &indent {
                                Some(x) => subvec(x, 0, x.len()),
                                None => default_indent(),
                            };
                            proof {
                                assert(ind@ == indent_or_default(opt_view(indent)));
                            }
                            let ghost mid0 = toks_view(out@);
                            emit_insertion(&mut out, fields, &ind);
                            out.push(Token::End { name: subvec(name, 0, name.len()) });
                            in_props = false;
                            inserted = true;
                            proof {
                                assert(toks_view(out@) =~~= (mid0 + insertion_block(
                                    gfs,
                                    ind@,
                                )).push(gts[i as int]));
                                assert(suffix0 =~~= (insertion_block(gfs, ind@) + seq![
                                    gts[i as int],
                                ]) + patch_from(
                                    gts,
                                    i + 1,
                                    crate::sanitize::names_view(stack@),
                                    false,
                                    true,
                                    opt_view(indent),
                                    gfs,
                                ));
                                assert(toks_view(out@) + patch_from(
                                    gts,
                                    i + 1,
                                    crate::sanitize::names_view(stack@),
                                    in_props,
                                    inserted,
                                    opt_view(indent),
                                    gfs,
                                ) =~~= out0 + suffix0);
                            }
                        } else {
                            if in_props && isp {
                                in_props = false;
                            }
                            out.push(Token::End { name: subvec(name, 0, name.len()) });
                            proof {
                                assert(out@[out@.len() - 1]@ == gts[i as int]);
                                assert(toks_view(out@) =~~= out0 + seq![gts[i as int]]);
                                assert((out0 + seq![gts[i as int]]) + patch_from(
                                    gts,
                                    i + 1,
                                    crate::sanitize::names_view(stack@),
                                    in_props,
                                    inserted,
                                    opt_view(indent),
                                    gfs,
                                ) =~~= out0 + suffix0);
                            }
                        }
                    } else {
                        out.push(Token::End { name: top });
                        proof {
                            assert(out@[out@.len() - 1]@ == GToken::End { name: st0.last() });
                            assert(toks_view(out@) =~~= out0 + seq![
                                GToken::End { name: st0.last() },
                            ]);
                            assert((out0 + seq![GToken::End { name: st0.last() }]) + patch_from(
                                gts,
                                i + 1,
                                crate::sanitize::names_view(stack@),
                                in_props,
                                inserted,
                                opt_view(indent),
                                gfs,
                            ) =~~= out0 + suffix0);
                        }
                    }
                }
            },
            Token::Empty { name, attrs } => {
                proof {
                    assert(name@.subrange(0, name@.len() as int) =~= name@);
                    assert(attrs@.subrange(0, attrs@.len() as int) =~= attrs@);
                }
                out.push(Token::Empty { name: subvec(name, 0, name.len()), attrs: subvec(attrs, 0, attrs.len()) });
                proof {
                    assert(out@[out@.len() - 1]@ == gts[i as int]);
                    assert(toks_view(out@) =~~= out0 + seq![gts[i as int]]);
                    assert((out0 + seq![gts[i as int]]) + patch_from(
                        gts,
                        i + 1,
                        crate::sanitize::names_view(stack@),
                        in_props,
                        inserted,
                        opt_view(indent),
                        gfs,
                    ) =~~= out0 + suffix0);
                }
            },
            Token::Markup { raw } => {
                proof {
                    assert(raw@.subrange(0, raw@.len() as int) =~= raw@);
                }
                out.push(Token::Markup { raw: subvec(raw, 0, raw.len()) });
                proof {
                    assert(out@[out@.len() - 1]@ == gts[i as int]);
                    assert(toks_view(out@) =~~= out0 + seq![gts[i as int]]);
                    assert((out0 + seq![gts[i as int]]) + patch_from(
                        gts,
                        i + 1,
                        crate::sanitize::names_view(stack@),
                        in_props,
                        inserted,
                        opt_view(indent),
                        gfs,
                    ) =~~= out0 + suffix0);
                }
            },
        }
        i = i + 1;
    }
    while stack.len() > 0
        invariant
            toks_view(out@) + close_all(crate::sanitize::names_view(stack@)) == patch_from(
                gts,
                0,
                Seq::empty(),
                false,
                false,
                None,
                gfs,
            ),
        decreases stack@.len(),
    {
        let ghost out0 = toks_view(out@);
        let ghost st0 = crate::sanitize::names_view(stack@);
        let top = stack.pop().unwrap();
        proof {
            assert(top@ == st0.last());
            assert(crate::sanitize::names_view(stack@) =~= st0.drop_last());
        }
        out.push(Token::End { name: top });
        proof {
            assert(toks_view(out@) =~~= out0 + seq![GToken::End { name: st0.last() }]);
            assert((out0 + seq![GToken::End { name: st0.last() }]) + close_all(st0.drop_last())
                =~~= out0 + (seq![GToken::End { name: st0.last() }] + close_all(st0.drop_last())));
        }
    }
    proof {
        assert(crate::sanitize::names_view(stack@).len() == 0);
        assert(crate::sanitize::names_view(stack@) =~= Seq::<Seq<u8>>::empty());
        assert(toks_view(out@) + Seq::<GToken>::empty() =~~= toks_view(out@));
    }
    out
}

// ---------------------------------------------------------------------
// The reversible sidecar
// ---------------------------------------------------------------------

/// The result of parsing a sidecar as a diff and applying it to `base`;
/// `None` when the sidecar does not parse or does not apply cleanly.
pub uninterp spec fn apply_diff(base: Seq<u8>, patch: Seq<u8>) -> Option<Seq<u8>>;

/// Relies on `diffy::create_patch_bytes` and `diffy::Patch::to_bytes`:
/// the serialized diff from `base` to `target`, applied back onto `base`
/// with `diffy::apply_bytes`, reconstructs `target` exactly.
#[verifier::external_body]
fn make_diff(base: &Vec<u8>, target: &Vec<u8>) -> (r: Vec<u8>)
    ensures
        apply_diff(base@, r@) == Some(target@),
{
    diffy::create_patch_bytes(base.as_slice(), target.as_slice()).to_bytes()
}

/// Relies on `diffy::Patch::from_bytes` and `diffy::apply_bytes`: parsing
/// a diff and applying it to a base text is a function of the two byte
/// strings alone; a diff that does not parse or does not apply gives an
/// error.
#[verifier::external_body]
fn run_apply_diff(base: &Vec<u8>, patch: &Vec<u8>) -> (r: Option<Vec<u8>>)
    ensures
        match r {
            Some(v) => apply_diff(base@, patch@) == Some(v@),
            None => apply_diff(base@, patch@) is None,
        },
{
    match diffy::Patch::from_bytes(patch.as_slice()) {
        Ok(p) => diffy::apply_bytes(base.as_slice(), &p).ok(),
        Err(_) => None,
    }
}

/// Patches a manifest text: injects the metadata elements into its
/// `Properties` block and produces the sidecar diff that maps the patched
/// text back to the original. Restoring the patched text with the sidecar
/// reconstructs the original bit-for-bit.
pub fn patch_modinfo_xml(original: &Vec<u8>, properties: &CivModsProperties) -> (r: (
    Vec<u8>,
    Vec<u8>,
))
    ensures
        r.0@ == patched_spec(original@, spec_fields_of(*properties)),
        apply_diff(r.0@, r.1@) == Some(original@),
{
    let fields = map_props_to_xml(properties);
    let toks = tokenize(original);
    let patched_toks = patch_tokens(&toks, &fields);
    let patched = render_tokens_verbatim(&patched_toks);
    let sidecar = make_diff(&patched, original);
    (patched, sidecar)
}

/// Reconstructs the original manifest text from the current (patched)
/// text and the sidecar, in memory. `None` for the sidecar means the
/// manifest was never patched, and `Ok(None)` is returned.
pub fn restore_patched_modinfo_xml(current: &Vec<u8>, sidecar: Option<&Vec<u8>>) -> (r: Result<
    Option<Vec<u8>>,
    ModError,
>)
    ensures
        match sidecar {
            None => r matches Ok(o) && o is None,
            Some(sc) => match apply_diff(current@, sc@) {
                Some(orig) => r matches Ok(o) && o matches Some(v) && v@ == orig,
                None => r == Err::<Option<Vec<u8>>, ModError>(ModError::PatchApplyFailure),
            },
        },
{
    match sidecar {
        None => Ok(None),
        Some(sc) => match run_apply_diff(current, sc) {
            Some(v) => Ok(Some(v)),
            None => Err(ModError::PatchApplyFailure),
        },
    }
}

} // verus!
