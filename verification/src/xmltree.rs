//! An element tree over the token stream: the structured form the
//! manifest schema is read from. Unknown elements are kept; comments and
//! other opaque markup are dropped; stray closing tags are ignored and
//! unclosed elements are closed at end of input.

use vstd::prelude::*;

use crate::ascii::{subvec, append_bytes, EQS, QUOT, APOS, is_ws, byte_is_ws, find_byte_from,
    bytes_find_byte};
use crate::xml::{GToken, Token, toks_view, unescape_text, unescape_or_raw, unescape};

verus! {

/// A node of the element tree.
pub enum ENode {
    Elem { name: Vec<u8>, attrs: Vec<u8>, children: Vec<ENode> },
    Text { raw: Vec<u8> },
}

/// The mathematical model of a node.
pub enum SNode {
    Elem { name: Seq<u8>, attrs: Seq<u8>, children: Seq<SNode> },
    Text { raw: Seq<u8> },
}

/// The model of one node.
pub open spec fn enode_view(n: ENode) -> SNode
    decreases n, 1int, 0int,
{
    match n {
        ENode::Elem { name, attrs, children } => SNode::Elem {
            name: name@,
            attrs: attrs@,
            children: echildren_view(n, 0),
        },
        ENode::Text { raw } => SNode::Text { raw: raw@ },
    }
}

pub open spec fn echildren_left(n: ENode, j: int) -> int {
    match n {
        ENode::Elem { name, attrs, children } => children@.len() - j,
        _ => 0,
    }
}

/// The models of an element's children from index `j` on.
pub open spec fn echildren_view(n: ENode, j: int) -> Seq<SNode>
    decreases n, 0int, echildren_left(n, j),
{
    match n {
        ENode::Elem { name, attrs, children } => {
            if j < 0 || j >= children@.len() {
                Seq::empty()
            } else {
                seq![enode_view(children@[j])] + echildren_view(n, j + 1)
            }
        },
        _ => Seq::empty(),
    }
}

/// The models of a node vector.
pub open spec fn enodes_view(s: Seq<ENode>) -> Seq<SNode> {
    Seq::new(s.len(), |i: int| enode_view(s[i]))
}

/// The children views of a built element agree with the vector's views.
pub proof fn lemma_echildren_view(name: Vec<u8>, attrs: Vec<u8>, children: Vec<ENode>, j: int)
    requires
        0 <= j <= children@.len(),
    ensures
        echildren_view(ENode::Elem { name, attrs, children }, j) == enodes_view(
            children@,
        ).skip(j),
    decreases children@.len() - j,
{
    if j == children@.len() {
        assert(enodes_view(children@).skip(j) =~= Seq::<SNode>::empty());
    } else {
        lemma_echildren_view(name, attrs, children, j + 1);
        assert(enodes_view(children@).skip(j) =~= seq![enodes_view(children@)[j]] + enodes_view(
            children@,
        ).skip(j + 1));
    }
}

/// The children views of an element node agree with its child vector's
/// views.
pub proof fn lemma_echildren_view_ref(n: &ENode, j: int)
    requires
        *n is Elem,
        0 <= j <= n->Elem_children@.len(),
    ensures
        echildren_view(*n, j) == enodes_view(n->Elem_children@).skip(j),
    decreases n->Elem_children@.len() - j,
{
    if j == n->Elem_children@.len() {
        assert(enodes_view(n->Elem_children@).skip(j) =~= Seq::<SNode>::empty());
    } else {
        lemma_echildren_view_ref(n, j + 1);
        assert(enodes_view(n->Elem_children@).skip(j) =~= seq![
            enodes_view(n->Elem_children@)[j],
        ] + enodes_view(n->Elem_children@).skip(j + 1));
    }
}

/// A frame of the builder: an element opened and not yet closed, with
/// the sibling nodes gathered before it opened.
pub struct Frame {
    pub name: Vec<u8>,
    pub attrs: Vec<u8>,
    pub siblings: Vec<ENode>,
}

/// The model of a frame stack.
pub open spec fn frames_view(fs: Seq<Frame>) -> Seq<(Seq<u8>, Seq<u8>, Seq<SNode>)> {
    Seq::new(fs.len(), |i: int| (fs[i].name@, fs[i].attrs@, enodes_view(fs[i].siblings@)))
}

/// Closes every open frame at end of input, innermost first.
pub open spec fn close_frames(
    stack: Seq<(Seq<u8>, Seq<u8>, Seq<SNode>)>,
    cur: Seq<SNode>,
) -> Seq<SNode>
    decreases stack.len(),
{
    if stack.len() == 0 {
        cur
    } else {
        let f = stack.last();
        close_frames(
            stack.drop_last(),
            f.2.push(SNode::Elem { name: f.0, attrs: f.1, children: cur }),
        )
    }
}

/// Builds the node list of a token stream from index `i`, with the given
/// open frames and the nodes gathered at the current level.
pub open spec fn build_nodes(
    ts: Seq<GToken>,
    i: int,
    stack: Seq<(Seq<u8>, Seq<u8>, Seq<SNode>)>,
    cur: Seq<SNode>,
) -> Seq<SNode>
    decreases ts.len() - i,
{
    if i < 0 || i >= ts.len() {
        close_frames(stack, cur)
    } else {
        match ts[i] {
            GToken::Start { name, attrs } => build_nodes(
                ts,
                i + 1,
                stack.push((name, attrs, cur)),
                Seq::empty(),
            ),
            GToken::Empty { name, attrs } => build_nodes(
                ts,
                i + 1,
                stack,
                cur.push(SNode::Elem { name, attrs, children: Seq::empty() }),
            ),
            GToken::Text { raw } => build_nodes(ts, i + 1, stack, cur.push(SNode::Text { raw })),
            GToken::Markup { raw } => build_nodes(ts, i + 1, stack, cur),
            GToken::End { name } => {
                if stack.len() == 0 {
                    build_nodes(ts, i + 1, stack, cur)
                } else {
                    let f = stack.last();
                    build_nodes(
                        ts,
                        i + 1,
                        stack.drop_last(),
                        f.2.push(SNode::Elem { name: f.0, attrs: f.1, children: cur }),
                    )
                }
            },
        }
    }
}

/// The element tree of a token stream.
pub open spec fn build_tree(ts: Seq<GToken>) -> Seq<SNode> {
    build_nodes(ts, 0, Seq::empty(), Seq::empty())
}

/// Builds the element tree of a token vector.
pub fn build_tree_exec(ts: &Vec<Token>) -> (r: Vec<ENode>)
    ensures
        enodes_view(r@) == build_tree(toks_view(ts@)),
{
    let ghost gts = toks_view(ts@);
    let mut stack: Vec<Frame> = Vec::new();
    let mut cur: Vec<ENode> = Vec::new();
    let mut i: usize = 0;
    proof {
        assert(frames_view(stack@) =~= Seq::<(Seq<u8>, Seq<u8>, Seq<SNode>)>::empty());
        assert(enodes_view(cur@) =~= Seq::<SNode>::empty());
    }
    while i < ts.len()
        invariant
            i <= ts@.len(),
            gts == toks_view(ts@),
            build_nodes(gts, i as int, frames_view(stack@), enodes_view(cur@)) == build_tree(gts),
        decreases ts@.len() - i,
    {
        let ghost st0 = frames_view(stack@);
        let ghost cur0 = enodes_view(cur@);
        proof {
            assert(gts[i as int] == ts@[i as int]@);
        }
        match &ts[i] {
            Token::Start { name, attrs } => {
                let f = Frame {
                    name: subvec(name, 0, name.len()),
                    attrs: subvec(attrs, 0, attrs.len()),
                    siblings: cur,
                };
                proof {
                    assert(name@.subrange(0, name@.len() as int) =~= name@);
                    assert(attrs@.subrange(0, attrs@.len() as int) =~= attrs@);
                }
                stack.push(f);
                cur = Vec::new();
                proof {
                    assert(frames_view(stack@) =~= st0.push((name@, attrs@, cur0)));
                    assert(enodes_view(cur@) =~= Seq::<SNode>::empty());
                }
            },
            Token::Empty { name, attrs } => {
                proof {
                    assert(name@.subrange(0, name@.len() as int) =~= name@);
                    assert(attrs@.subrange(0, attrs@.len() as int) =~= attrs@);
                }
                let node = ENode::Elem {
                    name: subvec(name, 0, name.len()),
                    attrs: subvec(attrs, 0, attrs.len()),
                    children: Vec::new(),
                };
                proof {
                    lemma_echildren_view(
                        node->Elem_name,
                        node->Elem_attrs,
                        node->Elem_children,
                        0,
                    );
                    assert(enodes_view(node->Elem_children@) =~= Seq::<SNode>::empty());
                    assert(Seq::<SNode>::empty().skip(0) =~= Seq::<SNode>::empty());
                    assert(enode_view(node) == (SNode::Elem {
                        name: name@,
                        attrs: attrs@,
                        children: Seq::<SNode>::empty(),
                    }));
                }
                cur.push(node);
                proof {
                    assert(enodes_view(cur@) =~= cur0.push(
                        SNode::Elem {
                            name: name@,
                            attrs: attrs@,
                            children: Seq::<SNode>::empty(),
                        },
                    ));
                }
            },
            Token::Text { raw } => {
                proof {
                    assert(raw@.subrange(0, raw@.len() as int) =~= raw@);
                }
                cur.push(ENode::Text { raw: subvec(raw, 0, raw.len()) });
                proof {
                    assert(enodes_view(cur@) =~= cur0.push(SNode::Text { raw: raw@ }));
                }
            },
            Token::Markup { raw } => {
            },
            Token::End { name } => {
                if stack.len() == 0 {
                } else {
                    let f = stack.pop().unwrap();
                    proof {
                        assert(frames_view(stack@) =~= st0.drop_last());
                        assert((f.name@, f.attrs@, enodes_view(f.siblings@)) == st0.last());
                    }
                    let node = ENode::Elem { name: f.name, attrs: f.attrs, children: cur };
                    proof {
                        lemma_echildren_view(
                            node->Elem_name,
                            node->Elem_attrs,
                            node->Elem_children,
                            0,
                        );
                        assert(enodes_view(node->Elem_children@).skip(0) =~= enodes_view(
                            node->Elem_children@,
                        ));
                        assert(enode_view(node) == (SNode::Elem {
                            name: st0.last().0,
                            attrs: st0.last().1,
                            children: cur0,
                        }));
                    }
                    let mut sibs = f.siblings;
                    let ghost sibs0 = enodes_view(sibs@);
                    sibs.push(node);
                    proof {
                        assert(enodes_view(sibs@) =~= sibs0.push(enode_view(node)));
                        assert(sibs0 == st0.last().2);
                    }
                    cur = sibs;
                }
            },
        }
        i = i + 1;
    }
    while stack.len() > 0
        invariant
            close_frames(frames_view(stack@), enodes_view(cur@)) == build_tree(gts),
        decreases stack@.len(),
    {
        let ghost st0 = frames_view(stack@);
        let ghost cur0 = enodes_view(cur@);
        let f = stack.pop().unwrap();
        proof {
            assert(frames_view(stack@) =~= st0.drop_last());
            assert((f.name@, f.attrs@, enodes_view(f.siblings@)) == st0.last());
        }
        let node = ENode::Elem { name: f.name, attrs: f.attrs, children: cur };
        proof {
            lemma_echildren_view(node->Elem_name, node->Elem_attrs, node->Elem_children, 0);
            assert(enodes_view(node->Elem_children@).skip(0) =~= enodes_view(
                node->Elem_children@,
            ));
            assert(enode_view(node) == (SNode::Elem {
                name: st0.last().0,
                attrs: st0.last().1,
                children: cur0,
            }));
        }
        let mut sibs = f.siblings;
        let ghost sibs0 = enodes_view(sibs@);
        sibs.push(node);
        proof {
            assert(enodes_view(sibs@) =~= sibs0.push(enode_view(node)));
            assert(sibs0 == st0.last().2);
        }
        cur = sibs;
    }
    proof {
        assert(frames_view(stack@).len() == 0);
        assert(frames_view(stack@) =~= Seq::<(Seq<u8>, Seq<u8>, Seq<SNode>)>::empty());
    }
    cur
}

// ---------------------------------------------------------------------
// Attributes
// ---------------------------------------------------------------------

/// A byte string with trailing whitespace removed.
pub open spec fn trim_ws_end(s: Seq<u8>) -> Seq<u8>
    decreases s.len(),
{
    if s.len() > 0 && is_ws(s.last()) {
        trim_ws_end(s.drop_last())
    } else {
        s
    }
}

/// First index at or after `j` holding a non-whitespace byte, or the
/// length.
pub open spec fn skip_ws_from(s: Seq<u8>, j: int) -> int
    decreases s.len() - j,
{
    if j < 0 {
        0
    } else if j >= s.len() {
        s.len() as int
    } else if is_ws(s[j]) {
        skip_ws_from(s, j + 1)
    } else {
        j
    }
}

/// The attribute pairs parsed from the raw attribute run of a tag, from
/// index `i` on: `name="value"` or `name='value'`, names trimmed, values
/// entity-decoded where they decode. Parsing stops at the first malformed
/// rest.
pub open spec fn attrs_from(s: Seq<u8>, i: int) -> Seq<(Seq<u8>, Seq<u8>)>
    decreases s.len() - i,
{
    let n = s.len() as int;
    if i < 0 || i >= n {
        Seq::empty()
    } else if is_ws(s[i]) {
        attrs_from(s, i + 1)
    } else {
        let ne = find_byte_from(s, EQS, i);
        if ne == -1 {
            Seq::empty()
        } else {
            let name = trim_ws_end(s.subrange(i, ne));
            let q = skip_ws_from(s, ne + 1);
            if q >= n || (s[q] != QUOT && s[q] != APOS) {
                Seq::empty()
            } else {
                let ve = find_byte_from(s, s[q], q + 1);
                if ve == -1 {
                    Seq::empty()
                } else {
                    let value = unescape_or_raw(s.subrange(q + 1, ve));
                    let next0 = ve + 1;
                    let next = if next0 <= i {
                        i + 1
                    } else if next0 > n {
                        n
                    } else {
                        next0
                    };
                    seq![(name, value)] + attrs_from(s, next)
                }
            }
        }
    }
}

/// The attribute pairs of a raw attribute run.
pub open spec fn attrs_of(s: Seq<u8>) -> Seq<(Seq<u8>, Seq<u8>)> {
    attrs_from(s, 0)
}

/// The value of the first attribute with the given name.
pub open spec fn attr_lookup(pairs: Seq<(Seq<u8>, Seq<u8>)>, name: Seq<u8>) -> Option<Seq<u8>>
    decreases pairs.len(),
{
    if pairs.len() == 0 {
        None
    } else if pairs[0].0 == name {
        Some(pairs[0].1)
    } else {
        attr_lookup(pairs.skip(1), name)
    }
}

/// The value of an attribute of a tag with the given raw attribute run.
pub open spec fn attr_of(attrs_raw: Seq<u8>, name: Seq<u8>) -> Option<Seq<u8>> {
    attr_lookup(attrs_of(attrs_raw), name)
}

/// Trims trailing whitespace.
fn trim_end(v: &Vec<u8>) -> (r: Vec<u8>)
    ensures
        r@ == trim_ws_end(v@),
{
    let mut i: usize = v.len();
    proof {
        assert(v@.take(i as int) =~= v@);
    }
    while i > 0
        invariant
            i <= v@.len(),
            trim_ws_end(v@) == trim_ws_end(v@.take(i as int)),
        decreases i,
    {
        proof {
            assert(v@.take(i as int).last() == v@[i - 1]);
            assert(v@.take(i as int).drop_last() =~= v@.take(i - 1));
        }
        if !byte_is_ws(v[i - 1]) {
            return subvec(v, 0, i);
        }
        i = i - 1;
    }
    proof {
        assert(v@.take(0) =~= Seq::<u8>::empty());
    }
    subvec(v, 0, 0)
}

/// Parses the attribute pairs of a raw attribute run.
pub fn parse_attrs(s: &Vec<u8>) -> (r: Vec<(Vec<u8>, Vec<u8>)>)
    ensures
        crate::patch::pairs_view(r@) == attrs_of(s@),
{
    let n = s.len();
    let mut out: Vec<(Vec<u8>, Vec<u8>)> = Vec::new();
    let mut i: usize = 0;
    proof {
        assert(crate::patch::pairs_view(out@) =~= Seq::<(Seq<u8>, Seq<u8>)>::empty());
    }
    while i < n
        invariant
            i <= n,
            n == s@.len(),
            crate::patch::pairs_view(out@) + attrs_from(s@, i as int) == attrs_of(s@),
        decreases n - i,
    {
        let ghost done0 = crate::patch::pairs_view(out@);
        if byte_is_ws(s[i]) {
            i = i + 1;
            continue;
        }
        let ne = match bytes_find_byte(s, EQS, i) {
            Some(x) => x,
            None => {
                proof {
                    assert(done0 + Seq::<(Seq<u8>, Seq<u8>)>::empty() =~= done0);
                }
                return out;
            },
        };
        let rawname = subvec(s, i, ne);
        let name = trim_end(&rawname);
        // skip whitespace after the equals sign
        let mut q: usize = ne + 1;
        while q < n && byte_is_ws(s[q])
            invariant
                ne + 1 <= q <= n,
                n == s@.len(),
                skip_ws_from(s@, ne + 1) == skip_ws_from(s@, q as int),
            decreases n - q,
        {
            q = q + 1;
        }
        proof {
            assert(skip_ws_from(s@, ne + 1) == q as int);
        }
        if q >= n {
            proof {
                assert(attrs_from(s@, i as int) =~= Seq::<(Seq<u8>, Seq<u8>)>::empty());
                assert(done0 + Seq::<(Seq<u8>, Seq<u8>)>::empty() =~= done0);
            }
            return out;
        }
        let qc = s[q];
        if qc != QUOT && qc != APOS {
            proof {
                assert(attrs_from(s@, i as int) =~= Seq::<(Seq<u8>, Seq<u8>)>::empty());
                assert(done0 + Seq::<(Seq<u8>, Seq<u8>)>::empty() =~= done0);
            }
            return out;
        }
        let ve = match bytes_find_byte(s, qc, q + 1) {
            Some(x) => x,
            None => {
                proof {
                    assert(attrs_from(s@, i as int) =~= Seq::<(Seq<u8>, Seq<u8>)>::empty());
                    assert(done0 + Seq::<(Seq<u8>, Seq<u8>)>::empty() =~= done0);
                }
                return out;
            },
        };
        let rawval = subvec(s, q + 1, ve);
        let value = match unescape(&rawval) {
            Some(u) => u,
            None => rawval,
        };
        proof {
            assert(value@ == unescape_or_raw(s@.subrange(q + 1, ve as int)));
        }
        out.push((name, value));
        proof {
            assert(crate::patch::pairs_view(out@) =~~= done0 + seq![
                (trim_ws_end(s@.subrange(i as int, ne as int)), unescape_or_raw(
                    s@.subrange(q + 1, ve as int),
                )),
            ]);
            assert((done0 + seq![
                (trim_ws_end(s@.subrange(i as int, ne as int)), unescape_or_raw(
                    s@.subrange(q + 1, ve as int),
                )),
            ]) + attrs_from(s@, ve + 1) =~~= done0 + attrs_from(s@, i as int));
        }
        i = ve + 1;
    }
    proof {
        assert(crate::patch::pairs_view(out@) + Seq::<(Seq<u8>, Seq<u8>)>::empty()
            =~~= crate::patch::pairs_view(out@));
    }
    out
}

/// Looks up an attribute of a tag by name in its raw attribute run.
pub fn get_attr(attrs_raw: &Vec<u8>, name: &Vec<u8>) -> (r: Option<Vec<u8>>)
    ensures
        match r {
            Some(v) => attr_of(attrs_raw@, name@) == Some(v@),
            None => attr_of(attrs_raw@, name@) is None,
        },
{
    let pairs = parse_attrs(attrs_raw);
    let ghost gp = attrs_of(attrs_raw@);
    let mut i: usize = 0;
    proof {
        assert(gp.skip(0) =~= gp);
    }
    while i < pairs.len()
        invariant
            i <= pairs@.len(),
            gp == attrs_of(attrs_raw@),
            crate::patch::pairs_view(pairs@) == gp,
            attr_lookup(gp, name@) == attr_lookup(gp.skip(i as int), name@),
        decreases pairs@.len() - i,
    {
        proof {
            assert(gp.skip(i as int)[0] == gp[i as int]);
            assert(gp.skip(i as int).skip(1) =~= gp.skip(i + 1));
        }
        proof {
            assert(gp[i as int] == (pairs@[i as int].0@, pairs@[i as int].1@));
        }
        if crate::ascii::bytes_eq(&pairs[i].0, name) {
            let v = subvec(&pairs[i].1, 0, pairs[i].1.len());
            proof {
                assert(v@ =~= gp[i as int].1);
                assert(attr_lookup(gp.skip(i as int), name@) == Some(gp[i as int].1));
            }
            return Some(v);
        }
        i = i + 1;
    }
    proof {
        assert(gp.skip(i as int) =~= Seq::<(Seq<u8>, Seq<u8>)>::empty());
    }
    None
}

// ---------------------------------------------------------------------
// Node lookups
// ---------------------------------------------------------------------

/// The first element child with the given name, from index `j` on.
pub open spec fn child_named_from(children: Seq<SNode>, name: Seq<u8>, j: int) -> Option<SNode>
    decreases children.len() - j,
{
    if j < 0 || j >= children.len() {
        None
    } else {
        match children[j] {
            SNode::Elem { name: n2, attrs, children: c2 } => if n2 == name {
                Some(children[j])
            } else {
                child_named_from(children, name, j + 1)
            },
            _ => child_named_from(children, name, j + 1),
        }
    }
}

/// The first element child with the given name.
pub open spec fn child_named(children: Seq<SNode>, name: Seq<u8>) -> Option<SNode> {
    child_named_from(children, name, 0)
}

/// A found child is always an element node.
pub proof fn lemma_child_named_is_elem(cs: Seq<SNode>, name: Seq<u8>, j: int)
    requires
        child_named_from(cs, name, j) is Some,
    ensures
        child_named_from(cs, name, j).unwrap() is Elem,
        child_named_from(cs, name, j).unwrap()->Elem_name == name,
    decreases cs.len() - j,
{
    if 0 <= j < cs.len() {
        match cs[j] {
            SNode::Elem { name: n2, attrs, children: c2 } => {
                if n2 == name {
                } else {
                    lemma_child_named_is_elem(cs, name, j + 1);
                }
            },
            _ => {
                lemma_child_named_is_elem(cs, name, j + 1);
            },
        }
    }
}

/// The first element child of any name, from index `j` on.
pub open spec fn first_elem_from(children: Seq<SNode>, j: int) -> Option<SNode>
    decreases children.len() - j,
{
    if j < 0 || j >= children.len() {
        None
    } else {
        match children[j] {
            SNode::Elem { .. } => Some(children[j]),
            _ => first_elem_from(children, j + 1),
        }
    }
}

/// The first element child of any name.
pub open spec fn first_elem(children: Seq<SNode>) -> Option<SNode> {
    first_elem_from(children, 0)
}

/// A found first element is an element node, and it is the view of the
/// node the executable search returns.
pub proof fn lemma_first_elem_is_elem(cs: Seq<SNode>, j: int)
    requires
        first_elem_from(cs, j) is Some,
    ensures
        first_elem_from(cs, j).unwrap() is Elem,
    decreases cs.len() - j,
{
    if 0 <= j < cs.len() {
        match cs[j] {
            SNode::Elem { .. } => {},
            _ => {
                lemma_first_elem_is_elem(cs, j + 1);
            },
        }
    }
}

/// The concatenated raw text of the text children, from index `j` on.
pub open spec fn raw_text_from(children: Seq<SNode>, j: int) -> Seq<u8>
    decreases children.len() - j,
{
    if j < 0 || j >= children.len() {
        Seq::empty()
    } else {
        match children[j] {
            SNode::Text { raw } => raw + raw_text_from(children, j + 1),
            _ => raw_text_from(children, j + 1),
        }
    }
}

/// The text content of an element: its text runs concatenated and
/// entity-decoded where they decode.
pub open spec fn text_content(children: Seq<SNode>) -> Seq<u8> {
    unescape_or_raw(raw_text_from(children, 0))
}

/// Finds the first element child with the given name.
pub fn find_child<'a>(children: &'a Vec<ENode>, name: &Vec<u8>) -> (r: Option<&'a ENode>)
    ensures
        match r {
            Some(c) => child_named(enodes_view(children@), name@) == Some(enode_view(*c)),
            None => child_named(enodes_view(children@), name@) is None,
        },
{
    let ghost cs = enodes_view(children@);
    let mut j: usize = 0;
    while j < children.len()
        invariant
            j <= children@.len(),
            cs == enodes_view(children@),
            child_named(cs, name@) == child_named_from(cs, name@, j as int),
        decreases children@.len() - j,
    {
        proof {
            assert(cs[j as int] == enode_view(children@[j as int]));
        }
        match &children[j] {
            ENode::Elem { name: n2, attrs, children: c2 } => {
                if crate::ascii::bytes_eq(n2, name) {
                    return Some(&children[j]);
                }
            },
            _ => {},
        }
        j = j + 1;
    }
    None
}

/// Finds the first element child of any name.
pub fn find_first_elem<'a>(children: &'a Vec<ENode>) -> (r: Option<&'a ENode>)
    ensures
        match r {
            Some(c) => first_elem(enodes_view(children@)) == Some(enode_view(*c)),
            None => first_elem(enodes_view(children@)) is None,
        },
{
    let ghost cs = enodes_view(children@);
    let mut j: usize = 0;
    while j < children.len()
        invariant
            j <= children@.len(),
            cs == enodes_view(children@),
            first_elem(cs) == first_elem_from(cs, j as int),
        decreases children@.len() - j,
    {
        proof {
            assert(cs[j as int] == enode_view(children@[j as int]));
        }
        match &children[j] {
            ENode::Elem { .. } => {
                return Some(&children[j]);
            },
            _ => {},
        }
        j = j + 1;
    }
    None
}

/// Extracts the text content of an element.
pub fn get_text(children: &Vec<ENode>) -> (r: Vec<u8>)
    ensures
        r@ == text_content(enodes_view(children@)),
{
    let ghost cs = enodes_view(children@);
    let mut raw: Vec<u8> = Vec::new();
    let mut j: usize = 0;
    while j < children.len()
        invariant
            j <= children@.len(),
            cs == enodes_view(children@),
            raw@ + raw_text_from(cs, j as int) == raw_text_from(cs, 0),
        decreases children@.len() - j,
    {
        let ghost raw0 = raw@;
        proof {
            assert(cs[j as int] == enode_view(children@[j as int]));
        }
        match &children[j] {
            ENode::Text { raw: t } => {
                append_bytes(&mut raw, t);
                proof {
                    assert((raw0 + t@) + raw_text_from(cs, j + 1) =~= raw0 + (t@ + raw_text_from(
                        cs,
                        j + 1,
                    )));
                }
            },
            _ => {},
        }
        j = j + 1;
    }
    proof {
        assert(raw@ + Seq::<u8>::empty() =~= raw@);
    }
    match unescape(&raw) {
        Some(u) => u,
        None => raw,
    }
}

} // verus!
