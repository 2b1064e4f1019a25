//! Byte-level helpers shared by the markup, fingerprint and path code.
//!
//! All text in this crate is handled as raw bytes; the helpers here give
//! the byte constants and the small string operations the contracts are
//! written over.

use vstd::prelude::*;

verus! {

pub const LT: u8 = 60;

pub const GT: u8 = 62;

pub const AMP: u8 = 38;

pub const APOS: u8 = 39;

pub const QUOT: u8 = 34;

pub const SLASH: u8 = 47;

pub const BANG: u8 = 33;

pub const QMARK: u8 = 63;

pub const EQS: u8 = 61;

pub const DOT: u8 = 46;

pub const NL: u8 = 10;

pub const CR: u8 = 13;

pub const SP: u8 = 32;

pub const TAB: u8 = 9;

pub const USCORE: u8 = 95;

pub const MINUS: u8 = 45;

/// An ASCII whitespace byte: space, tab, carriage return or line feed.
pub open spec fn is_ws(b: u8) -> bool {
    b == SP || b == TAB || b == CR || b == NL
}

/// Executable copy of `is_ws`.
pub fn byte_is_ws(b: u8) -> (r: bool)
    ensures
        r == is_ws(b),
{
    b == SP || b == TAB || b == CR || b == NL
}

/// ASCII lower-casing of one byte; other bytes are unchanged.
pub open spec fn lower_byte(b: u8) -> u8 {
    if 65 <= b <= 90 {
        (b + 32) as u8
    } else {
        b
    }
}

/// Executable copy of `lower_byte`.
pub fn byte_to_lower(b: u8) -> (r: u8)
    ensures
        r == lower_byte(b),
{
    if 65 <= b && b <= 90 {
        b + 32
    } else {
        b
    }
}

/// Pointwise ASCII lower-casing of a byte string.
pub open spec fn lower_seq(s: Seq<u8>) -> Seq<u8> {
    Seq::new(s.len(), |i: int| lower_byte(s[i]))
}

/// Lower-cases a byte string.
pub fn to_lower(v: &Vec<u8>) -> (r: Vec<u8>)
    ensures
        r@ == lower_seq(v@),
{
    let mut out: Vec<u8> = Vec::new();
    let mut i: usize = 0;
    while i < v.len()
        invariant
            i <= v@.len(),
            out@ =~= lower_seq(v@).take(i as int),
        decreases v@.len() - i,
    {
        out.push(byte_to_lower(v[i]));
        i = i + 1;
        proof {
            assert(out@ =~= lower_seq(v@).take(i as int));
        }
    }
    proof {
        assert(out@ =~= lower_seq(v@));
    }
    out
}

/// Equality of two byte strings.
pub fn bytes_eq(a: &Vec<u8>, b: &Vec<u8>) -> (r: bool)
    ensures
        r == (a@ == b@),
{
    if a.len() != b.len() {
        proof {
            assert(a@ != b@);
        }
        return false;
    }
    let mut i: usize = 0;
    while i < a.len()
        invariant
            a@.len() == b@.len(),
            i <= a@.len(),
            forall|j: int| 0 <= j < i ==> a@[j] == b@[j],
        decreases a@.len() - i,
    {
        if a[i] != b[i] {
            proof {
                assert(a@ != b@);
            }
            return false;
        }
        i = i + 1;
    }
    proof {
        assert(a@ =~= b@);
    }
    true
}

/// Case-insensitive (ASCII) equality of two byte strings.
pub fn bytes_eq_ignore_case(a: &Vec<u8>, b: &Vec<u8>) -> (r: bool)
    ensures
        r == (lower_seq(a@) == lower_seq(b@)),
{
    let la = to_lower(a);
    let lb = to_lower(b);
    bytes_eq(&la, &lb)
}

/// `p` is a prefix of `s`.
pub open spec fn has_prefix(s: Seq<u8>, p: Seq<u8>) -> bool {
    s.len() >= p.len() && s.take(p.len() as int) == p
}

/// Prefix test starting at offset `from` of `s`.
pub open spec fn match_at(s: Seq<u8>, p: Seq<u8>, from: int) -> bool {
    from + p.len() <= s.len() && s.subrange(from, from + p.len()) == p
}

/// Executable prefix test at an offset.
pub fn bytes_match_at(s: &Vec<u8>, p: &Vec<u8>, from: usize) -> (r: bool)
    requires
        from <= s@.len(),
    ensures
        r == match_at(s@, p@, from as int),
{
    let n: usize = s.len();
    if p.len() > n - from {
        return false;
    }
    let mut i: usize = 0;
    let mut j: usize = from;
    while i < p.len()
        invariant
            n == s@.len(),
            from + p@.len() <= s@.len(),
            i <= p@.len(),
            j == from + i,
            forall|k: int| 0 <= k < i ==> s@[from + k] == p@[k],
        decreases p@.len() - i,
    {
        if s[j] != p[i] {
            proof {
                assert(s@.subrange(from as int, from + p@.len())[i as int] != p@[i as int]);
            }
            return false;
        }
        i = i + 1;
        j = j + 1;
    }
    proof {
        assert(s@.subrange(from as int, from + p@.len()) =~= p@);
    }
    true
}

/// First index `i >= from` where `p` occurs in `s`, or `-1`.
pub open spec fn find_sub_from(s: Seq<u8>, p: Seq<u8>, from: int) -> int
    decreases s.len() + 1 - from,
{
    if from < 0 || from + p.len() > s.len() {
        -1
    } else if match_at(s, p, from) {
        from
    } else {
        find_sub_from(s, p, from + 1)
    }
}

/// Finds the first occurrence of `p` in `s` at or after `from`.
pub fn bytes_find_from(s: &Vec<u8>, p: &Vec<u8>, from: usize) -> (r: Option<usize>)
    requires
        from <= s@.len(),
    ensures
        match r {
            Some(i) => find_sub_from(s@, p@, from as int) == i as int && from <= i <= s@.len()
                && match_at(s@, p@, i as int),
            None => find_sub_from(s@, p@, from as int) == -1,
        },
{
    let mut i: usize = from;
    loop
        invariant
            from <= i <= s@.len(),
            find_sub_from(s@, p@, from as int) == find_sub_from(s@, p@, i as int),
        decreases s@.len() - i,
    {
        if p.len() == 0 {
            proof {
                assert(s@.subrange(i as int, i as int) =~= p@);
            }
            return Some(i);
        }
        if p.len() > s.len() - i {
            proof {
                assert(find_sub_from(s@, p@, i as int) == -1);
            }
            return None;
        }
        if bytes_match_at(s, p, i) {
            return Some(i);
        }
        i = i + 1;
    }
}

/// First index `i >= from` with `s[i] == b`, or `-1`.
pub open spec fn find_byte_from(s: Seq<u8>, b: u8, from: int) -> int
    decreases s.len() - from,
{
    if from < 0 || from >= s.len() {
        -1
    } else if s[from] == b {
        from
    } else {
        find_byte_from(s, b, from + 1)
    }
}

/// Finds the first occurrence of byte `b` in `s` at or after `from`.
pub fn bytes_find_byte(s: &Vec<u8>, b: u8, from: usize) -> (r: Option<usize>)
    requires
        from <= s@.len(),
    ensures
        match r {
            Some(i) => find_byte_from(s@, b, from as int) == i as int && from <= i < s@.len()
                && s@[i as int] == b,
            None => find_byte_from(s@, b, from as int) == -1,
        },
{
    let mut i: usize = from;
    while i < s.len()
        invariant
            from <= i <= s@.len(),
            find_byte_from(s@, b, from as int) == find_byte_from(s@, b, i as int),
        decreases s@.len() - i,
    {
        if s[i] == b {
            return Some(i);
        }
        i = i + 1;
    }
    None
}

/// Where a pattern search succeeds, the pattern matches there, at or
/// after the start position.
pub proof fn lemma_find_sub_found(s: Seq<u8>, p: Seq<u8>, from: int)
    requires
        find_sub_from(s, p, from) != -1,
    ensures
        from <= find_sub_from(s, p, from),
        match_at(s, p, find_sub_from(s, p, from)),
    decreases s.len() + 1 - from,
{
    if from < 0 || from + p.len() > s.len() {
    } else if match_at(s, p, from) {
    } else {
        lemma_find_sub_found(s, p, from + 1);
    }
}

/// Where a byte search succeeds, the byte sits there, at or after the
/// start position.
pub proof fn lemma_find_byte_found(s: Seq<u8>, b: u8, from: int)
    requires
        find_byte_from(s, b, from) != -1,
    ensures
        from <= find_byte_from(s, b, from) < s.len(),
        s[find_byte_from(s, b, from)] == b,
    decreases s.len() - from,
{
    if from < 0 || from >= s.len() {
    } else if s[from] == b {
    } else {
        lemma_find_byte_found(s, b, from + 1);
    }
}

/// Copies `v[from..to]` out as a fresh byte string.
pub fn subvec(v: &Vec<u8>, from: usize, to: usize) -> (r: Vec<u8>)
    requires
        from <= to <= v@.len(),
    ensures
        r@ == v@.subrange(from as int, to as int),
{
    let mut out: Vec<u8> = Vec::new();
    let mut i: usize = from;
    while i < to
        invariant
            from <= i <= to <= v@.len(),
            out@ =~= v@.subrange(from as int, i as int),
        decreases to - i,
    {
        out.push(v[i]);
        i = i + 1;
        proof {
            assert(out@ =~= v@.subrange(from as int, i as int));
        }
    }
    out
}

/// Appends all of `src` to `dst`.
pub fn append_bytes(dst: &mut Vec<u8>, src: &Vec<u8>)
    ensures
        final(dst)@ == old(dst)@ + src@,
{
    let mut i: usize = 0;
    while i < src.len()
        invariant
            i <= src@.len(),
            dst@ =~= old(dst)@ + src@.take(i as int),
        decreases src@.len() - i,
    {
        dst.push(src[i]);
        i = i + 1;
        proof {
            assert(dst@ =~= old(dst)@ + src@.take(i as int));
        }
    }
    proof {
        assert(dst@ =~= old(dst)@ + src@);
    }
}

/// Bytes of `&amp;`.
pub open spec fn spec_amp_ent() -> Seq<u8> {
    seq![38u8, 97u8, 109u8, 112u8, 59u8]
}

/// Executable copy of `spec_amp_ent`.
pub fn amp_ent() -> (r: Vec<u8>)
    ensures
        r@ == spec_amp_ent(),
{
    let v: Vec<u8> = vec![38u8, 97u8, 109u8, 112u8, 59u8];
    proof {
        assert(v@ =~= spec_amp_ent());
    }
    v
}

/// Bytes of `&lt;`.
pub open spec fn spec_lt_ent() -> Seq<u8> {
    seq![38u8, 108u8, 116u8, 59u8]
}

/// Executable copy of `spec_lt_ent`.
pub fn lt_ent() -> (r: Vec<u8>)
    ensures
        r@ == spec_lt_ent(),
{
    let v: Vec<u8> = vec![38u8, 108u8, 116u8, 59u8];
    proof {
        assert(v@ =~= spec_lt_ent());
    }
    v
}

/// Bytes of `&gt;`.
pub open spec fn spec_gt_ent() -> Seq<u8> {
    seq![38u8, 103u8, 116u8, 59u8]
}

/// Executable copy of `spec_gt_ent`.
pub fn gt_ent() -> (r: Vec<u8>)
    ensures
        r@ == spec_gt_ent(),
{
    let v: Vec<u8> = vec![38u8, 103u8, 116u8, 59u8];
    proof {
        assert(v@ =~= spec_gt_ent());
    }
    v
}

/// Bytes of `&apos;`.
pub open spec fn spec_apos_ent() -> Seq<u8> {
    seq![38u8, 97u8, 112u8, 111u8, 115u8, 59u8]
}

/// Executable copy of `spec_apos_ent`.
pub fn apos_ent() -> (r: Vec<u8>)
    ensures
        r@ == spec_apos_ent(),
{
    let v: Vec<u8> = vec![38u8, 97u8, 112u8, 111u8, 115u8, 59u8];
    proof {
        assert(v@ =~= spec_apos_ent());
    }
    v
}

/// Bytes of `&quot;`.
pub open spec fn spec_quot_ent() -> Seq<u8> {
    seq![38u8, 113u8, 117u8, 111u8, 116u8, 59u8]
}

/// Executable copy of `spec_quot_ent`.
pub fn quot_ent() -> (r: Vec<u8>)
    ensures
        r@ == spec_quot_ent(),
{
    let v: Vec<u8> = vec![38u8, 113u8, 117u8, 111u8, 116u8, 59u8];
    proof {
        assert(v@ =~= spec_quot_ent());
    }
    v
}

/// Bytes of `<!--`.
pub open spec fn spec_comment_open() -> Seq<u8> {
    seq![60u8, 33u8, 45u8, 45u8]
}

/// Executable copy of `spec_comment_open`.
pub fn comment_open() -> (r: Vec<u8>)
    ensures
        r@ == spec_comment_open(),
{
    let v: Vec<u8> = vec![60u8, 33u8, 45u8, 45u8];
    proof {
        assert(v@ =~= spec_comment_open());
    }
    v
}

/// Bytes of `-->`.
pub open spec fn spec_comment_close() -> Seq<u8> {
    seq![45u8, 45u8, 62u8]
}

/// Executable copy of `spec_comment_close`.
pub fn comment_close() -> (r: Vec<u8>)
    ensures
        r@ == spec_comment_close(),
{
    let v: Vec<u8> = vec![45u8, 45u8, 62u8];
    proof {
        assert(v@ =~= spec_comment_close());
    }
    v
}

/// Bytes of `<![CDATA[`.
pub open spec fn spec_cdata_open() -> Seq<u8> {
    seq![60u8, 33u8, 91u8, 67u8, 68u8, 65u8, 84u8, 65u8, 91u8]
}

/// Executable copy of `spec_cdata_open`.
pub fn cdata_open() -> (r: Vec<u8>)
    ensures
        r@ == spec_cdata_open(),
{
    let v: Vec<u8> = vec![60u8, 33u8, 91u8, 67u8, 68u8, 65u8, 84u8, 65u8, 91u8];
    proof {
        assert(v@ =~= spec_cdata_open());
    }
    v
}

/// Bytes of `]]>`.
pub open spec fn spec_cdata_close() -> Seq<u8> {
    seq![93u8, 93u8, 62u8]
}

/// Executable copy of `spec_cdata_close`.
pub fn cdata_close() -> (r: Vec<u8>)
    ensures
        r@ == spec_cdata_close(),
{
    let v: Vec<u8> = vec![93u8, 93u8, 62u8];
    proof {
        assert(v@ =~= spec_cdata_close());
    }
    v
}

/// Bytes of `properties`.
pub open spec fn spec_properties_lower() -> Seq<u8> {
    seq![112u8, 114u8, 111u8, 112u8, 101u8, 114u8, 116u8, 105u8, 101u8, 115u8]
}

/// Executable copy of `spec_properties_lower`.
pub fn properties_lower() -> (r: Vec<u8>)
    ensures
        r@ == spec_properties_lower(),
{
    let v: Vec<u8> = vec![112u8, 114u8, 111u8, 112u8, 101u8, 114u8, 116u8, 105u8, 101u8, 115u8];
    proof {
        assert(v@ =~= spec_properties_lower());
    }
    v
}

/// Bytes of `<!-- Added automatically by CivMods: Do not edit -->`.
pub open spec fn spec_civmods_comment() -> Seq<u8> {
    seq![60u8, 33u8, 45u8, 45u8, 32u8, 65u8, 100u8, 100u8, 101u8, 100u8, 32u8, 97u8, 117u8, 116u8, 111u8, 109u8, 97u8, 116u8, 105u8, 99u8, 97u8, 108u8, 108u8, 121u8, 32u8, 98u8, 121u8, 32u8, 67u8, 105u8, 118u8, 77u8, 111u8, 100u8, 115u8, 58u8, 32u8, 68u8, 111u8, 32u8, 110u8, 111u8, 116u8, 32u8, 101u8, 100u8, 105u8, 116u8, 32u8, 45u8, 45u8, 62u8]
}

/// Executable copy of `spec_civmods_comment`.
pub fn civmods_comment() -> (r: Vec<u8>)
    ensures
        r@ == spec_civmods_comment(),
{
    let v: Vec<u8> = vec![60u8, 33u8, 45u8, 45u8, 32u8, 65u8, 100u8, 100u8, 101u8, 100u8, 32u8, 97u8, 117u8, 116u8, 111u8, 109u8, 97u8, 116u8, 105u8, 99u8, 97u8, 108u8, 108u8, 121u8, 32u8, 98u8, 121u8, 32u8, 67u8, 105u8, 118u8, 77u8, 111u8, 100u8, 115u8, 58u8, 32u8, 68u8, 111u8, 32u8, 110u8, 111u8, 116u8, 32u8, 101u8, 100u8, 105u8, 116u8, 32u8, 45u8, 45u8, 62u8];
    proof {
        assert(v@ =~= spec_civmods_comment());
    }
    v
}

/// Bytes of `CivModsCategory`.
pub open spec fn spec_key_category() -> Seq<u8> {
    seq![67u8, 105u8, 118u8, 77u8, 111u8, 100u8, 115u8, 67u8, 97u8, 116u8, 101u8, 103u8, 111u8, 114u8, 121u8]
}

/// Executable copy of `spec_key_category`.
pub fn key_category() -> (r: Vec<u8>)
    ensures
        r@ == spec_key_category(),
{
    let v: Vec<u8> = vec![67u8, 105u8, 118u8, 77u8, 111u8, 100u8, 115u8, 67u8, 97u8, 116u8, 101u8, 103u8, 111u8, 114u8, 121u8];
    proof {
        assert(v@ =~= spec_key_category());
    }
    v
}

/// Bytes of `CivModsInternalVersionId`.
pub open spec fn spec_key_internal_version_id() -> Seq<u8> {
    seq![67u8, 105u8, 118u8, 77u8, 111u8, 100u8, 115u8, 73u8, 110u8, 116u8, 101u8, 114u8, 110u8, 97u8, 108u8, 86u8, 101u8, 114u8, 115u8, 105u8, 111u8, 110u8, 73u8, 100u8]
}

/// Executable copy of `spec_key_internal_version_id`.
pub fn key_internal_version_id() -> (r: Vec<u8>)
    ensures
        r@ == spec_key_internal_version_id(),
{
    let v: Vec<u8> = vec![67u8, 105u8, 118u8, 77u8, 111u8, 100u8, 115u8, 73u8, 110u8, 116u8, 101u8, 114u8, 110u8, 97u8, 108u8, 86u8, 101u8, 114u8, 115u8, 105u8, 111u8, 110u8, 73u8, 100u8];
    proof {
        assert(v@ =~= spec_key_internal_version_id());
    }
    v
}

/// Bytes of `CivModsURL`.
pub open spec fn spec_key_url() -> Seq<u8> {
    seq![67u8, 105u8, 118u8, 77u8, 111u8, 100u8, 115u8, 85u8, 82u8, 76u8]
}

/// Executable copy of `spec_key_url`.
pub fn key_url() -> (r: Vec<u8>)
    ensures
        r@ == spec_key_url(),
{
    let v: Vec<u8> = vec![67u8, 105u8, 118u8, 77u8, 111u8, 100u8, 115u8, 85u8, 82u8, 76u8];
    proof {
        assert(v@ =~= spec_key_url());
    }
    v
}

/// Bytes of `CivModsVersion`.
pub open spec fn spec_key_version() -> Seq<u8> {
    seq![67u8, 105u8, 118u8, 77u8, 111u8, 100u8, 115u8, 86u8, 101u8, 114u8, 115u8, 105u8, 111u8, 110u8]
}

/// Executable copy of `spec_key_version`.
pub fn key_version() -> (r: Vec<u8>)
    ensures
        r@ == spec_key_version(),
{
    let v: Vec<u8> = vec![67u8, 105u8, 118u8, 77u8, 111u8, 100u8, 115u8, 86u8, 101u8, 114u8, 115u8, 105u8, 111u8, 110u8];
    proof {
        assert(v@ =~= spec_key_version());
    }
    v
}

/// Bytes of `CivModsVersionDate`.
pub open spec fn spec_key_version_date() -> Seq<u8> {
    seq![67u8, 105u8, 118u8, 77u8, 111u8, 100u8, 115u8, 86u8, 101u8, 114u8, 115u8, 105u8, 111u8, 110u8, 68u8, 97u8, 116u8, 101u8]
}

/// Executable copy of `spec_key_version_date`.
pub fn key_version_date() -> (r: Vec<u8>)
    ensures
        r@ == spec_key_version_date(),
{
    let v: Vec<u8> = vec![67u8, 105u8, 118u8, 77u8, 111u8, 100u8, 115u8, 86u8, 101u8, 114u8, 115u8, 105u8, 111u8, 110u8, 68u8, 97u8, 116u8, 101u8];
    proof {
        assert(v@ =~= spec_key_version_date());
    }
    v
}

/// Bytes of `    `.
pub open spec fn spec_default_indent() -> Seq<u8> {
    seq![32u8, 32u8, 32u8, 32u8]
}

/// Executable copy of `spec_default_indent`.
pub fn default_indent() -> (r: Vec<u8>)
    ensures
        r@ == spec_default_indent(),
{
    let v: Vec<u8> = vec![32u8, 32u8, 32u8, 32u8];
    proof {
        assert(v@ =~= spec_default_indent());
    }
    v
}

/// Bytes of `modinfo`.
pub open spec fn spec_modinfo_ext() -> Seq<u8> {
    seq![109u8, 111u8, 100u8, 105u8, 110u8, 102u8, 111u8]
}

/// Executable copy of `spec_modinfo_ext`.
pub fn modinfo_ext() -> (r: Vec<u8>)
    ensures
        r@ == spec_modinfo_ext(),
{
    let v: Vec<u8> = vec![109u8, 111u8, 100u8, 105u8, 110u8, 102u8, 111u8];
    proof {
        assert(v@ =~= spec_modinfo_ext());
    }
    v
}

/// Bytes of `.civmods-modinfo.diff`.
pub open spec fn spec_sidecar_name() -> Seq<u8> {
    seq![46u8, 99u8, 105u8, 118u8, 109u8, 111u8, 100u8, 115u8, 45u8, 109u8, 111u8, 100u8, 105u8, 110u8, 102u8, 111u8, 46u8, 100u8, 105u8, 102u8, 102u8]
}

/// Executable copy of `spec_sidecar_name`.
pub fn sidecar_name() -> (r: Vec<u8>)
    ensures
        r@ == spec_sidecar_name(),
{
    let v: Vec<u8> = vec![46u8, 99u8, 105u8, 118u8, 109u8, 111u8, 100u8, 115u8, 45u8, 109u8, 111u8, 100u8, 105u8, 110u8, 102u8, 111u8, 46u8, 100u8, 105u8, 102u8, 102u8];
    proof {
        assert(v@ =~= spec_sidecar_name());
    }
    v
}

/// Bytes of `__macosx`.
pub open spec fn spec_macosx_lower() -> Seq<u8> {
    seq![95u8, 95u8, 109u8, 97u8, 99u8, 111u8, 115u8, 120u8]
}

/// Executable copy of `spec_macosx_lower`.
pub fn macosx_lower() -> (r: Vec<u8>)
    ensures
        r@ == spec_macosx_lower(),
{
    let v: Vec<u8> = vec![95u8, 95u8, 109u8, 97u8, 99u8, 111u8, 115u8, 120u8];
    proof {
        assert(v@ =~= spec_macosx_lower());
    }
    v
}

/// Bytes of `thumbs.db`.
pub open spec fn spec_thumbs_lower() -> Seq<u8> {
    seq![116u8, 104u8, 117u8, 109u8, 98u8, 115u8, 46u8, 100u8, 98u8]
}

/// Executable copy of `spec_thumbs_lower`.
pub fn thumbs_lower() -> (r: Vec<u8>)
    ensures
        r@ == spec_thumbs_lower(),
{
    let v: Vec<u8> = vec![116u8, 104u8, 117u8, 109u8, 98u8, 115u8, 46u8, 100u8, 98u8];
    proof {
        assert(v@ =~= spec_thumbs_lower());
    }
    v
}

/// Bytes of `<unable to compute folder hash>`.
pub open spec fn spec_hash_error_text() -> Seq<u8> {
    seq![60u8, 117u8, 110u8, 97u8, 98u8, 108u8, 101u8, 32u8, 116u8, 111u8, 32u8, 99u8, 111u8, 109u8, 112u8, 117u8, 116u8, 101u8, 32u8, 102u8, 111u8, 108u8, 100u8, 101u8, 114u8, 32u8, 104u8, 97u8, 115u8, 104u8, 62u8]
}

/// Executable copy of `spec_hash_error_text`.
pub fn hash_error_text() -> (r: Vec<u8>)
    ensures
        r@ == spec_hash_error_text(),
{
    let v: Vec<u8> = vec![60u8, 117u8, 110u8, 97u8, 98u8, 108u8, 101u8, 32u8, 116u8, 111u8, 32u8, 99u8, 111u8, 109u8, 112u8, 117u8, 116u8, 101u8, 32u8, 102u8, 111u8, 108u8, 100u8, 101u8, 114u8, 32u8, 104u8, 97u8, 115u8, 104u8, 62u8];
    proof {
        assert(v@ =~= spec_hash_error_text());
    }
    v
}

/// Bytes of `Mod`.
pub open spec fn spec_tag_mod() -> Seq<u8> {
    seq![77u8, 111u8, 100u8]
}

/// Executable copy of `spec_tag_mod`.
pub fn tag_mod() -> (r: Vec<u8>)
    ensures
        r@ == spec_tag_mod(),
{
    let v: Vec<u8> = vec![77u8, 111u8, 100u8];
    proof {
        assert(v@ =~= spec_tag_mod());
    }
    v
}

/// Bytes of `Name`.
pub open spec fn spec_tag_name() -> Seq<u8> {
    seq![78u8, 97u8, 109u8, 101u8]
}

/// Executable copy of `spec_tag_name`.
pub fn tag_name() -> (r: Vec<u8>)
    ensures
        r@ == spec_tag_name(),
{
    let v: Vec<u8> = vec![78u8, 97u8, 109u8, 101u8];
    proof {
        assert(v@ =~= spec_tag_name());
    }
    v
}

/// Bytes of `Description`.
pub open spec fn spec_tag_description() -> Seq<u8> {
    seq![68u8, 101u8, 115u8, 99u8, 114u8, 105u8, 112u8, 116u8, 105u8, 111u8, 110u8]
}

/// Executable copy of `spec_tag_description`.
pub fn tag_description() -> (r: Vec<u8>)
    ensures
        r@ == spec_tag_description(),
{
    let v: Vec<u8> = vec![68u8, 101u8, 115u8, 99u8, 114u8, 105u8, 112u8, 116u8, 105u8, 111u8, 110u8];
    proof {
        assert(v@ =~= spec_tag_description());
    }
    v
}

/// Bytes of `Authors`.
pub open spec fn spec_tag_authors() -> Seq<u8> {
    seq![65u8, 117u8, 116u8, 104u8, 111u8, 114u8, 115u8]
}

/// Executable copy of `spec_tag_authors`.
pub fn tag_authors() -> (r: Vec<u8>)
    ensures
        r@ == spec_tag_authors(),
{
    let v: Vec<u8> = vec![65u8, 117u8, 116u8, 104u8, 111u8, 114u8, 115u8];
    proof {
        assert(v@ =~= spec_tag_authors());
    }
    v
}

/// Bytes of `Package`.
pub open spec fn spec_tag_package() -> Seq<u8> {
    seq![80u8, 97u8, 99u8, 107u8, 97u8, 103u8, 101u8]
}

/// Executable copy of `spec_tag_package`.
pub fn tag_package() -> (r: Vec<u8>)
    ensures
        r@ == spec_tag_package(),
{
    let v: Vec<u8> = vec![80u8, 97u8, 99u8, 107u8, 97u8, 103u8, 101u8];
    proof {
        assert(v@ =~= spec_tag_package());
    }
    v
}

/// Bytes of `AffectsSavedGames`.
pub open spec fn spec_tag_affects_saved_games() -> Seq<u8> {
    seq![65u8, 102u8, 102u8, 101u8, 99u8, 116u8, 115u8, 83u8, 97u8, 118u8, 101u8, 100u8, 71u8, 97u8, 109u8, 101u8, 115u8]
}

/// Executable copy of `spec_tag_affects_saved_games`.
pub fn tag_affects_saved_games() -> (r: Vec<u8>)
    ensures
        r@ == spec_tag_affects_saved_games(),
{
    let v: Vec<u8> = vec![65u8, 102u8, 102u8, 101u8, 99u8, 116u8, 115u8, 83u8, 97u8, 118u8, 101u8, 100u8, 71u8, 97u8, 109u8, 101u8, 115u8];
    proof {
        assert(v@ =~= spec_tag_affects_saved_games());
    }
    v
}

/// Bytes of `SpecialThanks`.
pub open spec fn spec_tag_special_thanks() -> Seq<u8> {
    seq![83u8, 112u8, 101u8, 99u8, 105u8, 97u8, 108u8, 84u8, 104u8, 97u8, 110u8, 107u8, 115u8]
}

/// Executable copy of `spec_tag_special_thanks`.
pub fn tag_special_thanks() -> (r: Vec<u8>)
    ensures
        r@ == spec_tag_special_thanks(),
{
    let v: Vec<u8> = vec![83u8, 112u8, 101u8, 99u8, 105u8, 97u8, 108u8, 84u8, 104u8, 97u8, 110u8, 107u8, 115u8];
    proof {
        assert(v@ =~= spec_tag_special_thanks());
    }
    v
}

/// Bytes of `Version`.
pub open spec fn spec_tag_version() -> Seq<u8> {
    seq![86u8, 101u8, 114u8, 115u8, 105u8, 111u8, 110u8]
}

/// Executable copy of `spec_tag_version`.
pub fn tag_version() -> (r: Vec<u8>)
    ensures
        r@ == spec_tag_version(),
{
    let v: Vec<u8> = vec![86u8, 101u8, 114u8, 115u8, 105u8, 111u8, 110u8];
    proof {
        assert(v@ =~= spec_tag_version());
    }
    v
}

/// Bytes of `Compatibility`.
pub open spec fn spec_tag_compatibility() -> Seq<u8> {
    seq![67u8, 111u8, 109u8, 112u8, 97u8, 116u8, 105u8, 98u8, 105u8, 108u8, 105u8, 116u8, 121u8]
}

/// Executable copy of `spec_tag_compatibility`.
pub fn tag_compatibility() -> (r: Vec<u8>)
    ensures
        r@ == spec_tag_compatibility(),
{
    let v: Vec<u8> = vec![67u8, 111u8, 109u8, 112u8, 97u8, 116u8, 105u8, 98u8, 105u8, 108u8, 105u8, 116u8, 121u8];
    proof {
        assert(v@ =~= spec_tag_compatibility());
    }
    v
}

/// Bytes of `URL`.
pub open spec fn spec_tag_url() -> Seq<u8> {
    seq![85u8, 82u8, 76u8]
}

/// Executable copy of `spec_tag_url`.
pub fn tag_url() -> (r: Vec<u8>)
    ensures
        r@ == spec_tag_url(),
{
    let v: Vec<u8> = vec![85u8, 82u8, 76u8];
    proof {
        assert(v@ =~= spec_tag_url());
    }
    v
}

/// Bytes of `Dependencies`.
pub open spec fn spec_tag_dependencies() -> Seq<u8> {
    seq![68u8, 101u8, 112u8, 101u8, 110u8, 100u8, 101u8, 110u8, 99u8, 105u8, 101u8, 115u8]
}

/// Executable copy of `spec_tag_dependencies`.
pub fn tag_dependencies() -> (r: Vec<u8>)
    ensures
        r@ == spec_tag_dependencies(),
{
    let v: Vec<u8> = vec![68u8, 101u8, 112u8, 101u8, 110u8, 100u8, 101u8, 110u8, 99u8, 105u8, 101u8, 115u8];
    proof {
        assert(v@ =~= spec_tag_dependencies());
    }
    v
}

/// Bytes of `LocalizedText`.
pub open spec fn spec_tag_localized_text() -> Seq<u8> {
    seq![76u8, 111u8, 99u8, 97u8, 108u8, 105u8, 122u8, 101u8, 100u8, 84u8, 101u8, 120u8, 116u8]
}

/// Executable copy of `spec_tag_localized_text`.
pub fn tag_localized_text() -> (r: Vec<u8>)
    ensures
        r@ == spec_tag_localized_text(),
{
    let v: Vec<u8> = vec![76u8, 111u8, 99u8, 97u8, 108u8, 105u8, 122u8, 101u8, 100u8, 84u8, 101u8, 120u8, 116u8];
    proof {
        assert(v@ =~= spec_tag_localized_text());
    }
    v
}

/// Bytes of `File`.
pub open spec fn spec_tag_file() -> Seq<u8> {
    seq![70u8, 105u8, 108u8, 101u8]
}

/// Executable copy of `spec_tag_file`.
pub fn tag_file() -> (r: Vec<u8>)
    ensures
        r@ == spec_tag_file(),
{
    let v: Vec<u8> = vec![70u8, 105u8, 108u8, 101u8];
    proof {
        assert(v@ =~= spec_tag_file());
    }
    v
}

/// Bytes of `ActionCriteria`.
pub open spec fn spec_tag_action_criteria() -> Seq<u8> {
    seq![65u8, 99u8, 116u8, 105u8, 111u8, 110u8, 67u8, 114u8, 105u8, 116u8, 101u8, 114u8, 105u8, 97u8]
}

/// Executable copy of `spec_tag_action_criteria`.
pub fn tag_action_criteria() -> (r: Vec<u8>)
    ensures
        r@ == spec_tag_action_criteria(),
{
    let v: Vec<u8> = vec![65u8, 99u8, 116u8, 105u8, 111u8, 110u8, 67u8, 114u8, 105u8, 116u8, 101u8, 114u8, 105u8, 97u8];
    proof {
        assert(v@ =~= spec_tag_action_criteria());
    }
    v
}

/// Bytes of `Criteria`.
pub open spec fn spec_tag_criteria() -> Seq<u8> {
    seq![67u8, 114u8, 105u8, 116u8, 101u8, 114u8, 105u8, 97u8]
}

/// Executable copy of `spec_tag_criteria`.
pub fn tag_criteria() -> (r: Vec<u8>)
    ensures
        r@ == spec_tag_criteria(),
{
    let v: Vec<u8> = vec![67u8, 114u8, 105u8, 116u8, 101u8, 114u8, 105u8, 97u8];
    proof {
        assert(v@ =~= spec_tag_criteria());
    }
    v
}

/// Bytes of `AlwaysMet`.
pub open spec fn spec_tag_always_met() -> Seq<u8> {
    seq![65u8, 108u8, 119u8, 97u8, 121u8, 115u8, 77u8, 101u8, 116u8]
}

/// Executable copy of `spec_tag_always_met`.
pub fn tag_always_met() -> (r: Vec<u8>)
    ensures
        r@ == spec_tag_always_met(),
{
    let v: Vec<u8> = vec![65u8, 108u8, 119u8, 97u8, 121u8, 115u8, 77u8, 101u8, 116u8];
    proof {
        assert(v@ =~= spec_tag_always_met());
    }
    v
}

/// Bytes of `AgeInUse`.
pub open spec fn spec_tag_age_in_use() -> Seq<u8> {
    seq![65u8, 103u8, 101u8, 73u8, 110u8, 85u8, 115u8, 101u8]
}

/// Executable copy of `spec_tag_age_in_use`.
pub fn tag_age_in_use() -> (r: Vec<u8>)
    ensures
        r@ == spec_tag_age_in_use(),
{
    let v: Vec<u8> = vec![65u8, 103u8, 101u8, 73u8, 110u8, 85u8, 115u8, 101u8];
    proof {
        assert(v@ =~= spec_tag_age_in_use());
    }
    v
}

/// Bytes of `ModInUse`.
pub open spec fn spec_tag_mod_in_use() -> Seq<u8> {
    seq![77u8, 111u8, 100u8, 73u8, 110u8, 85u8, 115u8, 101u8]
}

/// Executable copy of `spec_tag_mod_in_use`.
pub fn tag_mod_in_use() -> (r: Vec<u8>)
    ensures
        r@ == spec_tag_mod_in_use(),
{
    let v: Vec<u8> = vec![77u8, 111u8, 100u8, 73u8, 110u8, 85u8, 115u8, 101u8];
    proof {
        assert(v@ =~= spec_tag_mod_in_use());
    }
    v
}

/// Bytes of `ActionGroups`.
pub open spec fn spec_tag_action_groups() -> Seq<u8> {
    seq![65u8, 99u8, 116u8, 105u8, 111u8, 110u8, 71u8, 114u8, 111u8, 117u8, 112u8, 115u8]
}

/// Executable copy of `spec_tag_action_groups`.
pub fn tag_action_groups() -> (r: Vec<u8>)
    ensures
        r@ == spec_tag_action_groups(),
{
    let v: Vec<u8> = vec![65u8, 99u8, 116u8, 105u8, 111u8, 110u8, 71u8, 114u8, 111u8, 117u8, 112u8, 115u8];
    proof {
        assert(v@ =~= spec_tag_action_groups());
    }
    v
}

/// Bytes of `ActionGroup`.
pub open spec fn spec_tag_action_group() -> Seq<u8> {
    seq![65u8, 99u8, 116u8, 105u8, 111u8, 110u8, 71u8, 114u8, 111u8, 117u8, 112u8]
}

/// Executable copy of `spec_tag_action_group`.
pub fn tag_action_group() -> (r: Vec<u8>)
    ensures
        r@ == spec_tag_action_group(),
{
    let v: Vec<u8> = vec![65u8, 99u8, 116u8, 105u8, 111u8, 110u8, 71u8, 114u8, 111u8, 117u8, 112u8];
    proof {
        assert(v@ =~= spec_tag_action_group());
    }
    v
}

/// Bytes of `Actions`.
pub open spec fn spec_tag_actions() -> Seq<u8> {
    seq![65u8, 99u8, 116u8, 105u8, 111u8, 110u8, 115u8]
}

/// Executable copy of `spec_tag_actions`.
pub fn tag_actions() -> (r: Vec<u8>)
    ensures
        r@ == spec_tag_actions(),
{
    let v: Vec<u8> = vec![65u8, 99u8, 116u8, 105u8, 111u8, 110u8, 115u8];
    proof {
        assert(v@ =~= spec_tag_actions());
    }
    v
}

/// Bytes of `ImportFiles`.
pub open spec fn spec_tag_import_files() -> Seq<u8> {
    seq![73u8, 109u8, 112u8, 111u8, 114u8, 116u8, 70u8, 105u8, 108u8, 101u8, 115u8]
}

/// Executable copy of `spec_tag_import_files`.
pub fn tag_import_files() -> (r: Vec<u8>)
    ensures
        r@ == spec_tag_import_files(),
{
    let v: Vec<u8> = vec![73u8, 109u8, 112u8, 111u8, 114u8, 116u8, 70u8, 105u8, 108u8, 101u8, 115u8];
    proof {
        assert(v@ =~= spec_tag_import_files());
    }
    v
}

/// Bytes of `UIScripts`.
pub open spec fn spec_tag_ui_scripts() -> Seq<u8> {
    seq![85u8, 73u8, 83u8, 99u8, 114u8, 105u8, 112u8, 116u8, 115u8]
}

/// Executable copy of `spec_tag_ui_scripts`.
pub fn tag_ui_scripts() -> (r: Vec<u8>)
    ensures
        r@ == spec_tag_ui_scripts(),
{
    let v: Vec<u8> = vec![85u8, 73u8, 83u8, 99u8, 114u8, 105u8, 112u8, 116u8, 115u8];
    proof {
        assert(v@ =~= spec_tag_ui_scripts());
    }
    v
}

/// Bytes of `UpdateDatabase`.
pub open spec fn spec_tag_update_database() -> Seq<u8> {
    seq![85u8, 112u8, 100u8, 97u8, 116u8, 101u8, 68u8, 97u8, 116u8, 97u8, 98u8, 97u8, 115u8, 101u8]
}

/// Executable copy of `spec_tag_update_database`.
pub fn tag_update_database() -> (r: Vec<u8>)
    ensures
        r@ == spec_tag_update_database(),
{
    let v: Vec<u8> = vec![85u8, 112u8, 100u8, 97u8, 116u8, 101u8, 68u8, 97u8, 116u8, 97u8, 98u8, 97u8, 115u8, 101u8];
    proof {
        assert(v@ =~= spec_tag_update_database());
    }
    v
}

/// Bytes of `UpdateText`.
pub open spec fn spec_tag_update_text() -> Seq<u8> {
    seq![85u8, 112u8, 100u8, 97u8, 116u8, 101u8, 84u8, 101u8, 120u8, 116u8]
}

/// Executable copy of `spec_tag_update_text`.
pub fn tag_update_text() -> (r: Vec<u8>)
    ensures
        r@ == spec_tag_update_text(),
{
    let v: Vec<u8> = vec![85u8, 112u8, 100u8, 97u8, 116u8, 101u8, 84u8, 101u8, 120u8, 116u8];
    proof {
        assert(v@ =~= spec_tag_update_text());
    }
    v
}

/// Bytes of `Item`.
pub open spec fn spec_tag_item() -> Seq<u8> {
    seq![73u8, 116u8, 101u8, 109u8]
}

/// Executable copy of `spec_tag_item`.
pub fn tag_item() -> (r: Vec<u8>)
    ensures
        r@ == spec_tag_item(),
{
    let v: Vec<u8> = vec![73u8, 116u8, 101u8, 109u8];
    proof {
        assert(v@ =~= spec_tag_item());
    }
    v
}

/// Bytes of `LoadOrder`.
pub open spec fn spec_tag_load_order() -> Seq<u8> {
    seq![76u8, 111u8, 97u8, 100u8, 79u8, 114u8, 100u8, 101u8, 114u8]
}

/// Executable copy of `spec_tag_load_order`.
pub fn tag_load_order() -> (r: Vec<u8>)
    ensures
        r@ == spec_tag_load_order(),
{
    let v: Vec<u8> = vec![76u8, 111u8, 97u8, 100u8, 79u8, 114u8, 100u8, 101u8, 114u8];
    proof {
        assert(v@ =~= spec_tag_load_order());
    }
    v
}

/// Bytes of `id`.
pub open spec fn spec_attr_id() -> Seq<u8> {
    seq![105u8, 100u8]
}

/// Executable copy of `spec_attr_id`.
pub fn attr_id() -> (r: Vec<u8>)
    ensures
        r@ == spec_attr_id(),
{
    let v: Vec<u8> = vec![105u8, 100u8];
    proof {
        assert(v@ =~= spec_attr_id());
    }
    v
}

/// Bytes of `version`.
pub open spec fn spec_attr_version() -> Seq<u8> {
    seq![118u8, 101u8, 114u8, 115u8, 105u8, 111u8, 110u8]
}

/// Executable copy of `spec_attr_version`.
pub fn attr_version() -> (r: Vec<u8>)
    ensures
        r@ == spec_attr_version(),
{
    let v: Vec<u8> = vec![118u8, 101u8, 114u8, 115u8, 105u8, 111u8, 110u8];
    proof {
        assert(v@ =~= spec_attr_version());
    }
    v
}

/// Bytes of `inverse`.
pub open spec fn spec_attr_inverse() -> Seq<u8> {
    seq![105u8, 110u8, 118u8, 101u8, 114u8, 115u8, 101u8]
}

/// Executable copy of `spec_attr_inverse`.
pub fn attr_inverse() -> (r: Vec<u8>)
    ensures
        r@ == spec_attr_inverse(),
{
    let v: Vec<u8> = vec![105u8, 110u8, 118u8, 101u8, 114u8, 115u8, 101u8];
    proof {
        assert(v@ =~= spec_attr_inverse());
    }
    v
}

/// Bytes of `locale`.
pub open spec fn spec_attr_locale() -> Seq<u8> {
    seq![108u8, 111u8, 99u8, 97u8, 108u8, 101u8]
}

/// Executable copy of `spec_attr_locale`.
pub fn attr_locale() -> (r: Vec<u8>)
    ensures
        r@ == spec_attr_locale(),
{
    let v: Vec<u8> = vec![108u8, 111u8, 99u8, 97u8, 108u8, 101u8];
    proof {
        assert(v@ =~= spec_attr_locale());
    }
    v
}

/// Bytes of `scope`.
pub open spec fn spec_attr_scope() -> Seq<u8> {
    seq![115u8, 99u8, 111u8, 112u8, 101u8]
}

/// Executable copy of `spec_attr_scope`.
pub fn attr_scope() -> (r: Vec<u8>)
    ensures
        r@ == spec_attr_scope(),
{
    let v: Vec<u8> = vec![115u8, 99u8, 111u8, 112u8, 101u8];
    proof {
        assert(v@ =~= spec_attr_scope());
    }
    v
}

/// Bytes of `criteria`.
pub open spec fn spec_attr_criteria() -> Seq<u8> {
    seq![99u8, 114u8, 105u8, 116u8, 101u8, 114u8, 105u8, 97u8]
}

/// Executable copy of `spec_attr_criteria`.
pub fn attr_criteria() -> (r: Vec<u8>)
    ensures
        r@ == spec_attr_criteria(),
{
    let v: Vec<u8> = vec![99u8, 114u8, 105u8, 116u8, 101u8, 114u8, 105u8, 97u8];
    proof {
        assert(v@ =~= spec_attr_criteria());
    }
    v
}

/// Bytes of `title`.
pub open spec fn spec_attr_title() -> Seq<u8> {
    seq![116u8, 105u8, 116u8, 108u8, 101u8]
}

/// Executable copy of `spec_attr_title`.
pub fn attr_title() -> (r: Vec<u8>)
    ensures
        r@ == spec_attr_title(),
{
    let v: Vec<u8> = vec![116u8, 105u8, 116u8, 108u8, 101u8];
    proof {
        assert(v@ =~= spec_attr_title());
    }
    v
}

/// Bytes of `zip`.
pub open spec fn spec_ext_zip() -> Seq<u8> {
    seq![122u8, 105u8, 112u8]
}

/// Executable copy of `spec_ext_zip`.
pub fn ext_zip() -> (r: Vec<u8>)
    ensures
        r@ == spec_ext_zip(),
{
    let v: Vec<u8> = vec![122u8, 105u8, 112u8];
    proof {
        assert(v@ =~= spec_ext_zip());
    }
    v
}

/// Bytes of `7z`.
pub open spec fn spec_ext_7z() -> Seq<u8> {
    seq![55u8, 122u8]
}

/// Executable copy of `spec_ext_7z`.
pub fn ext_7z() -> (r: Vec<u8>)
    ensures
        r@ == spec_ext_7z(),
{
    let v: Vec<u8> = vec![55u8, 122u8];
    proof {
        assert(v@ =~= spec_ext_7z());
    }
    v
}

/// Bytes of `rar`.
pub open spec fn spec_ext_rar() -> Seq<u8> {
    seq![114u8, 97u8, 114u8]
}

/// Executable copy of `spec_ext_rar`.
pub fn ext_rar() -> (r: Vec<u8>)
    ensures
        r@ == spec_ext_rar(),
{
    let v: Vec<u8> = vec![114u8, 97u8, 114u8];
    proof {
        assert(v@ =~= spec_ext_rar());
    }
    v
}

/// Bytes of `tgz`.
pub open spec fn spec_ext_tgz() -> Seq<u8> {
    seq![116u8, 103u8, 122u8]
}

/// Executable copy of `spec_ext_tgz`.
pub fn ext_tgz() -> (r: Vec<u8>)
    ensures
        r@ == spec_ext_tgz(),
{
    let v: Vec<u8> = vec![116u8, 103u8, 122u8];
    proof {
        assert(v@ =~= spec_ext_tgz());
    }
    v
}

/// Bytes of `gz`.
pub open spec fn spec_ext_gz() -> Seq<u8> {
    seq![103u8, 122u8]
}

/// Executable copy of `spec_ext_gz`.
pub fn ext_gz() -> (r: Vec<u8>)
    ensures
        r@ == spec_ext_gz(),
{
    let v: Vec<u8> = vec![103u8, 122u8];
    proof {
        assert(v@ =~= spec_ext_gz());
    }
    v
}

/// Bytes of `backups`.
pub open spec fn spec_backups_dir() -> Seq<u8> {
    seq![98u8, 97u8, 99u8, 107u8, 117u8, 112u8, 115u8]
}

/// Executable copy of `spec_backups_dir`.
pub fn backups_dir() -> (r: Vec<u8>)
    ensures
        r@ == spec_backups_dir(),
{
    let v: Vec<u8> = vec![98u8, 97u8, 99u8, 107u8, 117u8, 112u8, 115u8];
    proof {
        assert(v@ =~= spec_backups_dir());
    }
    v
}


/// Bytes of `Properties`.
pub open spec fn spec_tag_properties() -> Seq<u8> {
    seq![80u8, 114u8, 111u8, 112u8, 101u8, 114u8, 116u8, 105u8, 101u8, 115u8]
}

/// Executable copy of `spec_tag_properties`.
pub fn tag_properties() -> (r: Vec<u8>)
    ensures
        r@ == spec_tag_properties(),
{
    let v: Vec<u8> = vec![80u8, 114u8, 111u8, 112u8, 101u8, 114u8, 116u8, 105u8, 101u8, 115u8];
    proof {
        assert(v@ =~= spec_tag_properties());
    }
    v
}

/// Bytes of `windows`.
pub open spec fn spec_os_windows() -> Seq<u8> {
    seq![119u8, 105u8, 110u8, 100u8, 111u8, 119u8, 115u8]
}

/// Executable copy of `spec_os_windows`.
pub fn os_windows() -> (r: Vec<u8>)
    ensures
        r@ == spec_os_windows(),
{
    let v: Vec<u8> = vec![119u8, 105u8, 110u8, 100u8, 111u8, 119u8, 115u8];
    proof {
        assert(v@ =~= spec_os_windows());
    }
    v
}

/// Bytes of `macos`.
pub open spec fn spec_os_macos() -> Seq<u8> {
    seq![109u8, 97u8, 99u8, 111u8, 115u8]
}

/// Executable copy of `spec_os_macos`.
pub fn os_macos() -> (r: Vec<u8>)
    ensures
        r@ == spec_os_macos(),
{
    let v: Vec<u8> = vec![109u8, 97u8, 99u8, 111u8, 115u8];
    proof {
        assert(v@ =~= spec_os_macos());
    }
    v
}

/// Bytes of `linux`.
pub open spec fn spec_os_linux() -> Seq<u8> {
    seq![108u8, 105u8, 110u8, 117u8, 120u8]
}

/// Executable copy of `spec_os_linux`.
pub fn os_linux() -> (r: Vec<u8>)
    ensures
        r@ == spec_os_linux(),
{
    let v: Vec<u8> = vec![108u8, 105u8, 110u8, 117u8, 120u8];
    proof {
        assert(v@ =~= spec_os_linux());
    }
    v
}

/// Bytes of `/AppData/Local/Firaxis Games/Sid Meier's Civilization VII/Mods`.
pub open spec fn spec_mods_suffix_windows() -> Seq<u8> {
    seq![47u8, 65u8, 112u8, 112u8, 68u8, 97u8, 116u8, 97u8, 47u8, 76u8, 111u8, 99u8, 97u8, 108u8, 47u8, 70u8, 105u8, 114u8, 97u8, 120u8, 105u8, 115u8, 32u8, 71u8, 97u8, 109u8, 101u8, 115u8, 47u8, 83u8, 105u8, 100u8, 32u8, 77u8, 101u8, 105u8, 101u8, 114u8, 39u8, 115u8, 32u8, 67u8, 105u8, 118u8, 105u8, 108u8, 105u8, 122u8, 97u8, 116u8, 105u8, 111u8, 110u8, 32u8, 86u8, 73u8, 73u8, 47u8, 77u8, 111u8, 100u8, 115u8]
}

/// Executable copy of `spec_mods_suffix_windows`.
pub fn mods_suffix_windows() -> (r: Vec<u8>)
    ensures
        r@ == spec_mods_suffix_windows(),
{
    let v: Vec<u8> = vec![47u8, 65u8, 112u8, 112u8, 68u8, 97u8, 116u8, 97u8, 47u8, 76u8, 111u8, 99u8, 97u8, 108u8, 47u8, 70u8, 105u8, 114u8, 97u8, 120u8, 105u8, 115u8, 32u8, 71u8, 97u8, 109u8, 101u8, 115u8, 47u8, 83u8, 105u8, 100u8, 32u8, 77u8, 101u8, 105u8, 101u8, 114u8, 39u8, 115u8, 32u8, 67u8, 105u8, 118u8, 105u8, 108u8, 105u8, 122u8, 97u8, 116u8, 105u8, 111u8, 110u8, 32u8, 86u8, 73u8, 73u8, 47u8, 77u8, 111u8, 100u8, 115u8];
    proof {
        assert(v@ =~= spec_mods_suffix_windows());
    }
    v
}

/// Bytes of `/Library/Application Support/Civilization VII/Mods`.
pub open spec fn spec_mods_suffix_macos() -> Seq<u8> {
    seq![47u8, 76u8, 105u8, 98u8, 114u8, 97u8, 114u8, 121u8, 47u8, 65u8, 112u8, 112u8, 108u8, 105u8, 99u8, 97u8, 116u8, 105u8, 111u8, 110u8, 32u8, 83u8, 117u8, 112u8, 112u8, 111u8, 114u8, 116u8, 47u8, 67u8, 105u8, 118u8, 105u8, 108u8, 105u8, 122u8, 97u8, 116u8, 105u8, 111u8, 110u8, 32u8, 86u8, 73u8, 73u8, 47u8, 77u8, 111u8, 100u8, 115u8]
}

/// Executable copy of `spec_mods_suffix_macos`.
pub fn mods_suffix_macos() -> (r: Vec<u8>)
    ensures
        r@ == spec_mods_suffix_macos(),
{
    let v: Vec<u8> = vec![47u8, 76u8, 105u8, 98u8, 114u8, 97u8, 114u8, 121u8, 47u8, 65u8, 112u8, 112u8, 108u8, 105u8, 99u8, 97u8, 116u8, 105u8, 111u8, 110u8, 32u8, 83u8, 117u8, 112u8, 112u8, 111u8, 114u8, 116u8, 47u8, 67u8, 105u8, 118u8, 105u8, 108u8, 105u8, 122u8, 97u8, 116u8, 105u8, 111u8, 110u8, 32u8, 86u8, 73u8, 73u8, 47u8, 77u8, 111u8, 100u8, 115u8];
    proof {
        assert(v@ =~= spec_mods_suffix_macos());
    }
    v
}

/// Bytes of `/My Games/Sid Meier's Civilization VII/Mods`.
pub open spec fn spec_mods_suffix_linux() -> Seq<u8> {
    seq![47u8, 77u8, 121u8, 32u8, 71u8, 97u8, 109u8, 101u8, 115u8, 47u8, 83u8, 105u8, 100u8, 32u8, 77u8, 101u8, 105u8, 101u8, 114u8, 39u8, 115u8, 32u8, 67u8, 105u8, 118u8, 105u8, 108u8, 105u8, 122u8, 97u8, 116u8, 105u8, 111u8, 110u8, 32u8, 86u8, 73u8, 73u8, 47u8, 77u8, 111u8, 100u8, 115u8]
}

/// Executable copy of `spec_mods_suffix_linux`.
pub fn mods_suffix_linux() -> (r: Vec<u8>)
    ensures
        r@ == spec_mods_suffix_linux(),
{
    let v: Vec<u8> = vec![47u8, 77u8, 121u8, 32u8, 71u8, 97u8, 109u8, 101u8, 115u8, 47u8, 83u8, 105u8, 100u8, 32u8, 77u8, 101u8, 105u8, 101u8, 114u8, 39u8, 115u8, 32u8, 67u8, 105u8, 118u8, 105u8, 108u8, 105u8, 122u8, 97u8, 116u8, 105u8, 111u8, 110u8, 32u8, 86u8, 73u8, 73u8, 47u8, 77u8, 111u8, 100u8, 115u8];
    proof {
        assert(v@ =~= spec_mods_suffix_linux());
    }
    v
}

/// Bytes of `/backups/`.
pub open spec fn spec_backups_seg() -> Seq<u8> {
    seq![47u8, 98u8, 97u8, 99u8, 107u8, 117u8, 112u8, 115u8, 47u8]
}

/// Executable copy of `spec_backups_seg`.
pub fn backups_seg() -> (r: Vec<u8>)
    ensures
        r@ == spec_backups_seg(),
{
    let v: Vec<u8> = vec![47u8, 98u8, 97u8, 99u8, 107u8, 117u8, 112u8, 115u8, 47u8];
    proof {
        assert(v@ =~= spec_backups_seg());
    }
    v
}

} // verus!
