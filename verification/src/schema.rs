//! The typed manifest schema and its parser: the root element's identity
//! attributes, the `Properties` block, dependencies, action criteria and
//! action groups, read leniently from repaired markup. Unknown elements
//! and attributes are ignored, as the schema is open.

use vstd::prelude::*;

use crate::ModError;
use crate::ascii::{MINUS, subvec, attr_id, spec_attr_id, attr_version, spec_attr_version,
    attr_inverse, spec_attr_inverse, attr_locale, spec_attr_locale, attr_scope, spec_attr_scope,
    attr_criteria, spec_attr_criteria, attr_title, spec_attr_title, tag_name, spec_tag_name,
    tag_description, spec_tag_description, tag_authors, spec_tag_authors, tag_package,
    spec_tag_package, tag_affects_saved_games, spec_tag_affects_saved_games, tag_special_thanks,
    spec_tag_special_thanks, tag_version, spec_tag_version, tag_compatibility,
    spec_tag_compatibility, tag_url, spec_tag_url, tag_dependencies, spec_tag_dependencies,
    tag_mod, spec_tag_mod, tag_localized_text, spec_tag_localized_text, tag_file, spec_tag_file,
    tag_action_criteria, spec_tag_action_criteria, tag_criteria, spec_tag_criteria,
    tag_always_met, spec_tag_always_met, tag_age_in_use, spec_tag_age_in_use, tag_mod_in_use,
    spec_tag_mod_in_use, tag_action_groups, spec_tag_action_groups, tag_action_group,
    spec_tag_action_group, tag_actions, spec_tag_actions, tag_import_files,
    spec_tag_import_files, tag_ui_scripts, spec_tag_ui_scripts, tag_update_database,
    spec_tag_update_database, tag_update_text, spec_tag_update_text, tag_item, spec_tag_item,
    tag_load_order, spec_tag_load_order, tag_properties, spec_tag_properties};
use crate::patch::opt_view;
use crate::xml::{spec_tokenize, tokenize};
use crate::sanitize::{repair, repair_tokens};
use crate::xmltree::{ENode, SNode, enode_view, enodes_view, build_tree, build_tree_exec,
    child_named, find_child, first_elem, find_first_elem, text_content, get_text, attr_of,
    get_attr};

verus! {

/// The default for `affects_saved_games` when the tag is absent.
pub fn default_true() -> (r: bool)
    ensures
        r == true,
{
    true
}

// ---------------------------------------------------------------------
// The schema types and their models
// ---------------------------------------------------------------------

/// A parsed manifest.
#[derive(Debug, PartialEq)]
pub struct Mod {
    pub id: Vec<u8>,
    pub version: Option<Vec<u8>>,
    pub properties: Properties,
    pub dependencies: Vec<Dependency>,
    pub localized_text: Vec<Vec<u8>>,
    pub action_criteria: Vec<ActionCriterion>,
    pub action_groups: Vec<ActionGroup>,
}

/// The scalar properties of a manifest.
#[derive(Debug, PartialEq)]
pub struct Properties {
    pub name: Option<Vec<u8>>,
    pub description: Option<Vec<u8>>,
    pub authors: Option<Vec<u8>>,
    pub package: Option<Vec<u8>>,
    pub affects_saved_games: bool,
    pub special_thanks: Option<Vec<u8>>,
    pub version: Option<Vec<u8>>,
    pub compatibility: Option<Vec<u8>>,
    pub url: Option<Vec<u8>>,
}

#[derive(Debug, PartialEq)]
pub struct Dependency {
    pub id: Vec<u8>,
    pub title: Option<Vec<u8>>,
}

#[derive(Debug, PartialEq)]
pub struct ActionCriterion {
    pub id: Vec<u8>,
    pub always_met: bool,
    pub age_in_use: Option<Vec<u8>>,
    pub mod_in_use: Option<ActionCriterionModInUse>,
}

#[derive(Debug, PartialEq)]
pub struct ActionCriterionModInUse {
    pub mod_id: Vec<u8>,
    pub inverse: bool,
}

#[derive(Debug, PartialEq)]
pub struct ActionGroup {
    pub id: Vec<u8>,
    pub scope: Option<Vec<u8>>,
    pub criteria: Option<Vec<u8>>,
    pub properties: ActionGroupProperties,
    pub actions: Vec<ActionGroupActions>,
}

#[derive(Debug, PartialEq)]
pub struct ActionGroupProperties {
    pub load_order: Option<i32>,
}

#[derive(Debug, PartialEq)]
pub struct ActionGroupActions {
    pub import_files: Vec<ActionItem>,
    pub ui_scripts: Vec<ActionItem>,
    pub update_database: Vec<ActionItem>,
    pub update_text: Vec<ActionItem>,
}

#[derive(Debug, PartialEq)]
pub struct ActionItem {
    pub path: Vec<u8>,
    pub locale: Option<Vec<u8>>,
}

pub struct GMod {
    pub id: Seq<u8>,
    pub version: Option<Seq<u8>>,
    pub properties: GProperties,
    pub dependencies: Seq<GDependency>,
    pub localized_text: Seq<Seq<u8>>,
    pub action_criteria: Seq<GActionCriterion>,
    pub action_groups: Seq<GActionGroup>,
}

pub struct GProperties {
    pub name: Option<Seq<u8>>,
    pub description: Option<Seq<u8>>,
    pub authors: Option<Seq<u8>>,
    pub package: Option<Seq<u8>>,
    pub affects_saved_games: bool,
    pub special_thanks: Option<Seq<u8>>,
    pub version: Option<Seq<u8>>,
    pub compatibility: Option<Seq<u8>>,
    pub url: Option<Seq<u8>>,
}

pub struct GDependency {
    pub id: Seq<u8>,
    pub title: Option<Seq<u8>>,
}

pub struct GActionCriterion {
    pub id: Seq<u8>,
    pub always_met: bool,
    pub age_in_use: Option<Seq<u8>>,
    pub mod_in_use: Option<GModInUse>,
}

pub struct GModInUse {
    pub mod_id: Seq<u8>,
    pub inverse: bool,
}

pub struct GActionGroup {
    pub id: Seq<u8>,
    pub scope: Option<Seq<u8>>,
    pub criteria: Option<Seq<u8>>,
    pub load_order: Option<int>,
    pub actions: Seq<GActions>,
}

pub struct GActions {
    pub import_files: Seq<GActionItem>,
    pub ui_scripts: Seq<GActionItem>,
    pub update_database: Seq<GActionItem>,
    pub update_text: Seq<GActionItem>,
}

pub struct GActionItem {
    pub path: Seq<u8>,
    pub locale: Option<Seq<u8>>,
}

pub open spec fn dep_view(d: Dependency) -> GDependency {
    GDependency { id: d.id@, title: opt_view(d.title) }
}

pub open spec fn miu_view(m: ActionCriterionModInUse) -> GModInUse {
    GModInUse { mod_id: m.mod_id@, inverse: m.inverse }
}

pub open spec fn crit_view(c: ActionCriterion) -> GActionCriterion {
    GActionCriterion {
        id: c.id@,
        always_met: c.always_met,
        age_in_use: opt_view(c.age_in_use),
        mod_in_use: match c.mod_in_use {
            Some(m) => Some(miu_view(m)),
            None => None,
        },
    }
}

pub open spec fn item_view(i: ActionItem) -> GActionItem {
    GActionItem { path: i.path@, locale: opt_view(i.locale) }
}

pub open spec fn items_view(s: Seq<ActionItem>) -> Seq<GActionItem> {
    Seq::new(s.len(), |i: int| item_view(s[i]))
}

pub open spec fn actions_view(a: ActionGroupActions) -> GActions {
    GActions {
        import_files: items_view(a.import_files@),
        ui_scripts: items_view(a.ui_scripts@),
        update_database: items_view(a.update_database@),
        update_text: items_view(a.update_text@),
    }
}

pub open spec fn group_view(g: ActionGroup) -> GActionGroup {
    GActionGroup {
        id: g.id@,
        scope: opt_view(g.scope),
        criteria: opt_view(g.criteria),
        load_order: match g.properties.load_order {
            Some(v) => Some(v as int),
            None => None,
        },
        actions: Seq::new(g.actions@.len(), |i: int| actions_view(g.actions@[i])),
    }
}

pub open spec fn props_view(p: Properties) -> GProperties {
    GProperties {
        name: opt_view(p.name),
        description: opt_view(p.description),
        authors: opt_view(p.authors),
        package: opt_view(p.package),
        affects_saved_games: p.affects_saved_games,
        special_thanks: opt_view(p.special_thanks),
        version: opt_view(p.version),
        compatibility: opt_view(p.compatibility),
        url: opt_view(p.url),
    }
}

pub open spec fn mod_view(m: Mod) -> GMod {
    GMod {
        id: m.id@,
        version: opt_view(m.version),
        properties: props_view(m.properties),
        dependencies: Seq::new(m.dependencies@.len(), |i: int| dep_view(m.dependencies@[i])),
        localized_text: Seq::new(m.localized_text@.len(), |i: int| m.localized_text@[i]@),
        action_criteria: Seq::new(
            m.action_criteria@.len(),
            |i: int| crit_view(m.action_criteria@[i]),
        ),
        action_groups: Seq::new(m.action_groups@.len(), |i: int| group_view(m.action_groups@[i])),
    }
}

// ---------------------------------------------------------------------
// Number parsing
// ---------------------------------------------------------------------

/// Every byte is an ASCII decimal digit, and there is at least one.
pub open spec fn digits_ok(s: Seq<u8>) -> bool {
    s.len() > 0 && forall|i: int| 0 <= i < s.len() ==> 48 <= #[trigger] s[i] <= 57
}

/// The value of a decimal digit string.
pub open spec fn dec_val(s: Seq<u8>) -> int
    decreases s.len(),
{
    if s.len() == 0 {
        0
    } else {
        dec_val(s.drop_last()) * 10 + (s.last() - 48)
    }
}

/// The signed decimal value of a byte string when it parses as a 32-bit
/// integer: an optional minus sign, then digits, within the `i32` range.
pub open spec fn spec_parse_i32(s: Seq<u8>) -> Option<int> {
    if s.len() > 0 && s[0] == MINUS {
        let t = s.skip(1);
        if digits_ok(t) && dec_val(t) <= 2147483648 {
            Some(-dec_val(t))
        } else {
            None
        }
    } else if digits_ok(s) && dec_val(s) <= 2147483647 {
        Some(dec_val(s))
    } else {
        None
    }
}

proof fn lemma_dec_val_nonneg(s: Seq<u8>)
    requires
        forall|i: int| 0 <= i < s.len() ==> 48 <= #[trigger] s[i] <= 57,
    ensures
        dec_val(s) >= 0,
    decreases s.len(),
{
    if s.len() > 0 {
        lemma_dec_val_nonneg(s.drop_last());
    }
}

/// Parses the decimal value of a digit run, or reports that it exceeds
/// the bound `2147483648`.
fn parse_digits(s: &Vec<u8>, from: usize) -> (r: Option<u64>)
    requires
        from <= s@.len(),
        s@.len() - from > 0,
        forall|i: int| from <= i < s@.len() ==> 48 <= #[trigger] s@[i] <= 57,
    ensures
        match r {
            Some(v) => v as int == dec_val(s@.skip(from as int)) && v <= 2147483648,
            None => dec_val(s@.skip(from as int)) > 2147483648,
        },
{
    let ghost d = s@.skip(from as int);
    let mut acc: u64 = 0;
    let mut i: usize = from;
    proof {
        assert(d.take(0) =~= Seq::<u8>::empty());
    }
    while i < s.len()
        invariant
            from <= i <= s@.len(),
            d == s@.skip(from as int),
            forall|k: int| from <= k < s@.len() ==> 48 <= #[trigger] s@[k] <= 57,
            acc <= 2147483648,
            acc as int == dec_val(d.take(i - from)),
        decreases s@.len() - i,
    {
        proof {
            assert(d.take(i + 1 - from).last() == s@[i as int]);
            assert(d.take(i + 1 - from).drop_last() =~= d.take(i - from));
            lemma_dec_val_nonneg(d.take(i + 1 - from));
        }
        let b = s[i];
        let next: u64 = acc * 10 + ((b - 48) as u64);
        if next > 2147483648 {
            proof {
                lemma_dec_val_grows(d, i + 1 - from);
            }
            return None;
        }
        acc = next;
        i = i + 1;
    }
    proof {
        assert(d.take(s@.len() - from) =~= d);
    }
    Some(acc)
}

/// A longer digit prefix never has a smaller value.
proof fn lemma_dec_val_grows(d: Seq<u8>, j: int)
    requires
        0 <= j <= d.len(),
        forall|i: int| 0 <= i < d.len() ==> 48 <= #[trigger] d[i] <= 57,
    ensures
        dec_val(d) >= dec_val(d.take(j)),
    decreases d.len() - j,
{
    if j == d.len() {
        assert(d.take(j) =~= d);
    } else {
        lemma_dec_val_grows(d, j + 1);
        assert(d.take(j + 1).drop_last() =~= d.take(j));
        lemma_dec_val_nonneg(d.take(j));
        assert(dec_val(d.take(j + 1)) == dec_val(d.take(j)) * 10 + (d.take(j + 1).last() - 48));
        assert(dec_val(d.take(j)) * 10 >= dec_val(d.take(j))) by {
            lemma_dec_val_nonneg(d.take(j));
        }
    }
}

/// Checks that a byte run is all digits.
fn all_digits(s: &Vec<u8>, from: usize) -> (r: bool)
    requires
        from <= s@.len(),
    ensures
        r == (s@.len() - from > 0 && forall|i: int|
            from <= i < s@.len() ==> 48 <= #[trigger] s@[i] <= 57),
{
    if s.len() == from {
        return false;
    }
    let mut i: usize = from;
    while i < s.len()
        invariant
            from <= i <= s@.len(),
            forall|k: int| from <= k < i ==> 48 <= #[trigger] s@[k] <= 57,
        decreases s@.len() - i,
    {
        let b = s[i];
        if b < 48 || b > 57 {
            return false;
        }
        i = i + 1;
    }
    true
}

/// Parses a 32-bit signed decimal integer.
pub fn parse_i32(s: &Vec<u8>) -> (r: Option<i32>)
    ensures
        match r {
            Some(v) => spec_parse_i32(s@) == Some(v as int),
            None => spec_parse_i32(s@) is None,
        },
{
    if s.len() > 0 && s[0] == MINUS {
        let ghost t = s@.skip(1);
        if !all_digits(s, 1) {
            proof {
                if digits_ok(t) {
                    assert(forall|i: int| 1 <= i < s@.len() ==> 48 <= #[trigger] s@[i] <= 57) by {
                        assert(forall|i: int| 1 <= i < s@.len() ==> s@[i] == t[i - 1]);
                    }
                    assert(false);
                }
            }
            return None;
        }
        proof {
            assert(digits_ok(t)) by {
                assert(forall|i: int| 0 <= i < t.len() ==> t[i] == s@[i + 1]);
            }
        }
        match parse_digits(s, 1) {
            Some(v) => {
                proof {
                    lemma_dec_val_nonneg(t);
                }
                Some((-(v as i64)) as i32)
            },
            None => None,
        }
    } else {
        if !all_digits(s, 0) {
            proof {
                assert(s@.skip(0) =~= s@);
            }
            return None;
        }
        proof {
            assert(s@.skip(0) =~= s@);
        }
        match parse_digits(s, 0) {
            Some(v) => {
                if v > 2147483647 {
                    return None;
                }
                Some(v as i32)
            },
            None => None,
        }
    }
}

// ---------------------------------------------------------------------
// The mapping from the element tree to the schema
// ---------------------------------------------------------------------

/// A 0/1 flag: a digit run, true when positive, within a byte's range.
pub open spec fn onehot(t: Seq<u8>) -> Option<bool> {
    if digits_ok(t) && dec_val(t) <= 255 {
        Some(dec_val(t) > 0)
    } else {
        None
    }
}

/// Parses a 0/1 flag.
fn parse_onehot(t: &Vec<u8>) -> (r: Option<bool>)
    ensures
        match r {
            Some(b) => onehot(t@) == Some(b),
            None => onehot(t@) is None,
        },
{
    if !all_digits(t, 0) {
        proof {
            assert(t@.skip(0) =~= t@);
        }
        return None;
    }
    proof {
        assert(t@.skip(0) =~= t@);
    }
    match parse_digits(t, 0) {
        Some(v) => {
            if v > 255 {
                None
            } else {
                Some(v > 0)
            }
        },
        None => None,
    }
}

/// The `affects_saved_games` flag of a `Properties` block: true when the
/// tag is absent or empty (tag presence), else its 0/1 value.
pub open spec fn affects_of(cs: Seq<SNode>) -> Option<bool> {
    match child_named(cs, spec_tag_affects_saved_games()) {
        None => Some(true),
        Some(e) => {
            let t = text_content(e->Elem_children);
            if t.len() == 0 {
                Some(true)
            } else {
                onehot(t)
            }
        },
    }
}

/// The text of the first child element with the given name, if any.
pub open spec fn opt_text_of(cs: Seq<SNode>, tag: Seq<u8>) -> Option<Seq<u8>> {
    match child_named(cs, tag) {
        None => None,
        Some(e) => Some(text_content(e->Elem_children)),
    }
}

/// Extracts the text of the first child element with the given name.
pub(crate) fn get_opt_text(children: &Vec<ENode>, tag: &Vec<u8>) -> (r: Option<Vec<u8>>)
    ensures
        match r {
            Some(v) => opt_text_of(enodes_view(children@), tag@) == Some(v@),
            None => opt_text_of(enodes_view(children@), tag@) is None,
        },
{
    match find_child(children, tag) {
        None => None,
        Some(e) => match e {
            ENode::Elem { name, attrs, children: c2 } => {
                proof {
                    crate::xmltree::lemma_echildren_view_ref(e, 0);
                    assert(enodes_view(c2@).skip(0) =~= enodes_view(c2@));
                    assert(enode_view(*e)->Elem_children == enodes_view(c2@));
                }
                Some(get_text(c2))
            },
            ENode::Text { .. } => {
                proof {
                    crate::xmltree::lemma_child_named_is_elem(
                        enodes_view(children@),
                        tag@,
                        0,
                    );
                    assert(false);
                }
                None
            },
        },
    }
}

/// The scalar properties of a `Properties` block. Fails only on a bad
/// `affects_saved_games` flag.
pub open spec fn props_of(cs: Seq<SNode>) -> Option<GProperties> {
    match affects_of(cs) {
        None => None,
        Some(b) => Some(
            GProperties {
                name: opt_text_of(cs, spec_tag_name()),
                description: opt_text_of(cs, spec_tag_description()),
                authors: opt_text_of(cs, spec_tag_authors()),
                package: opt_text_of(cs, spec_tag_package()),
                affects_saved_games: b,
                special_thanks: opt_text_of(cs, spec_tag_special_thanks()),
                version: opt_text_of(cs, spec_tag_version()),
                compatibility: opt_text_of(cs, spec_tag_compatibility()),
                url: opt_text_of(cs, spec_tag_url()),
            },
        ),
    }
}

/// The default properties of a manifest with no `Properties` block.
pub open spec fn default_props() -> GProperties {
    GProperties {
        name: None,
        description: None,
        authors: None,
        package: None,
        affects_saved_games: true,
        special_thanks: None,
        version: None,
        compatibility: None,
        url: None,
    }
}

/// Reads a `Properties` block.
fn props_exec(children: &Vec<ENode>) -> (r: Result<Properties, ModError>)
    ensures
        match props_of(enodes_view(children@)) {
            Some(g) => r matches Ok(p) && props_view(p) == g,
            None => r == Err::<Properties, ModError>(ModError::MarkupParseError),
        },
{
    let ghost cs = enodes_view(children@);
    let t_asg = tag_affects_saved_games();
    let affects: bool;
    match get_opt_text(children, &t_asg) {
        None => {
            affects = true;
        },
        Some(t) => {
            if t.len() == 0 {
                affects = true;
            } else {
                match parse_onehot(&t) {
                    Some(b) => {
                        affects = b;
                    },
                    None => {
                        return Err(ModError::MarkupParseError);
                    },
                }
            }
        },
    }
    let t1 = tag_name();
    let t2 = tag_description();
    let t3 = tag_authors();
    let t4 = tag_package();
    let t5 = tag_special_thanks();
    let t6 = tag_version();
    let t7 = tag_compatibility();
    let t8 = tag_url();
    let p = Properties {
        name: get_opt_text(children, &t1),
        description: get_opt_text(children, &t2),
        authors: get_opt_text(children, &t3),
        package: get_opt_text(children, &t4),
        affects_saved_games: affects,
        special_thanks: get_opt_text(children, &t5),
        version: get_opt_text(children, &t6),
        compatibility: get_opt_text(children, &t7),
        url: get_opt_text(children, &t8),
    };
    Ok(p)
}

/// The views of a dependency vector.
pub open spec fn deps_views(s: Seq<Dependency>) -> Seq<GDependency> {
    Seq::new(s.len(), |i: int| dep_view(s[i]))
}

/// One dependency entry; its `id` attribute is required.
pub open spec fn dep_of(e: SNode) -> Option<GDependency> {
    match attr_of(e->Elem_attrs, spec_attr_id()) {
        None => None,
        Some(id) => Some(GDependency { id, title: attr_of(e->Elem_attrs, spec_attr_title()) }),
    }
}

/// The dependencies among the `Mod` children of one `Dependencies`
/// element, from index `j` on.
pub open spec fn deps_in(cs: Seq<SNode>, j: int) -> Option<Seq<GDependency>>
    decreases cs.len() - j,
{
    if j < 0 || j >= cs.len() {
        Some(Seq::empty())
    } else {
        match cs[j] {
            SNode::Elem { name, attrs, children } => {
                if name == spec_tag_mod() {
                    match (dep_of(cs[j]), deps_in(cs, j + 1)) {
                        (Some(d), Some(r)) => Some(seq![d] + r),
                        _ => None,
                    }
                } else {
                    deps_in(cs, j + 1)
                }
            },
            _ => deps_in(cs, j + 1),
        }
    }
}

/// All dependencies, flattened over every `Dependencies` child of the
/// root, from index `j` on.
pub open spec fn deps_of(cs: Seq<SNode>, j: int) -> Option<Seq<GDependency>>
    decreases cs.len() - j,
{
    if j < 0 || j >= cs.len() {
        Some(Seq::empty())
    } else {
        match cs[j] {
            SNode::Elem { name, attrs, children } => {
                if name == spec_tag_dependencies() {
                    match (deps_in(children, 0), deps_of(cs, j + 1)) {
                        (Some(a), Some(b)) => Some(a + b),
                        _ => None,
                    }
                } else {
                    deps_of(cs, j + 1)
                }
            },
            _ => deps_of(cs, j + 1),
        }
    }
}

fn deps_in_exec(children: &Vec<ENode>) -> (r: Result<Vec<Dependency>, ModError>)
    ensures
        match deps_in(enodes_view(children@), 0) {
            Some(g) => r matches Ok(v) && deps_views(v@) == g,
            None => r == Err::<Vec<Dependency>, ModError>(ModError::MarkupParseError),
        },
{
    let ghost cs = enodes_view(children@);
    let t_mod = tag_mod();
    let a_id = attr_id();
    let a_title = attr_title();
    let mut out: Vec<Dependency> = Vec::new();
    let mut j: usize = 0;
    proof {
        assert(deps_views(out@) =~= Seq::<GDependency>::empty());
    }
    while j < children.len()
        invariant
            j <= children@.len(),
            cs == enodes_view(children@),
            t_mod@ == spec_tag_mod(),
            a_id@ == spec_attr_id(),
            a_title@ == spec_attr_title(),
            deps_in(cs, 0) == (match deps_in(cs, j as int) {
                Some(rest) => Some(deps_views(out@) + rest),
                None => None::<Seq<GDependency>>,
            }),
        decreases children@.len() - j,
    {
        let ghost out0 = deps_views(out@);
        proof {
            assert(cs[j as int] == enode_view(children@[j as int]));
        }
        match &children[j] {
            ENode::Elem { name, attrs, children: c2 } => {
                if crate::ascii::bytes_eq(name, &t_mod) {
                    match get_attr(attrs, &a_id) {
                        None => {
                            proof {
                                assert(dep_of(cs[j as int]) is None);
                            }
                            return Err(ModError::MarkupParseError);
                        },
                        Some(id) => {
                            let title = get_attr(attrs, &a_title);
                            let d = Dependency { id, title };
                            proof {
                                assert(dep_of(cs[j as int]) == Some(dep_view(d)));
                            }
                            out.push(d);
                            proof {
                                assert(deps_views(out@) =~~= out0.push(dep_view(d)));
                                match deps_in(cs, j + 1) {
                                    Some(rest) => {
                                        assert(out0 + (seq![dep_view(d)] + rest) =~~= deps_views(
                                            out@,
                                        ) + rest);
                                    },
                                    None => {},
                                }
                            }
                        },
                    }
                }
            },
            _ => {},
        }
        j = j + 1;
    }
    proof {
        assert(deps_views(out@) + Seq::<GDependency>::empty() =~~= deps_views(out@));
    }
    Ok(out)
}

fn deps_of_exec(children: &Vec<ENode>) -> (r: Result<Vec<Dependency>, ModError>)
    ensures
        match deps_of(enodes_view(children@), 0) {
            Some(g) => r matches Ok(v) && deps_views(v@) == g,
            None => r == Err::<Vec<Dependency>, ModError>(ModError::MarkupParseError),
        },
{
    let ghost cs = enodes_view(children@);
    let t_deps = tag_dependencies();
    let mut out: Vec<Dependency> = Vec::new();
    let mut j: usize = 0;
    proof {
        assert(deps_views(out@) =~= Seq::<GDependency>::empty());
    }
    while j < children.len()
        invariant
            j <= children@.len(),
            cs == enodes_view(children@),
            t_deps@ == spec_tag_dependencies(),
            deps_of(cs, 0) == (match deps_of(cs, j as int) {
                Some(rest) => Some(deps_views(out@) + rest),
                None => None::<Seq<GDependency>>,
            }),
        decreases children@.len() - j,
    {
        let ghost out0 = deps_views(out@);
        proof {
            assert(cs[j as int] == enode_view(children@[j as int]));
        }
        match &children[j] {
            ENode::Elem { name, attrs, children: c2 } => {
                if crate::ascii::bytes_eq(name, &t_deps) {
                    proof {
                        crate::xmltree::lemma_echildren_view_ref(&children@[j as int], 0);
                        assert(enodes_view(c2@).skip(0) =~= enodes_view(c2@));
                    }
                    match deps_in_exec(c2) {
                        Ok(mut inner) => {
                            let ghost innerv = deps_views(inner@);
                            out.append(&mut inner);
                            proof {
                                assert(deps_views(out@) =~~= out0 + innerv);
                                match deps_of(cs, j + 1) {
                                    Some(rest) => {
                                        assert(out0 + (innerv + rest) =~~= (out0 + innerv) + rest);
                                    },
                                    None => {},
                                }
                            }
                        },
                        Err(e) => {
                            return Err(e);
                        },
                    }
                }
            },
            _ => {},
        }
        j = j + 1;
    }
    proof {
        assert(deps_views(out@) + Seq::<GDependency>::empty() =~~= deps_views(out@));
    }
    Ok(out)
}

/// The views of a byte-string vector.
pub open spec fn bytes_views(s: Seq<Vec<u8>>) -> Seq<Seq<u8>> {
    Seq::new(s.len(), |i: int| s[i]@)
}

/// The texts of the `File` children of one `LocalizedText` element.
pub open spec fn files_in(cs: Seq<SNode>, j: int) -> Seq<Seq<u8>>
    decreases cs.len() - j,
{
    if j < 0 || j >= cs.len() {
        Seq::empty()
    } else {
        match cs[j] {
            SNode::Elem { name, attrs, children } => {
                if name == spec_tag_file() {
                    seq![text_content(children)] + files_in(cs, j + 1)
                } else {
                    files_in(cs, j + 1)
                }
            },
            _ => files_in(cs, j + 1),
        }
    }
}

/// All localized text files, flattened over every `LocalizedText` child.
pub open spec fn ltext_of(cs: Seq<SNode>, j: int) -> Seq<Seq<u8>>
    decreases cs.len() - j,
{
    if j < 0 || j >= cs.len() {
        Seq::empty()
    } else {
        match cs[j] {
            SNode::Elem { name, attrs, children } => {
                if name == spec_tag_localized_text() {
                    files_in(children, 0) + ltext_of(cs, j + 1)
                } else {
                    ltext_of(cs, j + 1)
                }
            },
            _ => ltext_of(cs, j + 1),
        }
    }
}

fn files_in_exec(children: &Vec<ENode>) -> (r: Vec<Vec<u8>>)
    ensures
        bytes_views(r@) == files_in(enodes_view(children@), 0),
{
    let ghost cs = enodes_view(children@);
    let t_file = tag_file();
    let mut out: Vec<Vec<u8>> = Vec::new();
    let mut j: usize = 0;
    proof {
        assert(bytes_views(out@) =~= Seq::<Seq<u8>>::empty());
    }
    while j < children.len()
        invariant
            j <= children@.len(),
            cs == enodes_view(children@),
            t_file@ == spec_tag_file(),
            bytes_views(out@) + files_in(cs, j as int) == files_in(cs, 0),
        decreases children@.len() - j,
    {
        let ghost out0 = bytes_views(out@);
        proof {
            assert(cs[j as int] == enode_view(children@[j as int]));
        }
        match &children[j] {
            ENode::Elem { name, attrs, children: c2 } => {
                if crate::ascii::bytes_eq(name, &t_file) {
                    proof {
                        crate::xmltree::lemma_echildren_view_ref(&children@[j as int], 0);
                        assert(enodes_view(c2@).skip(0) =~= enodes_view(c2@));
                    }
                    let t = get_text(c2);
                    let ghost tv = t@;
                    out.push(t);
                    proof {
                        assert(bytes_views(out@) =~~= out0.push(tv));
                        assert(out0 + (seq![tv] + files_in(cs, j + 1)) =~~= bytes_views(out@)
                            + files_in(cs, j + 1));
                    }
                }
            },
            _ => {},
        }
        j = j + 1;
    }
    proof {
        assert(bytes_views(out@) + Seq::<Seq<u8>>::empty() =~~= bytes_views(out@));
    }
    out
}

fn ltext_exec(children: &Vec<ENode>) -> (r: Vec<Vec<u8>>)
    ensures
        bytes_views(r@) == ltext_of(enodes_view(children@), 0),
{
    let ghost cs = enodes_view(children@);
    let t_lt = tag_localized_text();
    let mut out: Vec<Vec<u8>> = Vec::new();
    let mut j: usize = 0;
    proof {
        assert(bytes_views(out@) =~= Seq::<Seq<u8>>::empty());
    }
    while j < children.len()
        invariant
            j <= children@.len(),
            cs == enodes_view(children@),
            t_lt@ == spec_tag_localized_text(),
            bytes_views(out@) + ltext_of(cs, j as int) == ltext_of(cs, 0),
        decreases children@.len() - j,
    {
        let ghost out0 = bytes_views(out@);
        proof {
            assert(cs[j as int] == enode_view(children@[j as int]));
        }
        match &children[j] {
            ENode::Elem { name, attrs, children: c2 } => {
                if crate::ascii::bytes_eq(name, &t_lt) {
                    proof {
                        crate::xmltree::lemma_echildren_view_ref(&children@[j as int], 0);
                        assert(enodes_view(c2@).skip(0) =~= enodes_view(c2@));
                    }
                    let mut inner = files_in_exec(c2);
                    let ghost innerv = bytes_views(inner@);
                    out.append(&mut inner);
                    proof {
                        assert(bytes_views(out@) =~~= out0 + innerv);
                        assert(out0 + (innerv + ltext_of(cs, j + 1)) =~~= (out0 + innerv)
                            + ltext_of(cs, j + 1));
                    }
                }
            },
            _ => {},
        }
        j = j + 1;
    }
    proof {
        assert(bytes_views(out@) + Seq::<Seq<u8>>::empty() =~~= bytes_views(out@));
    }
    out
}

/// The `ModInUse` condition of a criterion: target mod id as text, the
/// `inverse` flag as a 0/1 attribute, false when absent.
pub open spec fn miu_of(e: SNode) -> Option<GModInUse> {
    let inv = match attr_of(e->Elem_attrs, spec_attr_inverse()) {
        None => Some(false),
        Some(v) => onehot(v),
    };
    match inv {
        None => None,
        Some(b) => Some(GModInUse { mod_id: text_content(e->Elem_children), inverse: b }),
    }
}

/// One action criterion; its `id` attribute is required, `AlwaysMet` is
/// a marker tag.
pub open spec fn crit_of(e: SNode) -> Option<GActionCriterion> {
    match attr_of(e->Elem_attrs, spec_attr_id()) {
        None => None,
        Some(id) => {
            let cs = e->Elem_children;
            let miu = match child_named(cs, spec_tag_mod_in_use()) {
                None => Some(None),
                Some(m) => match miu_of(m) {
                    None => None,
                    Some(x) => Some(Some(x)),
                },
            };
            match miu {
                None => None,
                Some(m) => Some(
                    GActionCriterion {
                        id,
                        always_met: child_named(cs, spec_tag_always_met()) is Some,
                        age_in_use: opt_text_of(cs, spec_tag_age_in_use()),
                        mod_in_use: m,
                    },
                ),
            }
        },
    }
}

/// Reads one criterion element.
fn crit_exec(e: &ENode) -> (r: Result<ActionCriterion, ModError>)
    requires
        *e is Elem,
    ensures
        match crit_of(enode_view(*e)) {
            Some(g) => r matches Ok(c) && crit_view(c) == g,
            None => r == Err::<ActionCriterion, ModError>(ModError::MarkupParseError),
        },
{
    match e {
        ENode::Elem { name, attrs, children } => {
            proof {
                crate::xmltree::lemma_echildren_view_ref(e, 0);
                assert(enodes_view(children@).skip(0) =~= enodes_view(children@));
            }
            let a_id = attr_id();
            let id = match get_attr(attrs, &a_id) {
                None => {
                    return Err(ModError::MarkupParseError);
                },
                Some(x) => x,
            };
            let t_miu = tag_mod_in_use();
            let mod_in_use: Option<ActionCriterionModInUse>;
            match find_child(children, &t_miu) {
                None => {
                    mod_in_use = None;
                },
                Some(m) => match m {
                    ENode::Elem { name: mn, attrs: ma, children: mc } => {
                        proof {
                            crate::xmltree::lemma_echildren_view_ref(m, 0);
                            assert(enodes_view(mc@).skip(0) =~= enodes_view(mc@));
                        }
                        let a_inv = attr_inverse();
                        let inverse: bool;
                        match get_attr(ma, &a_inv) {
                            None => {
                                inverse = false;
                            },
                            Some(v) => match parse_onehot(&v) {
                                Some(b) => {
                                    inverse = b;
                                },
                                None => {
                                    return Err(ModError::MarkupParseError);
                                },
                            },
                        }
                        let mod_id = get_text(mc);
                        mod_in_use = Some(ActionCriterionModInUse { mod_id, inverse });
                    },
                    ENode::Text { .. } => {
                        proof {
                            crate::xmltree::lemma_child_named_is_elem(
                                enodes_view(children@),
                                t_miu@,
                                0,
                            );
                            assert(false);
                        }
                        mod_in_use = None;
                    },
                },
            }
            let t_am = tag_always_met();
            let always_met = match find_child(children, &t_am) {
                Some(_) => true,
                None => false,
            };
            let t_aiu = tag_age_in_use();
            let age_in_use = get_opt_text(children, &t_aiu);
            Ok(ActionCriterion { id, always_met, age_in_use, mod_in_use })
        },
        ENode::Text { .. } => {
            proof {
                assert(false);
            }
            Err(ModError::MarkupParseError)
        },
    }
}

/// The views of a criterion vector.
pub open spec fn crits_views(s: Seq<ActionCriterion>) -> Seq<GActionCriterion> {
    Seq::new(s.len(), |i: int| crit_view(s[i]))
}

/// The criteria among the `Criteria` children of one `ActionCriteria`
/// element.
pub open spec fn crits_in(cs: Seq<SNode>, j: int) -> Option<Seq<GActionCriterion>>
    decreases cs.len() - j,
{
    if j < 0 || j >= cs.len() {
        Some(Seq::empty())
    } else {
        match cs[j] {
            SNode::Elem { name, attrs, children } => {
                if name == spec_tag_criteria() {
                    match (crit_of(cs[j]), crits_in(cs, j + 1)) {
                        (Some(c), Some(r)) => Some(seq![c] + r),
                        _ => None,
                    }
                } else {
                    crits_in(cs, j + 1)
                }
            },
            _ => crits_in(cs, j + 1),
        }
    }
}

/// All action criteria, flattened over every `ActionCriteria` child.
pub open spec fn crits_of(cs: Seq<SNode>, j: int) -> Option<Seq<GActionCriterion>>
    decreases cs.len() - j,
{
    if j < 0 || j >= cs.len() {
        Some(Seq::empty())
    } else {
        match cs[j] {
            SNode::Elem { name, attrs, children } => {
                if name == spec_tag_action_criteria() {
                    match (crits_in(children, 0), crits_of(cs, j + 1)) {
                        (Some(a), Some(b)) => Some(a + b),
                        _ => None,
                    }
                } else {
                    crits_of(cs, j + 1)
                }
            },
            _ => crits_of(cs, j + 1),
        }
    }
}

fn crits_in_exec(children: &Vec<ENode>) -> (r: Result<Vec<ActionCriterion>, ModError>)
    ensures
        match crits_in(enodes_view(children@), 0) {
            Some(g) => r matches Ok(v) && crits_views(v@) == g,
            None => r == Err::<Vec<ActionCriterion>, ModError>(ModError::MarkupParseError),
        },
{
    let ghost cs = enodes_view(children@);
    let t_crit = tag_criteria();
    let mut out: Vec<ActionCriterion> = Vec::new();
    let mut j: usize = 0;
    proof {
        assert(crits_views(out@) =~= Seq::<GActionCriterion>::empty());
    }
    while j < children.len()
        invariant
            j <= children@.len(),
            cs == enodes_view(children@),
            t_crit@ == spec_tag_criteria(),
            crits_in(cs, 0) == (match crits_in(cs, j as int) {
                Some(rest) => Some(crits_views(out@) + rest),
                None => None::<Seq<GActionCriterion>>,
            }),
        decreases children@.len() - j,
    {
        let ghost out0 = crits_views(out@);
        proof {
            assert(cs[j as int] == enode_view(children@[j as int]));
        }
        match &children[j] {
            ENode::Elem { name, attrs, children: c2 } => {
                if crate::ascii::bytes_eq(name, &t_crit) {
                    match crit_exec(&children[j]) {
                        Ok(c) => {
                            let ghost cv = crit_view(c);
                            out.push(c);
                            proof {
                                assert(crits_views(out@) =~~= out0.push(cv));
                                match crits_in(cs, j + 1) {
                                    Some(rest) => {
                                        assert(out0 + (seq![cv] + rest) =~~= crits_views(out@)
                                            + rest);
                                    },
                                    None => {},
                                }
                            }
                        },
                        Err(e) => {
                            return Err(e);
                        },
                    }
                }
            },
            _ => {},
        }
        j = j + 1;
    }
    proof {
        assert(crits_views(out@) + Seq::<GActionCriterion>::empty() =~~= crits_views(out@));
    }
    Ok(out)
}

fn crits_of_exec(children: &Vec<ENode>) -> (r: Result<Vec<ActionCriterion>, ModError>)
    ensures
        match crits_of(enodes_view(children@), 0) {
            Some(g) => r matches Ok(v) && crits_views(v@) == g,
            None => r == Err::<Vec<ActionCriterion>, ModError>(ModError::MarkupParseError),
        },
{
    let ghost cs = enodes_view(children@);
    let t_ac = tag_action_criteria();
    let mut out: Vec<ActionCriterion> = Vec::new();
    let mut j: usize = 0;
    proof {
        assert(crits_views(out@) =~= Seq::<GActionCriterion>::empty());
    }
    while j < children.len()
        invariant
            j <= children@.len(),
            cs == enodes_view(children@),
            t_ac@ == spec_tag_action_criteria(),
            crits_of(cs, 0) == (match crits_of(cs, j as int) {
                Some(rest) => Some(crits_views(out@) + rest),
                None => None::<Seq<GActionCriterion>>,
            }),
        decreases children@.len() - j,
    {
        let ghost out0 = crits_views(out@);
        proof {
            assert(cs[j as int] == enode_view(children@[j as int]));
        }
        match &children[j] {
            ENode::Elem { name, attrs, children: c2 } => {
                if crate::ascii::bytes_eq(name, &t_ac) {
                    proof {
                        crate::xmltree::lemma_echildren_view_ref(&children@[j as int], 0);
                        assert(enodes_view(c2@).skip(0) =~= enodes_view(c2@));
                    }
                    match crits_in_exec(c2) {
                        Ok(mut inner) => {
                            let ghost innerv = crits_views(inner@);
                            out.append(&mut inner);
                            proof {
                                assert(crits_views(out@) =~~= out0 + innerv);
                                match crits_of(cs, j + 1) {
                                    Some(rest) => {
                                        assert(out0 + (innerv + rest) =~~= (out0 + innerv) + rest);
                                    },
                                    None => {},
                                }
                            }
                        },
                        Err(e) => {
                            return Err(e);
                        },
                    }
                }
            },
            _ => {},
        }
        j = j + 1;
    }
    proof {
        assert(crits_views(out@) + Seq::<GActionCriterion>::empty() =~~= crits_views(out@));
    }
    Ok(out)
}

/// One action item: a path as text, an optional `locale` attribute.
pub open spec fn item_of(e: SNode) -> GActionItem {
    GActionItem {
        path: text_content(e->Elem_children),
        locale: attr_of(e->Elem_attrs, spec_attr_locale()),
    }
}

/// The items among the `Item` children of one list element.
pub open spec fn items_in(cs: Seq<SNode>, j: int) -> Seq<GActionItem>
    decreases cs.len() - j,
{
    if j < 0 || j >= cs.len() {
        Seq::empty()
    } else {
        match cs[j] {
            SNode::Elem { name, attrs, children } => {
                if name == spec_tag_item() {
                    seq![item_of(cs[j])] + items_in(cs, j + 1)
                } else {
                    items_in(cs, j + 1)
                }
            },
            _ => items_in(cs, j + 1),
        }
    }
}

/// All items of the lists with the given name, flattened.
pub open spec fn items_lists(cs: Seq<SNode>, tag: Seq<u8>, j: int) -> Seq<GActionItem>
    decreases cs.len() - j,
{
    if j < 0 || j >= cs.len() {
        Seq::empty()
    } else {
        match cs[j] {
            SNode::Elem { name, attrs, children } => {
                if name == tag {
                    items_in(children, 0) + items_lists(cs, tag, j + 1)
                } else {
                    items_lists(cs, tag, j + 1)
                }
            },
            _ => items_lists(cs, tag, j + 1),
        }
    }
}

fn items_in_exec(children: &Vec<ENode>) -> (r: Vec<ActionItem>)
    ensures
        items_view(r@) == items_in(enodes_view(children@), 0),
{
    let ghost cs = enodes_view(children@);
    let t_item = tag_item();
    let a_loc = attr_locale();
    let mut out: Vec<ActionItem> = Vec::new();
    let mut j: usize = 0;
    proof {
        assert(items_view(out@) =~= Seq::<GActionItem>::empty());
    }
    while j < children.len()
        invariant
            j <= children@.len(),
            cs == enodes_view(children@),
            t_item@ == spec_tag_item(),
            a_loc@ == spec_attr_locale(),
            items_view(out@) + items_in(cs, j as int) == items_in(cs, 0),
        decreases children@.len() - j,
    {
        let ghost out0 = items_view(out@);
        proof {
            assert(cs[j as int] == enode_view(children@[j as int]));
        }
        match &children[j] {
            ENode::Elem { name, attrs, children: c2 } => {
                if crate::ascii::bytes_eq(name, &t_item) {
                    proof {
                        crate::xmltree::lemma_echildren_view_ref(&children@[j as int], 0);
                        assert(enodes_view(c2@).skip(0) =~= enodes_view(c2@));
                    }
                    let path = get_text(c2);
                    let locale = get_attr(attrs, &a_loc);
                    let it = ActionItem { path, locale };
                    let ghost iv = item_view(it);
                    proof {
                        assert(iv == item_of(cs[j as int]));
                    }
                    out.push(it);
                    proof {
                        assert(items_view(out@) =~~= out0.push(iv));
                        assert(out0 + (seq![iv] + items_in(cs, j + 1)) =~~= items_view(out@)
                            + items_in(cs, j + 1));
                    }
                }
            },
            _ => {},
        }
        j = j + 1;
    }
    proof {
        assert(items_view(out@) + Seq::<GActionItem>::empty() =~~= items_view(out@));
    }
    out
}

fn items_lists_exec(children: &Vec<ENode>, tag: &Vec<u8>) -> (r: Vec<ActionItem>)
    ensures
        items_view(r@) == items_lists(enodes_view(children@), tag@, 0),
{
    let ghost cs = enodes_view(children@);
    let mut out: Vec<ActionItem> = Vec::new();
    let mut j: usize = 0;
    proof {
        assert(items_view(out@) =~= Seq::<GActionItem>::empty());
    }
    while j < children.len()
        invariant
            j <= children@.len(),
            cs == enodes_view(children@),
            items_view(out@) + items_lists(cs, tag@, j as int) == items_lists(cs, tag@, 0),
        decreases children@.len() - j,
    {
        let ghost out0 = items_view(out@);
        proof {
            assert(cs[j as int] == enode_view(children@[j as int]));
        }
        match &children[j] {
            ENode::Elem { name, attrs, children: c2 } => {
                if crate::ascii::bytes_eq(name, tag) {
                    proof {
                        crate::xmltree::lemma_echildren_view_ref(&children@[j as int], 0);
                        assert(enodes_view(c2@).skip(0) =~= enodes_view(c2@));
                    }
                    let mut inner = items_in_exec(c2);
                    let ghost innerv = items_view(inner@);
                    out.append(&mut inner);
                    proof {
                        assert(items_view(out@) =~~= out0 + innerv);
                        assert(out0 + (innerv + items_lists(cs, tag@, j + 1)) =~~= (out0 + innerv)
                            + items_lists(cs, tag@, j + 1));
                    }
                }
            },
            _ => {},
        }
        j = j + 1;
    }
    proof {
        assert(items_view(out@) + Seq::<GActionItem>::empty() =~~= items_view(out@));
    }
    out
}

/// The categorized action lists of one `Actions` element.
pub open spec fn gactions_of(e: SNode) -> GActions {
    let cs = e->Elem_children;
    GActions {
        import_files: items_lists(cs, spec_tag_import_files(), 0),
        ui_scripts: items_lists(cs, spec_tag_ui_scripts(), 0),
        update_database: items_lists(cs, spec_tag_update_database(), 0),
        update_text: items_lists(cs, spec_tag_update_text(), 0),
    }
}

/// The views of an actions vector.
pub open spec fn acts_views(s: Seq<ActionGroupActions>) -> Seq<GActions> {
    Seq::new(s.len(), |i: int| actions_view(s[i]))
}

/// The action lists of every `Actions` child of a group.
pub open spec fn acts_of(cs: Seq<SNode>, j: int) -> Seq<GActions>
    decreases cs.len() - j,
{
    if j < 0 || j >= cs.len() {
        Seq::empty()
    } else {
        match cs[j] {
            SNode::Elem { name, attrs, children } => {
                if name == spec_tag_actions() {
                    seq![gactions_of(cs[j])] + acts_of(cs, j + 1)
                } else {
                    acts_of(cs, j + 1)
                }
            },
            _ => acts_of(cs, j + 1),
        }
    }
}

fn acts_of_exec(children: &Vec<ENode>) -> (r: Vec<ActionGroupActions>)
    ensures
        acts_views(r@) == acts_of(enodes_view(children@), 0),
{
    let ghost cs = enodes_view(children@);
    let t_act = tag_actions();
    let mut out: Vec<ActionGroupActions> = Vec::new();
    let mut j: usize = 0;
    proof {
        assert(acts_views(out@) =~= Seq::<GActions>::empty());
    }
    while j < children.len()
        invariant
            j <= children@.len(),
            cs == enodes_view(children@),
            t_act@ == spec_tag_actions(),
            acts_views(out@) + acts_of(cs, j as int) == acts_of(cs, 0),
        decreases children@.len() - j,
    {
        let ghost out0 = acts_views(out@);
        proof {
            assert(cs[j as int] == enode_view(children@[j as int]));
        }
        match &children[j] {
            ENode::Elem { name, attrs, children: c2 } => {
                if crate::ascii::bytes_eq(name, &t_act) {
                    proof {
                        crate::xmltree::lemma_echildren_view_ref(&children@[j as int], 0);
                        assert(enodes_view(c2@).skip(0) =~= enodes_view(c2@));
                    }
                    let t_if = tag_import_files();
                    let t_ui = tag_ui_scripts();
                    let t_ud = tag_update_database();
                    let t_ut = tag_update_text();
                    let a = ActionGroupActions {
                        import_files: items_lists_exec(c2, &t_if),
                        ui_scripts: items_lists_exec(c2, &t_ui),
                        update_database: items_lists_exec(c2, &t_ud),
                        update_text: items_lists_exec(c2, &t_ut),
                    };
                    let ghost av = actions_view(a);
                    proof {
                        assert(av == gactions_of(cs[j as int]));
                    }
                    out.push(a);
                    proof {
                        assert(acts_views(out@) =~~= out0.push(av));
                        assert(out0 + (seq![av] + acts_of(cs, j + 1)) =~~= acts_views(out@)
                            + acts_of(cs, j + 1));
                    }
                }
            },
            _ => {},
        }
        j = j + 1;
    }
    proof {
        assert(acts_views(out@) + Seq::<GActions>::empty() =~~= acts_views(out@));
    }
    out
}

/// The `LoadOrder` value of a group's `Properties` block: absent blocks
/// or tags give no order; a tag that does not parse as an integer is an
/// error (the outer `None`).
pub open spec fn load_order_of(cs: Seq<SNode>) -> Option<Option<int>> {
    match child_named(cs, spec_tag_properties()) {
        None => Some(None),
        Some(p) => match opt_text_of(p->Elem_children, spec_tag_load_order()) {
            None => Some(None),
            Some(t) => match spec_parse_i32(t) {
                None => None,
                Some(v) => Some(Some(v)),
            },
        },
    }
}

/// One action group; its `id` attribute is required.
pub open spec fn group_of(e: SNode) -> Option<GActionGroup> {
    match attr_of(e->Elem_attrs, spec_attr_id()) {
        None => None,
        Some(id) => {
            let cs = e->Elem_children;
            match load_order_of(cs) {
                None => None,
                Some(lo) => Some(
                    GActionGroup {
                        id,
                        scope: attr_of(e->Elem_attrs, spec_attr_scope()),
                        criteria: attr_of(e->Elem_attrs, spec_attr_criteria()),
                        load_order: lo,
                        actions: acts_of(cs, 0),
                    },
                ),
            }
        },
    }
}

/// Reads one action group element.
fn group_exec(e: &ENode) -> (r: Result<ActionGroup, ModError>)
    requires
        *e is Elem,
    ensures
        match group_of(enode_view(*e)) {
            Some(g) => r matches Ok(v) && group_view(v) == g,
            None => r == Err::<ActionGroup, ModError>(ModError::MarkupParseError),
        },
{
    match e {
        ENode::Elem { name, attrs, children } => {
            proof {
                crate::xmltree::lemma_echildren_view_ref(e, 0);
                assert(enodes_view(children@).skip(0) =~= enodes_view(children@));
            }
            let a_id = attr_id();
            let id = match get_attr(attrs, &a_id) {
                None => {
                    return Err(ModError::MarkupParseError);
                },
                Some(x) => x,
            };
            let t_props = tag_properties();
            let load_order: Option<i32>;
            match find_child(children, &t_props) {
                None => {
                    load_order = None;
                },
                Some(p) => match p {
                    ENode::Elem { name: pn, attrs: pa, children: pc } => {
                        proof {
                            crate::xmltree::lemma_echildren_view_ref(p, 0);
                            assert(enodes_view(pc@).skip(0) =~= enodes_view(pc@));
                        }
                        let t_lo = tag_load_order();
                        match get_opt_text(pc, &t_lo) {
                            None => {
                                load_order = None;
                            },
                            Some(t) => match parse_i32(&t) {
                                Some(v) => {
                                    load_order = Some(v);
                                },
                                None => {
                                    return Err(ModError::MarkupParseError);
                                },
                            },
                        }
                    },
                    ENode::Text { .. } => {
                        proof {
                            crate::xmltree::lemma_child_named_is_elem(
                                enodes_view(children@),
                                t_props@,
                                0,
                            );
                            assert(false);
                        }
                        load_order = None;
                    },
                },
            }
            let a_scope = attr_scope();
            let a_crit = attr_criteria();
            let g = ActionGroup {
                id,
                scope: get_attr(attrs, &a_scope),
                criteria: get_attr(attrs, &a_crit),
                properties: ActionGroupProperties { load_order },
                actions: acts_of_exec(children),
            };
            proof {
                assert(acts_views(g.actions@) =~~= Seq::new(
                    g.actions@.len(),
                    |i: int| actions_view(g.actions@[i]),
                ));
            }
            Ok(g)
        },
        ENode::Text { .. } => {
            proof {
                assert(false);
            }
            Err(ModError::MarkupParseError)
        },
    }
}

/// The views of a group vector.
pub open spec fn groups_views(s: Seq<ActionGroup>) -> Seq<GActionGroup> {
    Seq::new(s.len(), |i: int| group_view(s[i]))
}

/// The groups among the `ActionGroup` children of one `ActionGroups`
/// element.
pub open spec fn groups_in(cs: Seq<SNode>, j: int) -> Option<Seq<GActionGroup>>
    decreases cs.len() - j,
{
    if j < 0 || j >= cs.len() {
        Some(Seq::empty())
    } else {
        match cs[j] {
            SNode::Elem { name, attrs, children } => {
                if name == spec_tag_action_group() {
                    match (group_of(cs[j]), groups_in(cs, j + 1)) {
                        (Some(g), Some(r)) => Some(seq![g] + r),
                        _ => None,
                    }
                } else {
                    groups_in(cs, j + 1)
                }
            },
            _ => groups_in(cs, j + 1),
        }
    }
}

/// All action groups, flattened over every `ActionGroups` child.
pub open spec fn groups_of(cs: Seq<SNode>, j: int) -> Option<Seq<GActionGroup>>
    decreases cs.len() - j,
{
    if j < 0 || j >= cs.len() {
        Some(Seq::empty())
    } else {
        match cs[j] {
            SNode::Elem { name, attrs, children } => {
                if name == spec_tag_action_groups() {
                    match (groups_in(children, 0), groups_of(cs, j + 1)) {
                        (Some(a), Some(b)) => Some(a + b),
                        _ => None,
                    }
                } else {
                    groups_of(cs, j + 1)
                }
            },
            _ => groups_of(cs, j + 1),
        }
    }
}

fn groups_in_exec(children: &Vec<ENode>) -> (r: Result<Vec<ActionGroup>, ModError>)
    ensures
        match groups_in(enodes_view(children@), 0) {
            Some(g) => r matches Ok(v) && groups_views(v@) == g,
            None => r == Err::<Vec<ActionGroup>, ModError>(ModError::MarkupParseError),
        },
{
    let ghost cs = enodes_view(children@);
    let t_ag = tag_action_group();
    let mut out: Vec<ActionGroup> = Vec::new();
    let mut j: usize = 0;
    proof {
        assert(groups_views(out@) =~= Seq::<GActionGroup>::empty());
    }
    while j < children.len()
        invariant
            j <= children@.len(),
            cs == enodes_view(children@),
            t_ag@ == spec_tag_action_group(),
            groups_in(cs, 0) == (match groups_in(cs, j as int) {
                Some(rest) => Some(groups_views(out@) + rest),
                None => None::<Seq<GActionGroup>>,
            }),
        decreases children@.len() - j,
    {
        let ghost out0 = groups_views(out@);
        proof {
            assert(cs[j as int] == enode_view(children@[j as int]));
        }
        match &children[j] {
            ENode::Elem { name, attrs, children: c2 } => {
                if crate::ascii::bytes_eq(name, &t_ag) {
                    match group_exec(&children[j]) {
                        Ok(g) => {
                            let ghost gv = group_view(g);
                            out.push(g);
                            proof {
                                assert(groups_views(out@) =~~= out0.push(gv));
                                match groups_in(cs, j + 1) {
                                    Some(rest) => {
                                        assert(out0 + (seq![gv] + rest) =~~= groups_views(out@)
                                            + rest);
                                    },
                                    None => {},
                                }
                            }
                        },
                        Err(e) => {
                            return Err(e);
                        },
                    }
                }
            },
            _ => {},
        }
        j = j + 1;
    }
    proof {
        assert(groups_views(out@) + Seq::<GActionGroup>::empty() =~~= groups_views(out@));
    }
    Ok(out)
}

fn groups_of_exec(children: &Vec<ENode>) -> (r: Result<Vec<ActionGroup>, ModError>)
    ensures
        match groups_of(enodes_view(children@), 0) {
            Some(g) => r matches Ok(v) && groups_views(v@) == g,
            None => r == Err::<Vec<ActionGroup>, ModError>(ModError::MarkupParseError),
        },
{
    let ghost cs = enodes_view(children@);
    let t_ags = tag_action_groups();
    let mut out: Vec<ActionGroup> = Vec::new();
    let mut j: usize = 0;
    proof {
        assert(groups_views(out@) =~= Seq::<GActionGroup>::empty());
    }
    while j < children.len()
        invariant
            j <= children@.len(),
            cs == enodes_view(children@),
            t_ags@ == spec_tag_action_groups(),
            groups_of(cs, 0) == (match groups_of(cs, j as int) {
                Some(rest) => Some(groups_views(out@) + rest),
                None => None::<Seq<GActionGroup>>,
            }),
        decreases children@.len() - j,
    {
        let ghost out0 = groups_views(out@);
        proof {
            assert(cs[j as int] == enode_view(children@[j as int]));
        }
        match &children[j] {
            ENode::Elem { name, attrs, children: c2 } => {
                if crate::ascii::bytes_eq(name, &t_ags) {
                    proof {
                        crate::xmltree::lemma_echildren_view_ref(&children@[j as int], 0);
                        assert(enodes_view(c2@).skip(0) =~= enodes_view(c2@));
                    }
                    match groups_in_exec(c2) {
                        Ok(mut inner) => {
                            let ghost innerv = groups_views(inner@);
                            out.append(&mut inner);
                            proof {
                                assert(groups_views(out@) =~~= out0 + innerv);
                                match groups_of(cs, j + 1) {
                                    Some(rest) => {
                                        assert(out0 + (innerv + rest) =~~= (out0 + innerv) + rest);
                                    },
                                    None => {},
                                }
                            }
                        },
                        Err(e) => {
                            return Err(e);
                        },
                    }
                }
            },
            _ => {},
        }
        j = j + 1;
    }
    proof {
        assert(groups_views(out@) + Seq::<GActionGroup>::empty() =~~= groups_views(out@));
    }
    Ok(out)
}

/// A whole manifest read from its root element: the `id` attribute is
/// required, everything else is optional or defaulted.
pub open spec fn mod_of(root: SNode) -> Option<GMod> {
    match attr_of(root->Elem_attrs, spec_attr_id()) {
        None => None,
        Some(id) => {
            let cs = root->Elem_children;
            let props = match child_named(cs, spec_tag_properties()) {
                None => Some(default_props()),
                Some(p) => props_of(p->Elem_children),
            };
            match (props, deps_of(cs, 0), crits_of(cs, 0), groups_of(cs, 0)) {
                (Some(pr), Some(de), Some(cr), Some(gr)) => Some(
                    GMod {
                        id,
                        version: attr_of(root->Elem_attrs, spec_attr_version()),
                        properties: pr,
                        dependencies: de,
                        localized_text: ltext_of(cs, 0),
                        action_criteria: cr,
                        action_groups: gr,
                    },
                ),
                _ => None,
            }
        },
    }
}

/// The element tree of a raw manifest text, after lenient repair.
pub open spec fn spec_tree_of(input: Seq<u8>) -> Seq<SNode> {
    build_tree(repair(spec_tokenize(input)))
}

/// The manifest parsed from raw text: the first root element, mapped by
/// the schema; `None` when there is no element or the schema is violated.
pub open spec fn spec_parse_mod(input: Seq<u8>) -> Option<GMod> {
    match first_elem(spec_tree_of(input)) {
        None => None,
        Some(root) => mod_of(root),
    }
}

/// Builds the repaired element tree of a raw manifest text.
pub fn tree_of(input: &Vec<u8>) -> (r: Vec<ENode>)
    ensures
        enodes_view(r@) == spec_tree_of(input@),
{
    let toks = tokenize(input);
    let repaired = repair_tokens(toks);
    build_tree_exec(&repaired)
}

impl Mod {
    /// Parses a manifest from raw bytes: lenient repair, then the schema
    /// mapping.
    pub fn parse(source: &Vec<u8>) -> (r: Result<Mod, ModError>)
        ensures
            match spec_parse_mod(source@) {
                Some(g) => r matches Ok(m) && mod_view(m) == g,
                None => r == Err::<Mod, ModError>(ModError::MarkupParseError),
            },
    {
        let tree = tree_of(source);
        let root = match find_first_elem(&tree) {
            None => {
                return Err(ModError::MarkupParseError);
            },
            Some(e) => e,
        };
        match root {
            ENode::Elem { name, attrs, children } => {
                proof {
                    crate::xmltree::lemma_echildren_view_ref(root, 0);
                    assert(enodes_view(children@).skip(0) =~= enodes_view(children@));
                }
                let a_id = attr_id();
                let id = match get_attr(attrs, &a_id) {
                    None => {
                        return Err(ModError::MarkupParseError);
                    },
                    Some(x) => x,
                };
                let a_version = attr_version();
                let version = get_attr(attrs, &a_version);
                let t_props = tag_properties();
                let properties: Properties;
                match find_child(children, &t_props) {
                    None => {
                        properties = Properties {
                            name: None,
                            description: None,
                            authors: None,
                            package: None,
                            affects_saved_games: true,
                            special_thanks: None,
                            version: None,
                            compatibility: None,
                            url: None,
                        };
                    },
                    Some(p) => match p {
                        ENode::Elem { name: pn, attrs: pa, children: pc } => {
                            proof {
                                crate::xmltree::lemma_echildren_view_ref(p, 0);
                                assert(enodes_view(pc@).skip(0) =~= enodes_view(pc@));
                            }
                            match props_exec(pc) {
                                Ok(pr) => {
                                    properties = pr;
                                },
                                Err(e) => {
                                    return Err(e);
                                },
                            }
                        },
                        ENode::Text { .. } => {
                            proof {
                                crate::xmltree::lemma_child_named_is_elem(
                                    enodes_view(children@),
                                    t_props@,
                                    0,
                                );
                                assert(false);
                            }
                            return Err(ModError::MarkupParseError);
                        },
                    },
                }
                let dependencies = match deps_of_exec(children) {
                    Ok(v) => v,
                    Err(e) => {
                        return Err(e);
                    },
                };
                let localized_text = ltext_exec(children);
                let action_criteria = match crits_of_exec(children) {
                    Ok(v) => v,
                    Err(e) => {
                        return Err(e);
                    },
                };
                let action_groups = match groups_of_exec(children) {
                    Ok(v) => v,
                    Err(e) => {
                        return Err(e);
                    },
                };
                let m = Mod {
                    id,
                    version,
                    properties,
                    dependencies,
                    localized_text,
                    action_criteria,
                    action_groups,
                };
                proof {
                    assert(Seq::new(
                        m.dependencies@.len(),
                        |i: int| dep_view(m.dependencies@[i]),
                    ) =~~= deps_views(m.dependencies@));
                    assert(Seq::new(m.localized_text@.len(), |i: int| m.localized_text@[i]@)
                        =~~= bytes_views(m.localized_text@));
                    assert(Seq::new(
                        m.action_criteria@.len(),
                        |i: int| crit_view(m.action_criteria@[i]),
                    ) =~~= crits_views(m.action_criteria@));
                    assert(Seq::new(
                        m.action_groups@.len(),
                        |i: int| group_view(m.action_groups@[i]),
                    ) =~~= groups_views(m.action_groups@));
                }
                Ok(m)
            },
            ENode::Text { .. } => {
                proof {
                    crate::xmltree::lemma_first_elem_is_elem(enodes_view(tree@), 0);
                    assert(false);
                }
                Err(ModError::MarkupParseError)
            },
        }
    }
}

/// The `Properties` block parsed from a standalone fragment.
pub open spec fn spec_parse_properties(input: Seq<u8>) -> Option<GProperties> {
    match first_elem(spec_tree_of(input)) {
        None => None,
        Some(root) => props_of(root->Elem_children),
    }
}

/// Parses a standalone `Properties` fragment.
pub fn parse_properties(source: &Vec<u8>) -> (r: Result<Properties, ModError>)
    ensures
        match spec_parse_properties(source@) {
            Some(g) => r matches Ok(p) && props_view(p) == g,
            None => r == Err::<Properties, ModError>(ModError::MarkupParseError),
        },
{
    let tree = tree_of(source);
    let root = match find_first_elem(&tree) {
        None => {
            return Err(ModError::MarkupParseError);
        },
        Some(e) => e,
    };
    match root {
        ENode::Elem { name, attrs, children } => {
            proof {
                crate::xmltree::lemma_echildren_view_ref(root, 0);
                assert(enodes_view(children@).skip(0) =~= enodes_view(children@));
            }
            props_exec(children)
        },
        ENode::Text { .. } => {
            proof {
                crate::xmltree::lemma_first_elem_is_elem(enodes_view(tree@), 0);
                assert(false);
            }
            Err(ModError::MarkupParseError)
        },
    }
}

/// An action criterion parsed from a standalone fragment.
pub open spec fn spec_parse_action_criterion(input: Seq<u8>) -> Option<GActionCriterion> {
    match first_elem(spec_tree_of(input)) {
        None => None,
        Some(root) => crit_of(root),
    }
}

/// Parses a standalone criterion fragment.
pub fn parse_action_criterion(source: &Vec<u8>) -> (r: Result<ActionCriterion, ModError>)
    ensures
        match spec_parse_action_criterion(source@) {
            Some(g) => r matches Ok(c) && crit_view(c) == g,
            None => r == Err::<ActionCriterion, ModError>(ModError::MarkupParseError),
        },
{
    let tree = tree_of(source);
    let root = match find_first_elem(&tree) {
        None => {
            return Err(ModError::MarkupParseError);
        },
        Some(e) => e,
    };
    proof {
        crate::xmltree::lemma_first_elem_is_elem(enodes_view(tree@), 0);
    }
    crit_exec(root)
}

/// An action group parsed from a standalone fragment.
pub open spec fn spec_parse_action_group(input: Seq<u8>) -> Option<GActionGroup> {
    match first_elem(spec_tree_of(input)) {
        None => None,
        Some(root) => group_of(root),
    }
}

/// Parses a standalone action group fragment.
pub fn parse_action_group(source: &Vec<u8>) -> (r: Result<ActionGroup, ModError>)
    ensures
        match spec_parse_action_group(source@) {
            Some(g) => r matches Ok(v) && group_view(v) == g,
            None => r == Err::<ActionGroup, ModError>(ModError::MarkupParseError),
        },
{
    let tree = tree_of(source);
    let root = match find_first_elem(&tree) {
        None => {
            return Err(ModError::MarkupParseError);
        },
        Some(e) => e,
    };
    proof {
        crate::xmltree::lemma_first_elem_is_elem(enodes_view(tree@), 0);
    }
    group_exec(root)
}

} // verus!
