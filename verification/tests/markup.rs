//! Sanitizer and schema tests over raw manifest markup.

use civmods::sanitize::sanitize_xml;
use civmods::schema::{Mod, Properties, parse_properties, parse_action_criterion,
    parse_action_group, ActionCriterion, ActionCriterionModInUse, ActionGroup,
    ActionGroupProperties, ActionGroupActions, ActionItem, parse_i32, default_true};
use civmods::traversal::extract_mod_xml;

fn bytes(s: &str) -> Vec<u8> {
    s.as_bytes().to_vec()
}

#[test]
fn traversal_test_sanitize_xml() {
    let xml = r#"<Item>ui/shell/extras/screen-extras.js</item>"#;
    let output = sanitize_xml(&bytes(xml));
    assert_eq!(output, bytes(r#"<Item>ui/shell/extras/screen-extras.js</Item>"#));
}

#[test]
fn lib_test_sanitize_xml() {
    let xml = r#"<Item>ui/shell/extras/screen-extras.js</item>"#;
    let output = sanitize_xml(&bytes(xml));
    assert_eq!(output, bytes(r#"<Item>ui/shell/extras/screen-extras.js</Item>"#));
}

#[test]
fn traversal_test_parse_mod_xml() {
    let xml = r#"<Mod id="a_mod"><Item>ui/shell/extras/screen-extras.js</item></Mod>"#;
    let sanitized = sanitize_xml(&bytes(xml));
    let mod_xml = extract_mod_xml(&sanitized).unwrap();
    assert_eq!(mod_xml.id, Some(bytes("a_mod")));
}

#[test]
fn test_parse_mod_xml() {
    let xml = r#"<Mod id="a_mod"><Item>ui/shell/extras/screen-extras.js</item></Mod>"#;
    let mod_xml = Mod::parse(&bytes(xml)).unwrap();
    assert_eq!(mod_xml.id, bytes("a_mod"));
}

#[test]
fn test_parse_ampersand_in_text() {
    let xml = r#"<Mod id="a_mod"><Properties><Name>Mod by me & friends</Name></Properties></Mod>"#;
    let sanitized = sanitize_xml(&bytes(xml));
    assert_eq!(
        sanitized,
        bytes(
            r#"<Mod id="a_mod"><Properties><Name>Mod by me &amp; friends</Name></Properties></Mod>"#,
        ),
    );
}

#[test]
fn sanitize_is_idempotent_on_well_formed_input() {
    let xml = "<Mod id=\"m\"><Properties><Name>Hi &amp; bye</Name></Properties></Mod>";
    let once = sanitize_xml(&bytes(xml));
    let twice = sanitize_xml(&once);
    assert_eq!(once, twice);
    // already-canonical input passes through unchanged
    assert_eq!(once, bytes(xml));
}

#[test]
fn sanitize_closes_missing_end_tags() {
    let xml = "<A><B>text";
    let output = sanitize_xml(&bytes(xml));
    assert_eq!(output, bytes("<A><B>text</B></A>"));
}

#[test]
fn sanitize_passes_stray_end_tags_through() {
    let xml = "text</B>";
    let output = sanitize_xml(&bytes(xml));
    assert_eq!(output, bytes("text</B>"));
}

#[test]
fn test_mod_properties() {
    let xml = "<Properties>\n    <Name>NAME</Name>\n    <Description>DESCRIPTION</Description>\n    <Authors>AUTHORS</Authors>\n    <Package>PACKAGE</Package>\n    <SpecialThanks>SPECIAL_THANKS</SpecialThanks>\n    <Compatibility>COMPATIBILITY</Compatibility>\n    <URL>URL</URL>\n    <Version>VERSION</Version>\n</Properties>\n";
    let actual = parse_properties(&bytes(xml)).unwrap();
    let expected = Properties {
        name: Some(bytes("NAME")),
        description: Some(bytes("DESCRIPTION")),
        authors: Some(bytes("AUTHORS")),
        package: Some(bytes("PACKAGE")),
        affects_saved_games: true,
        special_thanks: Some(bytes("SPECIAL_THANKS")),
        version: Some(bytes("VERSION")),
        compatibility: Some(bytes("COMPATIBILITY")),
        url: Some(bytes("URL")),
    };
    assert_eq!(actual, expected);

    let zero = parse_properties(&bytes(
        "<Properties>\n    <AffectsSavedGames>0</AffectsSavedGames>\n</Properties>\n",
    ))
    .unwrap();
    assert_eq!(zero.affects_saved_games, false);
    assert_eq!(zero.name, None);

    let one = parse_properties(&bytes(
        "<Properties>\n    <AffectsSavedGames>1</AffectsSavedGames>\n</Properties>\n",
    ))
    .unwrap();
    assert_eq!(one.affects_saved_games, true);
    assert_eq!(one.name, None);

    let empty = parse_properties(&bytes("<Properties></Properties>")).unwrap();
    assert_eq!(empty.affects_saved_games, default_true());
    assert_eq!(empty.name, None);
}

#[test]
fn test_action_criteria() {
    let xml = "<Criteria id=\"ID\">\n    <AlwaysMet/>\n    <AgeInUse>AGE_ANTIQUITY</AgeInUse>\n    <ModInUse inverse=\"1\">MOD_ID</ModInUse>\n</Criteria>\n";
    let actual = parse_action_criterion(&bytes(xml)).unwrap();
    let expected = ActionCriterion {
        id: bytes("ID"),
        always_met: true,
        age_in_use: Some(bytes("AGE_ANTIQUITY")),
        mod_in_use: Some(ActionCriterionModInUse { mod_id: bytes("MOD_ID"), inverse: true }),
    };
    assert_eq!(actual, expected);
}

#[test]
fn test_action_groups() {
    let xml = "<ActionGroup id=\"ID\" scope=\"SCOPE\" criteria=\"CRITERIA\">\n\t<Properties>\n\t\t<LoadOrder>4</LoadOrder>\n\t</Properties>\n\t<Actions>\n\t\t<UpdateDatabase>\n\t\t\t<Item>A.sql</Item>\n\t\t\t<Item>B.sql</Item>\n\t\t\t<Item locale=\"de_DE\">C.sql</Item>\n\t\t</UpdateDatabase>\n\t</Actions>\n</ActionGroup>\n";
    let actual = parse_action_group(&bytes(xml)).unwrap();
    let expected = ActionGroup {
        id: bytes("ID"),
        scope: Some(bytes("SCOPE")),
        criteria: Some(bytes("CRITERIA")),
        properties: ActionGroupProperties { load_order: Some(4) },
        actions: vec![ActionGroupActions {
            import_files: vec![],
            ui_scripts: vec![],
            update_database: vec![
                ActionItem { path: bytes("A.sql"), locale: None },
                ActionItem { path: bytes("B.sql"), locale: None },
                ActionItem { path: bytes("C.sql"), locale: Some(bytes("de_DE")) },
            ],
            update_text: vec![],
        }],
    };
    assert_eq!(actual, expected);
}

#[test]
fn parse_mod_requires_an_id() {
    let xml = "<Mod><Properties></Properties></Mod>";
    assert_eq!(Mod::parse(&bytes(xml)), Err(civmods::ModError::MarkupParseError));
}

#[test]
fn parse_i32_exact_values() {
    assert_eq!(parse_i32(&bytes("4")), Some(4));
    assert_eq!(parse_i32(&bytes("-12")), Some(-12));
    assert_eq!(parse_i32(&bytes("2147483647")), Some(2147483647));
    assert_eq!(parse_i32(&bytes("2147483648")), None);
    assert_eq!(parse_i32(&bytes("-2147483648")), Some(-2147483648));
    assert_eq!(parse_i32(&bytes("x1")), None);
    assert_eq!(parse_i32(&bytes("")), None);
}
