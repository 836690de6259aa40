use chicken::settings::attribute::{parse_settings_attribute, AttrToken, AttributeError, AttributeText};

fn s(x: &str) -> AttrToken {
    AttrToken::Str(x.to_string())
}

fn id(x: &str) -> AttrToken {
    AttrToken::Ident(x.to_string())
}

fn p(c: char) -> AttrToken {
    AttrToken::Punct(c)
}

fn settings(args: Vec<AttrToken>) -> AttributeText {
    AttributeText { name: "settings".to_string(), args: Some(args) }
}

fn parsed(args: Vec<AttrToken>) -> Result<(String, Option<String>), AttributeError> {
    parse_settings_attribute(&[settings(args)]).map(|a| {
        let a = a.unwrap();
        (a.path, a.context)
    })
}

#[test]
fn key_value_form_in_either_order() {
    assert_eq!(
        parsed(vec![id("path"), p('='), s("settings/audio.toml")]),
        Ok(("settings/audio.toml".to_string(), None))
    );
    assert_eq!(
        parsed(vec![id("context"), p('='), id("SaveContext"), p(','), id("path"), p('='), s("saves/{slot_id}/game.toml"), p(',')]),
        Ok(("saves/{slot_id}/game.toml".to_string(), Some("SaveContext".to_string())))
    );
    assert_eq!(
        parsed(vec![id("path"), p('='), s("a.toml"), p(','), id("context"), p('='), id("crate"), p(':'), p(':'), id("Ctx")]),
        Ok(("a.toml".to_string(), Some("crate::Ctx".to_string())))
    );
}

#[test]
fn legacy_string_literal_form() {
    assert_eq!(parsed(vec![s("settings/audio.toml")]), Ok(("settings/audio.toml".to_string(), None)));
    assert_eq!(
        parsed(vec![s("a.toml"), p(','), id("context"), p('='), id("Ctx")]),
        Ok(("a.toml".to_string(), Some("Ctx".to_string())))
    );
    assert_eq!(parsed(vec![s("a.toml"), s("b.toml")]), Err(AttributeError::InvalidSyntax));
}

#[test]
fn bare_unknown_keys_are_passed_over() {
    assert_eq!(
        parsed(vec![id("foo"), p(','), id("path"), p('='), s("x.toml")]),
        Ok(("x.toml".to_string(), None))
    );
    assert_eq!(
        parsed(vec![id("foo"), p('='), AttrToken::Other, p(','), id("path"), p('='), s("x.toml")]),
        Err(AttributeError::InvalidSyntax)
    );
}

#[test]
fn a_path_is_required() {
    assert_eq!(parsed(vec![id("context"), p('='), id("Ctx")]), Err(AttributeError::InvalidLegacySyntax));
    assert_eq!(parsed(vec![]), Err(AttributeError::InvalidLegacySyntax));
    assert_eq!(parsed(vec![id("foo")]), Err(AttributeError::MissingPath));
    let no_parens = AttributeText { name: "settings".to_string(), args: None };
    assert!(matches!(parse_settings_attribute(&[no_parens]), Err(AttributeError::InvalidSyntax)));
}

#[test]
fn the_first_settings_attribute_wins() {
    let other = AttributeText { name: "derive".to_string(), args: Some(vec![id("Clone")]) };
    assert!(matches!(parse_settings_attribute(&[other]), Ok(None)));
    let first = settings(vec![s("one.toml")]);
    let second = settings(vec![s("two.toml")]);
    let r = parse_settings_attribute(&[first, second]).unwrap().unwrap();
    assert_eq!(r.path, "one.toml");
}
