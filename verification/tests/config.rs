use bevy_tag::config::CharClass::{Digit, Dot, Other, Word};
use bevy_tag::config::{classify, find_flaw, validate_path, CharClass, PathFlaw};
use bevy_tag::{OnRemove, TagsConfig, TagsConfigError};

fn parse_error(what: &str) -> TagsConfigError {
    TagsConfigError::Parse(what.to_string())
}

fn text_of(value: &toml::Value, what: &str) -> Result<String, TagsConfigError> {
    match value.as_str() {
        Some(s) => Ok(s.to_string()),
        None => Err(parse_error(what)),
    }
}

/// Reads the parts of a configuration from TOML text and hands them to the
/// library.
fn from_str(content: &str) -> Result<TagsConfig, TagsConfigError> {
    let table: toml::Table = match content.parse() {
        Ok(t) => t,
        Err(e) => {
            let e: toml::de::Error = e;
            return Err(TagsConfigError::Parse(e.to_string()));
        }
    };
    let module_name = match table.get("module_name") {
        Some(v) => Some(text_of(v, "module_name")?),
        None => None,
    };
    let on_remove = match table.get("on_remove") {
        Some(v) => Some(text_of(v, "on_remove")?),
        None => None,
    };
    let tags = table.get("tags").and_then(|t| t.as_table()).ok_or(parse_error("tags"))?;
    let listed = tags.get("paths").and_then(|p| p.as_array()).ok_or(parse_error("paths"))?;
    let mut paths = Vec::new();
    for p in listed {
        paths.push(text_of(p, "paths")?);
    }
    let mut redirects = Vec::new();
    if let Some(r) = table.get("redirects") {
        let r = r.as_table().ok_or(parse_error("redirects"))?;
        for (from, to) in r {
            redirects.push((from.clone(), text_of(to, "redirects")?));
        }
    }
    TagsConfig::from_raw(module_name, on_remove, paths, redirects)
}

fn validation_text(r: Result<TagsConfig, TagsConfigError>) -> String {
    match r {
        Err(TagsConfigError::Validation(text)) => text,
        _ => panic!("expected a validation error"),
    }
}

fn strings(items: &[&str]) -> Vec<String> {
    items.iter().map(|s| s.to_string()).collect()
}

#[test]
fn parse_simple_config() {
    let toml = r#"
[tags]
paths = [
    "Item.Weapon.Sword",
    "Item.Weapon.Axe",
    "Skill.Combat",
]
"#;
    let config = from_str(toml).unwrap();

    assert_eq!(config.module_name, "Tags");
    assert_eq!(config.len(), 6);

    let paths: Vec<_> = config.entries().iter().map(|e| e.path.as_str()).collect();
    assert!(paths.contains(&"Item"));
    assert!(paths.contains(&"Item.Weapon"));
    assert!(paths.contains(&"Item.Weapon.Sword"));
    assert!(paths.contains(&"Item.Weapon.Axe"));
    assert!(paths.contains(&"Skill"));
    assert!(paths.contains(&"Skill.Combat"));
}

#[test]
fn parse_with_module_name() {
    let toml = r#"
module_name = "GameTags"

[tags]
paths = ["A.B"]
"#;
    let config = from_str(toml).unwrap();
    assert_eq!(config.module_name, "GameTags");
}

#[test]
fn expand_creates_parents() {
    let toml = r#"
[tags]
paths = ["A.B.C.D"]
"#;
    let config = from_str(toml).unwrap();

    let entries: Vec<_> = config.entries().iter().collect();
    assert_eq!(entries.len(), 4);

    assert_eq!(entries[0].path, "A");
    assert_eq!(entries[0].depth, 0);
    assert_eq!(entries[0].parent, None);

    assert_eq!(entries[1].path, "A.B");
    assert_eq!(entries[1].depth, 1);
    assert_eq!(entries[1].parent, Some("A".into()));

    assert_eq!(entries[2].path, "A.B.C");
    assert_eq!(entries[2].depth, 2);
    assert_eq!(entries[2].parent, Some("A.B".into()));

    assert_eq!(entries[3].path, "A.B.C.D");
    assert_eq!(entries[3].depth, 3);
    assert_eq!(entries[3].parent, Some("A.B.C".into()));
}

#[test]
fn deduplicates_parents() {
    let toml = r#"
[tags]
paths = ["A.B.C", "A.B.D", "A.X"]
"#;
    let config = from_str(toml).unwrap();

    assert_eq!(config.len(), 5);
}

#[test]
fn rejects_empty_path() {
    let toml = r#"
[tags]
paths = [""]
"#;
    assert!(from_str(toml).is_err());
}

#[test]
fn rejects_invalid_path() {
    let cases = [".A", "A.", "A..B", "A.1B", "A.B-C", "A.B C"];

    for case in cases {
        let toml = format!(
            r#"
[tags]
paths = ["{}"]
"#,
            case
        );
        assert!(from_str(&toml).is_err(), "Should reject: {}", case);
    }
}

#[test]
fn accepts_valid_identifiers() {
    let toml = r#"
[tags]
paths = ["_Private.Item", "CamelCase.snake_case", "With123Numbers"]
"#;
    assert!(from_str(toml).is_ok());
}

#[test]
fn on_remove_defaults_to_error() {
    let toml = r#"
[tags]
paths = ["A"]
"#;
    let config = from_str(toml).unwrap();
    assert_eq!(config.on_remove, OnRemove::Error);
}

#[test]
fn on_remove_explicit_error() {
    let toml = r#"
on_remove = "error"

[tags]
paths = ["A"]
"#;
    let config = from_str(toml).unwrap();
    assert_eq!(config.on_remove, OnRemove::Error);
}

#[test]
fn on_remove_warn() {
    let toml = r#"
on_remove = "warn"

[tags]
paths = ["A"]
"#;
    let config = from_str(toml).unwrap();
    assert_eq!(config.on_remove, OnRemove::Warn);
}

#[test]
fn on_remove_invalid_value() {
    let toml = r#"
on_remove = "invalid"

[tags]
paths = ["A"]
"#;
    let result = from_str(toml);
    assert!(result.is_err());
    let err = result.unwrap_err();
    assert!(err.message().contains("invalid"));
}

#[test]
fn parse_redirects() {
    let toml = r#"
[tags]
paths = ["Equipment.Weapon.Blade", "Equipment.Weapon.Bow"]

[redirects]
"Legacy.OldSword" = "Equipment.Weapon.Blade"
"Legacy.OldBow" = "Equipment.Weapon.Bow"
"#;
    let config = from_str(toml).unwrap();

    let redirects: Vec<_> = config.redirects().iter().collect();
    assert_eq!(redirects.len(), 2);

    assert_eq!(redirects[0].from, "Legacy.OldBow");
    assert_eq!(redirects[0].to, "Equipment.Weapon.Bow");
    assert_eq!(redirects[1].from, "Legacy.OldSword");
    assert_eq!(redirects[1].to, "Equipment.Weapon.Blade");
}

#[test]
fn redirects_target_must_exist() {
    let toml = r#"
[tags]
paths = ["A.B"]

[redirects]
"Old.Path" = "Nonexistent.Target"
"#;
    let result = from_str(toml);
    assert!(result.is_err());
    let err = result.unwrap_err();
    assert!(err.message().contains("not found"));
}

#[test]
fn redirects_validates_paths() {
    let toml = r#"
[tags]
paths = ["A.B"]

[redirects]
".Invalid" = "A.B"
"#;
    let result = from_str(toml);
    assert!(result.is_err());
}

#[test]
fn empty_redirects_allowed() {
    let toml = r#"
[tags]
paths = ["A"]
"#;
    let config = from_str(toml).unwrap();
    assert_eq!(config.redirects().iter().count(), 0);
}

#[test]
fn characters_are_classified() {
    assert_eq!(classify('.'), CharClass::Dot);
    assert_eq!(classify('a'), CharClass::Word);
    assert_eq!(classify('Z'), CharClass::Word);
    assert_eq!(classify('_'), CharClass::Word);
    assert_eq!(classify('ß'), CharClass::Word);
    assert_eq!(classify('7'), CharClass::Digit);
    assert_eq!(classify('٣'), CharClass::Digit);
    assert_eq!(classify('-'), CharClass::Other);
    assert_eq!(classify(' '), CharClass::Other);
}

#[test]
fn flaws_are_found_in_their_order() {
    assert_eq!(find_flaw(&[]), Some(PathFlaw::Empty));
    assert_eq!(find_flaw(&[Dot, Word]), Some(PathFlaw::EdgeDot));
    assert_eq!(find_flaw(&[Word, Dot]), Some(PathFlaw::EdgeDot));
    assert_eq!(find_flaw(&[Dot]), Some(PathFlaw::EdgeDot));
    // Two dots side by side come before a misplaced character further left.
    assert_eq!(find_flaw(&[Digit, Dot, Dot, Word]), Some(PathFlaw::DoubleDot));
    assert_eq!(find_flaw(&[Word, Dot, Digit, Word]), Some(PathFlaw::BadStart { at: 2 }));
    assert_eq!(find_flaw(&[Other]), Some(PathFlaw::BadStart { at: 0 }));
    assert_eq!(find_flaw(&[Word, Digit, Other, Dot, Digit]), Some(PathFlaw::BadChar { at: 2 }));
    assert_eq!(find_flaw(&[Word, Digit, Dot, Word, Word]), None);
    assert_eq!(find_flaw(&[Word]), None);
}

#[test]
fn invalid_paths_are_described() {
    let text = |path: &str| match validate_path(path) {
        Err(TagsConfigError::Validation(text)) => text,
        _ => panic!("expected a validation error"),
    };
    assert_eq!(text(""), "Empty path not allowed");
    assert_eq!(text(".A"), "Invalid path '.A': cannot start or end with '.'");
    assert_eq!(text("A."), "Invalid path 'A.': cannot start or end with '.'");
    assert_eq!(text("A..B"), "Invalid path 'A..B': contains '..'");
    assert_eq!(
        text("A.1B"),
        "Invalid path 'A.1B': segment '1B' must start with letter or underscore"
    );
    assert_eq!(
        text("A.B-C.D"),
        "Invalid path 'A.B-C.D': segment 'B-C' contains invalid character '-'"
    );
    assert_eq!(
        text("Größe.Län ge"),
        "Invalid path 'Größe.Län ge': segment 'Län ge' contains invalid character ' '"
    );
    assert!(validate_path("Größe.Länge_2").is_ok());
}

#[test]
fn errors_say_what_kind_they_are() {
    assert_eq!(TagsConfigError::Io("gone".to_string()).message(), "IO error: gone");
    assert_eq!(TagsConfigError::Parse("bad".to_string()).message(), "Parse error: bad");
    assert_eq!(
        TagsConfigError::Validation("no".to_string()).message(),
        "Validation error: no"
    );
}

#[test]
fn from_raw_checks_mode_then_paths_then_redirects() {
    let r = TagsConfig::from_raw(
        None,
        Some("never".to_string()),
        strings(&["A..B"]),
        vec![(".x".to_string(), "y".to_string())],
    );
    assert_eq!(
        validation_text(r),
        "Invalid on_remove value 'never': expected 'error' or 'warn'"
    );
    let r = TagsConfig::from_raw(
        None,
        Some("warn".to_string()),
        strings(&["A", "A..B", ""]),
        vec![(".x".to_string(), "y".to_string())],
    );
    assert_eq!(validation_text(r), "Invalid path 'A..B': contains '..'");
    let r = TagsConfig::from_raw(
        None,
        None,
        strings(&["A"]),
        vec![("Old".to_string(), "A".to_string()), ("Old2".to_string(), "B-".to_string())],
    );
    assert_eq!(validation_text(r), "Invalid path 'B-': segment 'B-' contains invalid character '-'");
    let r = TagsConfig::from_raw(
        None,
        None,
        strings(&["A"]),
        vec![("Old".to_string(), "B".to_string())],
    );
    assert_eq!(validation_text(r), "Redirect target 'B' not found in [tags].paths");
}

#[test]
fn tags_are_sorted_by_the_bytes_of_their_paths() {
    let config =
        TagsConfig::from_raw(None, None, strings(&["b.a", "a.b", "B", "a_b", "a.b.c"]), vec![])
            .unwrap();
    let paths: Vec<&str> = config.entries().iter().map(|e| e.path.as_str()).collect();
    assert_eq!(paths, vec!["B", "a", "a.b", "a.b.c", "a_b", "b", "b.a"]);
    let depths: Vec<u8> = config.entries().iter().map(|e| e.depth).collect();
    assert_eq!(depths, vec![0, 0, 1, 2, 0, 0, 1]);
    assert!(!config.is_empty());
    let empty = TagsConfig::from_raw(None, None, vec![], vec![]).unwrap();
    assert!(empty.is_empty());
    assert_eq!(empty.len(), 0);
    assert_eq!(OnRemove::default(), OnRemove::Error);
}

#[test]
fn a_target_may_be_an_ancestor_of_a_listed_path() {
    let config = TagsConfig::from_raw(
        Some("M".to_string()),
        Some("error".to_string()),
        strings(&["A.B"]),
        vec![("Z".to_string(), "A".to_string()), ("Y".to_string(), "A.B".to_string())],
    )
    .unwrap();
    let pairs: Vec<(&str, &str)> =
        config.redirects().iter().map(|r| (r.from.as_str(), r.to.as_str())).collect();
    assert_eq!(pairs, vec![("Y", "A.B"), ("Z", "A")]);
    assert_eq!(config.module_name, "M");
}
