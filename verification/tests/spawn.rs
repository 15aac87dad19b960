use qwasm2::spawn::{
    parse_entity_string, parse_quoted_string, pick_spawn, skip_whitespace, EntityDict, SpawnCandidate,
};

fn val<'a>(e: &'a EntityDict, k: &str) -> &'a str {
    e.get(k).unwrap().as_str()
}

#[test]
fn parse_entity_string_basic() {
    let input = r#"
{
"classname" "info_player_start"
"origin" "0 0 0"
"angle" "90"
}
"#;
    let entities = parse_entity_string(input);
    assert_eq!(entities.len(), 1);
    assert_eq!(val(&entities[0], "classname"), "info_player_start");
    assert_eq!(val(&entities[0], "origin"), "0 0 0");
    assert_eq!(val(&entities[0], "angle"), "90");
}

#[test]
fn parse_entity_string_multiple() {
    let input = r#"
{
"classname" "worldspawn"
"message" "Test Map"
}
{
"classname" "info_player_start"
"origin" "128 64 0"
}
{
"classname" "light"
"origin" "256 256 128"
"_color" "1 1 1"
}
"#;
    let entities = parse_entity_string(input);
    assert_eq!(entities.len(), 3);
    assert_eq!(val(&entities[0], "classname"), "worldspawn");
    assert_eq!(val(&entities[0], "message"), "Test Map");
    assert_eq!(val(&entities[1], "classname"), "info_player_start");
    assert_eq!(val(&entities[1], "origin"), "128 64 0");
    assert_eq!(val(&entities[2], "classname"), "light");
    assert!(!entities[2].contains_key("_color"));
}

#[test]
fn parse_entity_string_empty() {
    let entities = parse_entity_string("");
    assert!(entities.is_empty());
}

#[test]
fn parse_entity_string_backslash_n() {
    let input = r#"
{
"classname" "worldspawn"
"message" "line1\nline2"
}
"#;
    let entities = parse_entity_string(input);
    assert_eq!(val(&entities[0], "message"), "line1\nline2");
}

#[test]
fn later_key_overwrites_earlier() {
    let entities = parse_entity_string("{ \"a\" \"1\" \"a\" \"2\" }");
    assert_eq!(entities.len(), 1);
    assert_eq!(entities[0].len(), 1);
    assert_eq!(val(&entities[0], "a"), "2");
}

#[test]
fn skip_and_quote_helpers() {
    let s: Vec<char> = "  \"ab\\nc\" x".chars().collect();
    let i = skip_whitespace(&s, 0);
    assert_eq!(i, 2);
    let (text, next) = parse_quoted_string(&s, i);
    assert_eq!(text, "ab\nc");
    assert_eq!(next, 9);
}

#[test]
fn entity_dict_insert_get() {
    let mut d = EntityDict::new();
    assert_eq!(d.len(), 0);
    d.insert("k".to_string(), "v".to_string());
    d.insert("k".to_string(), "w".to_string());
    assert_eq!(d.len(), 1);
    assert_eq!(d.get("k").map(|s| s.as_str()), Some("w"));
    assert!(d.get("missing").is_none());
}

fn cand(classname: &str, targetname: &str) -> SpawnCandidate {
    SpawnCandidate { classname: classname.to_string(), targetname: targetname.to_string() }
}

#[test]
fn pick_spawn_prefers_unnamed() {
    let c = vec![cand("info_player_start", "transition_spawn"), cand("info_player_start", "")];
    assert_eq!(pick_spawn(&c), Some(1));
}

#[test]
fn pick_spawn_falls_back_to_named() {
    let c = vec![cand("info_player_start", "transition_spawn")];
    assert_eq!(pick_spawn(&c), Some(0));
}

#[test]
fn pick_spawn_priority_order() {
    let c = vec![cand("info_player_deathmatch", ""), cand("info_player_start", "")];
    assert_eq!(pick_spawn(&c), Some(1));
    let d = vec![cand("misc_teleporter_dest", ""), cand("info_player_coop", "x")];
    assert_eq!(pick_spawn(&d), Some(1));
}

#[test]
fn pick_spawn_falls_back_to_first_and_none_when_empty() {
    let c = vec![cand("light", ""), cand("worldspawn", "")];
    assert_eq!(pick_spawn(&c), Some(0));
    assert_eq!(pick_spawn(&[]), None);
}
