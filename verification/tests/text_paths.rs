use hugr::json::{copy_json, Json, JsonNumber};
use hugr::paths::{components_of, file_name_of, join_path, parent_of, paths_equal, starts_with_path, PathComponent};
use hugr::text::{parse_u64, split_whitespace};

fn s(t: &str) -> String {
    t.to_string()
}

fn chars(t: &str) -> Vec<char> {
    t.chars().collect()
}

#[test]
fn joining_paths() {
    assert_eq!(join_path("/a", "b"), "/a/b");
    assert_eq!(join_path("/a/", "b"), "/a/b");
    assert_eq!(join_path("/a", "/b"), "/b");
    assert_eq!(join_path("", "b"), "b");
}

#[test]
fn path_components() {
    assert_eq!(
        components_of("/a/./b/../c/"),
        vec![
            PathComponent::RootDir,
            PathComponent::Normal(s("a")),
            PathComponent::Normal(s("b")),
            PathComponent::ParentDir,
            PathComponent::Normal(s("c")),
        ]
    );
    assert_eq!(components_of("./x"), vec![PathComponent::CurDir, PathComponent::Normal(s("x"))]);
    assert!(starts_with_path("/srv/jail/a", "/srv/jail"));
    assert!(starts_with_path("/srv/jail", "/srv/jail/"));
    assert!(!starts_with_path("/srv/jailbreak", "/srv/jail"));
    assert!(paths_equal("/srv//jail/.", "/srv/jail"));
    assert_eq!(parent_of("/srv/jail/a.txt"), Some(s("/srv/jail")));
    assert_eq!(parent_of("/"), None);
    assert_eq!(file_name_of("/srv/jail/a.txt"), Some(s("a.txt")));
    assert_eq!(file_name_of("/srv/.."), None);
}

#[test]
fn parsing_unsigned_integers() {
    assert_eq!(parse_u64(&chars("42")), Some(42));
    assert_eq!(parse_u64(&chars("+7")), Some(7));
    assert_eq!(parse_u64(&chars("18446744073709551615")), Some(u64::MAX));
    assert_eq!(parse_u64(&chars("18446744073709551616")), None);
    assert_eq!(parse_u64(&chars("")), None);
    assert_eq!(parse_u64(&chars("-1")), None);
    assert_eq!(parse_u64(&chars("1 ")), None);
}

#[test]
fn splitting_on_unicode_whitespace() {
    let parts = split_whitespace(&chars(" a\u{3000}b\t c "));
    assert_eq!(parts, vec![chars("a"), chars("b"), chars("c")]);
}

#[test]
fn copies_are_equal_values() {
    let v = Json::Object(vec![
        (s("a"), Json::Array(vec![Json::Null, Json::Number(JsonNumber::NegInt(-2))])),
        (s("b"), Json::Number(JsonNumber::Float(s("1.5")))),
    ]);
    assert_eq!(copy_json(&v), v);
}
