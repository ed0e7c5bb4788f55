use profile_resolver::codec::{parse_document, render_document};
use profile_resolver::finalize::build_final;
use profile_resolver::json::Json;
use profile_resolver::listing::{list_user_filament_profiles, text_less};
use profile_resolver::locate::{find_profile_file, profile_file_name, profile_path};
use profile_resolver::merge::deep_merge;
use profile_resolver::profile::{build_filament_profile, build_profile};
use profile_resolver::resolve::{resolve_chain, ProfileError};

fn doc(text: &str) -> Json {
    parse_document(&"test".to_string(), &text.to_string()).unwrap()
}

fn store(entries: &[(&str, &str)]) -> Vec<(String, Json)> {
    entries.iter().map(|(k, t)| (k.to_string(), doc(t))).collect()
}

fn canonical(j: &Json) -> String {
    render_document(j).unwrap()
}

fn str_field(j: &Json, key: &str) -> Option<String> {
    j.get_str(&key.to_string())
}

#[test]
fn example_child_inherits_base() {
    let s = store(&[
        ("base", r#"{"name":"Base","bed_temp":60}"#),
        ("child", r#"{"name":"Child","inherits":"base","bed_temp":65,"density":1.24}"#),
    ]);
    let built = build_profile(&"child".to_string(), &s).unwrap();
    let expected = doc(
        r#"{"name":"Child","from":"User","instantiation":"true","type":"filament","bed_temp":65,"density":1.24}"#,
    );
    assert_eq!(canonical(&built), canonical(&expected));
    let text = build_filament_profile(&"child".to_string(), &s).unwrap();
    assert_eq!(text, canonical(&expected));
}

#[test]
fn profile_without_parent_gets_stamps_only() {
    let s = store(&[("pla", r#"{"name":"PLA","nozzle":[1,2],"extra":{"a":1}}"#)]);
    let built = build_profile(&"pla".to_string(), &s).unwrap();
    let expected = doc(
        r#"{"name":"PLA","nozzle":[1,2],"extra":{"a":1},"from":"User","instantiation":"true","type":"filament"}"#,
    );
    assert_eq!(canonical(&built), canonical(&expected));
}

#[test]
fn name_falls_back_to_lookup_key() {
    let s = store(&[("plain", r#"{"speed":3}"#)]);
    let built = build_profile(&"plain".to_string(), &s).unwrap();
    assert_eq!(str_field(&built, "name"), Some("plain".to_string()));
}

#[test]
fn leaf_from_and_type_are_kept() {
    let s = store(&[
        ("root", r#"{"type":"process","from":"System"}"#),
        ("leaf", r#"{"inherits":"root","from":"Vendor"}"#),
    ]);
    let built = build_profile(&"leaf".to_string(), &s).unwrap();
    assert_eq!(str_field(&built, "from"), Some("Vendor".to_string()));
    assert_eq!(str_field(&built, "type"), Some("process".to_string()));
    assert_eq!(str_field(&built, "instantiation"), Some("true".to_string()));
    assert_eq!(str_field(&built, "inherits"), None);
}

#[test]
fn three_level_chain_overrides_in_order() {
    let s = store(&[
        ("a", r#"{"name":"A","inherits":"b","x":1}"#),
        ("b", r#"{"name":"B","inherits":"c","x":2,"y":2}"#),
        ("c", r#"{"name":"C","x":3,"y":3,"z":3,"nested":{"p":1,"q":1}}"#),
    ]);
    let chain = resolve_chain(&"a".to_string(), &s).unwrap();
    let names: Vec<String> = chain.iter().map(|(n, _)| n.clone()).collect();
    assert_eq!(names, vec!["C".to_string(), "B".to_string(), "A".to_string()]);
    let built = build_profile(&"a".to_string(), &s).unwrap();
    let expected = doc(
        r#"{"name":"A","x":1,"y":2,"z":3,"nested":{"p":1,"q":1},"from":"User","instantiation":"true","type":"filament"}"#,
    );
    assert_eq!(canonical(&built), canonical(&expected));
}

#[test]
fn mutual_inheritance_is_a_cycle() {
    let s = store(&[
        ("x", r#"{"inherits":"y"}"#),
        ("y", r#"{"inherits":"x"}"#),
    ]);
    assert_eq!(
        resolve_chain(&"x".to_string(), &s),
        Err(ProfileError::CycleDetected("x".to_string()))
    );
}

#[test]
fn self_inheritance_is_a_cycle() {
    let s = store(&[("me", r#"{"inherits":"me"}"#)]);
    assert_eq!(
        build_profile(&"me".to_string(), &s),
        Err(ProfileError::CycleDetected("me".to_string()))
    );
}

#[test]
fn missing_parent_is_not_found() {
    let s = store(&[("child", r#"{"inherits":"ghost"}"#)]);
    assert_eq!(
        build_filament_profile(&"child".to_string(), &s),
        Err(ProfileError::NotFound("ghost".to_string()))
    );
}

#[test]
fn missing_start_is_not_found() {
    let s = store(&[]);
    assert_eq!(
        resolve_chain(&"nothing".to_string(), &s),
        Err(ProfileError::NotFound("nothing".to_string()))
    );
}

#[test]
fn merge_with_empty_second_keeps_first() {
    let mut a = doc(r#"{"a":1,"b":{"c":[1,2]}}"#);
    let before = canonical(&a);
    deep_merge(&mut a, &doc("{}"));
    assert_eq!(canonical(&a), before);
}

#[test]
fn merge_into_empty_copies_second() {
    let mut a = doc("{}");
    let b = doc(r#"{"a":1,"b":{"c":[1,2]}}"#);
    deep_merge(&mut a, &b);
    assert_eq!(a, b);
}

#[test]
fn merge_nested_objects_and_replace_arrays() {
    let mut a = doc(r#"{"o":{"p":1,"q":2},"arr":[1,2,3],"s":"x"}"#);
    let b = doc(r#"{"o":{"q":5,"r":6},"arr":[9],"s":{"now":"object"}}"#);
    deep_merge(&mut a, &b);
    let expected = doc(r#"{"o":{"p":1,"q":5,"r":6},"arr":[9],"s":{"now":"object"}}"#);
    assert_eq!(canonical(&a), canonical(&expected));
}

#[test]
fn merge_non_object_is_replaced() {
    let mut a = doc("[1,2]");
    deep_merge(&mut a, &doc(r#"{"k":true}"#));
    assert_eq!(canonical(&a), canonical(&doc(r#"{"k":true}"#)));
}

#[test]
fn build_final_of_empty_chain() {
    let built = build_final(&Vec::new(), &"start".to_string());
    let expected = doc(r#"{"name":"start","from":"User","instantiation":"true","type":"filament"}"#);
    assert_eq!(canonical(&built), canonical(&expected));
}

#[test]
fn parse_error_names_the_path() {
    let r = parse_document(&"/p/bad.json".to_string(), &"{not json".to_string());
    match r {
        Err(ProfileError::Parse { path, .. }) => assert_eq!(path, "/p/bad.json"),
        other => panic!("unexpected {:?}", other),
    }
}

#[test]
fn parse_reads_values() {
    let d = doc(r#"{"n":1.5,"s":"t","b":false,"z":null,"a":[1]}"#);
    let expected = Json::Object(vec![
        ("a".to_string(), Json::Array(vec![Json::Number("1".to_string())])),
        ("b".to_string(), Json::Bool(false)),
        ("n".to_string(), Json::Number("1.5".to_string())),
        ("s".to_string(), Json::Str("t".to_string())),
        ("z".to_string(), Json::Null),
    ]);
    assert_eq!(d, expected);
}

#[test]
fn render_writes_indented_text() {
    let d = Json::Object(vec![("k".to_string(), Json::Number("2".to_string()))]);
    assert_eq!(render_document(&d).unwrap(), "{\n  \"k\": 2\n}");
}

#[test]
fn build_text_of_resolved_profile() {
    let s = store(&[("p", r#"{"v":1}"#)]);
    assert_eq!(
        build_filament_profile(&"p".to_string(), &s).unwrap(),
        "{\n  \"from\": \"User\",\n  \"instantiation\": \"true\",\n  \"name\": \"p\",\n  \"type\": \"filament\",\n  \"v\": 1\n}"
    );
}

#[test]
fn render_rejects_bad_number_text() {
    assert!(render_document(&Json::Number("abc".to_string())).is_err());
}

#[test]
fn bad_number_in_profile_is_encode_error() {
    let s = vec![(
        "p".to_string(),
        Json::Object(vec![("v".to_string(), Json::Number("x".to_string()))]),
    )];
    assert!(matches!(
        build_filament_profile(&"p".to_string(), &s),
        Err(ProfileError::Encode(_))
    ));
}

#[test]
fn listing_empty_directory_is_empty() {
    assert_eq!(list_user_filament_profiles(&Vec::new()), Vec::<String>::new());
}

#[test]
fn listing_is_sorted_and_distinct() {
    let files = vec![
        ("zeta".to_string(), Some(doc(r#"{"name":"Zeta PLA"}"#))),
        ("b".to_string(), None),
        ("dup".to_string(), Some(doc(r#"{"name":"Zeta PLA"}"#))),
        ("abs".to_string(), Some(doc(r#"{"other":1}"#))),
        ("B".to_string(), None),
    ];
    assert_eq!(
        list_user_filament_profiles(&files),
        vec!["Zeta PLA".to_string(), "abs".to_string()]
    );
}

#[test]
fn listing_skips_unreadable_files() {
    let files = vec![("bad".to_string(), None)];
    assert_eq!(list_user_filament_profiles(&files), Vec::<String>::new());
}

#[test]
fn listing_orders_by_code_point() {
    let files = vec![
        ("b".to_string(), Some(doc("{}"))),
        ("B".to_string(), Some(doc("{}"))),
        ("a".to_string(), Some(doc(r#"{"name":"Zed"}"#))),
    ];
    assert_eq!(
        list_user_filament_profiles(&files),
        vec!["B".to_string(), "Zed".to_string(), "b".to_string()]
    );
}

#[test]
fn text_order_is_by_code_point() {
    assert!(text_less(&"ab".to_string(), &"b".to_string()));
    assert!(text_less(&"a".to_string(), &"ab".to_string()));
    assert!(!text_less(&"ab".to_string(), &"ab".to_string()));
    assert!(text_less(&"Z".to_string(), &"a".to_string()));
}

#[test]
fn file_name_gets_extension_once() {
    assert_eq!(profile_file_name(&"base".to_string()), "base.json");
    assert_eq!(profile_file_name(&"base.json".to_string()), "base.json");
    assert_eq!(profile_file_name(&"json".to_string()), "json.json");
    assert_eq!(profile_path(&"/u/filament".to_string(), &"pla".to_string()), "/u/filament/pla.json");
}

#[test]
fn user_directories_come_before_system() {
    let dirs = vec!["/u1".to_string(), "/u2".to_string(), "/u3".to_string()];
    let sys = Some("/sys/base/pla.json".to_string());
    assert_eq!(
        find_profile_file(&"pla".to_string(), &dirs, &vec![false, true, true], sys.clone()),
        Some("/u2/pla.json".to_string())
    );
    assert_eq!(
        find_profile_file(&"pla".to_string(), &dirs, &vec![false, false, false], sys.clone()),
        sys
    );
    assert_eq!(find_profile_file(&"pla".to_string(), &dirs, &vec![false; 3], None), None);
}
