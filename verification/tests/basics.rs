use opz::double::{double_standing, integer_standing};
use opz::failure::Failure;
use opz::json;
use opz::json::Json;
use opz::map::StringMap;
use opz::pattern::{
    matches_command_name, matches_config_key, matches_digest, matches_expansion,
    matches_hyphenated, matches_name, matches_upper_name,
};
use opz::seqs::{dedupe_preserve_order, has_text};
use opz::text;

fn texts(values: &[&str]) -> Vec<String> {
    values.iter().map(|value| value.to_string()).collect()
}

#[test]
fn doubles_are_ordered_by_their_bits() {
    let values = [f64::NEG_INFINITY, -2.5, -0.0, 0.0, 1e-300, 1.0, 2.0, f64::INFINITY];
    for left in values {
        for right in values {
            let (a, b) = (
                double_standing(left.to_bits()).unwrap(),
                double_standing(right.to_bits()).unwrap(),
            );
            assert_eq!(a < b, left < right);
            assert_eq!(a == b, left == right);
        }
    }
    assert_eq!(double_standing(f64::NAN.to_bits()), None);
    for n in [0i64, 1, -1, 7, 1 << 53, (1 << 53) + 1, i64::MAX, i64::MIN] {
        assert_eq!(Some(integer_standing(n)), double_standing((n as f64).to_bits()));
    }
}

#[test]
fn json_is_read_and_printed() {
    let value = json::parse(r#" {"b":[1,2.5,null],"a":"x\ny","c":true} "#).unwrap();
    assert_eq!(value.print(), r#"{"a":"x\ny","b":[1,2.5,null],"c":true}"#);
    assert_eq!(value.get("c").unwrap().as_bool(), Some(true));
    assert_eq!(value.get_array("b").unwrap()[0].as_u64(), Some(1));
    assert_eq!(value.get_array("b").unwrap()[0].as_i64(), Some(1));
    assert_eq!(value.get_array("b").unwrap()[1].as_u64(), None);
    assert!(json::parse("{").is_err());
    assert!(json::parse_bytes(b"[1]").is_ok());
    assert!(json::parse_bytes(b"[").is_err());
    assert_eq!(Json::object().with("k", Json::number(3)).print(), r#"{"k":3}"#);
    assert!(Json::object().with("k", Json::text("v")).print_pretty().contains("\n  \"k\": \"v\""));
    assert_eq!(value.as_object().unwrap().len(), 3);
    assert_eq!(json::parse("-5").unwrap().as_i64(), Some(-5));
    assert_eq!(json::parse("-5").unwrap().as_u64(), None);
    assert_eq!(json::clone_items(&[Json::text("a")]).len(), 1);
}

#[test]
fn maps_are_kept_in_order() {
    let mut map: StringMap<u32> = StringMap::new();
    map.insert("b".to_string(), 1);
    map.insert("a".to_string(), 2);
    map.insert("b".to_string(), 3);
    assert_eq!(map.len(), 2);
    assert_eq!(map.key(0), "a");
    assert_eq!(map.get("b"), Some(&3));
    assert!(!map.contains_key("c"));
    assert_eq!(map.find("b"), Some(1));
}

#[test]
fn patterns_of_names() {
    assert!(matches_name("_a1"));
    assert!(!matches_name("1a"));
    assert!(!matches_name("a\n"));
    assert!(!matches_name("é"));
    assert!(matches_hyphenated("a-1"));
    assert!(!matches_hyphenated("a-"));
    assert!(matches_command_name("a.b_c-d"));
    assert!(!matches_command_name(".a"));
    assert!(matches_upper_name("A_1"));
    assert!(!matches_upper_name("a"));
    assert!(matches_config_key("a_1"));
    assert!(!matches_config_key("_a"));
    assert!(matches_digest(&"0af".repeat(22)[..64]));
    assert!(!matches_digest("0af"));
    assert!(matches_expansion("x${y}"));
    assert!(!matches_expansion("${}"));
}

#[test]
fn texts_are_taken_apart() {
    assert_eq!(text::trim("\u{3000} a b \n"), "a b");
    assert_eq!(text::lines("a\r\nb\n\nc"), texts(&["a", "b", "", "c"]));
    assert_eq!(text::split_words("  a \t b"), texts(&["a", "b"]));
    assert_eq!(text::split_once("a=b=c", "="), Some(("a", "b=c")));
    assert_eq!(text::replace("aXbX", "X", "--"), "a--b--");
    assert_eq!(text::replace_once("aXbX", "X", "-"), "a-bX");
    assert_eq!(text::join(&texts(&["a", "b"]), ", "), "a, b");
    assert_eq!(text::to_ascii_lowercase("ÄB"), "Äb");
    assert!(text::same_ignoring_case("Ab", "aB"));
    assert_eq!(text::to_decimal(1203), "1203");
    assert_eq!(text::to_signed_decimal(i64::MIN), i64::MIN.to_string());
    assert_eq!(text::to_hex(255, 4), "00ff");
    assert_eq!(text::parse_number("042", 100), Some(42));
    assert_eq!(text::parse_number("101", 100), None);
    assert_eq!(text::render_lines(&texts(&["a", "b"])), "a\nb\n");
    assert!(text::comes_before("a", "b"));
    assert!(text::comes_before("a", "aa"));
    assert!(!text::comes_before("b", "a"));
    assert_eq!(text::strip_prefix("--x", "--"), Some("x"));
    assert_eq!(text::strip_suffix("x.git", ".git"), Some("x"));
    assert_eq!(text::split_zero(b"a\0b").len(), 2);
}

#[test]
fn lists_without_repetitions() {
    assert_eq!(dedupe_preserve_order(&texts(&["b", "a", "b"])), texts(&["b", "a"]));
    assert!(has_text(&texts(&["a"]), "a"));
    assert!(!has_text(&texts(&["a"]), "b"));
}

#[test]
fn failures_show_the_outermost_message() {
    let failure = Failure::new("inner".to_string()).context("outer".to_string());
    assert_eq!(failure.to_string(), "outer");
    assert!(failure.mentions("inner"));
    assert!(!failure.mentions("other"));
}
