use bottle_time_processor::filter::{ContainsFilter, FunctionFilter, MessageFilter, RegexFilter};
use bottle_time_processor::manager::{CallbackError, Filter, MqttClientManager};
use bottle_time_processor::mult;

type Manager = MqttClientManager<fn(&str) -> bool, fn(String) -> Result<(), CallbackError>>;
type ClosureCallback = fn(String) -> Result<(), CallbackError>;

#[test]
fn test_mult() {
    assert_eq!(mult(3, 2), 6);
}

#[test]
fn test_contains_filter() {
    let filter = ContainsFilter("test".to_string());
    assert!(filter.matches("this is a test message"));
    assert!(!filter.matches("this is a message"));
}

#[test]
fn test_regex_filter() {
    let filter = RegexFilter::new(r"test\d+").unwrap();
    assert!(filter.matches("this is test123 message"));
    assert!(filter.matches("test456"));
    assert!(!filter.matches("test message"));
    assert!(!filter.matches("testing"));
}

#[test]
fn test_function_filter() {
    let filter = FunctionFilter(Box::new(|msg: &str| msg.len() > 10));
    assert!(filter.matches("long message"));
    assert!(!filter.matches("short"));
}

#[test]
fn test_filter_creation_methods() {
    // Test contains filter creation
    let contains = Manager::contains_filter("test");
    assert!(contains.matches("this is a test"));

    // Test regex filter creation
    let regex = Manager::regex_filter(r"test\d+").unwrap();
    assert!(regex.matches("test123"));

    // Test function filter creation
    let func = MqttClientManager::<_, ClosureCallback>::function_filter(|msg: &str| msg.contains("test"));
    assert!(func.matches("this is a test"));
}

#[test]
fn test_invalid_regex_filter() {
    let result = Manager::regex_filter("[invalid");
    assert!(result.is_err());
}

#[test]
fn contains_filter_edge_cases() {
    let empty = ContainsFilter(String::new());
    assert!(empty.matches(""));
    assert!(empty.matches("anything"));
    let needle = ContainsFilter("ERROR".to_string());
    assert!(!needle.matches(""));
    assert!(!needle.matches("ERRO"));
    assert!(needle.matches("ERROR"));
    assert!(needle.matches("xxERROR"));
    assert!(!needle.matches("error"));
    let unicode = ContainsFilter("ü".to_string());
    assert!(unicode.matches("Grüße"));
    assert!(!unicode.matches("Gruesse"));
}

#[test]
fn contains_filter_agrees_with_str_contains() {
    let payloads = ["", "a", "ab", "abc", "bca", "aaa", "cab", "ééa"];
    let needles = ["", "a", "ab", "bc", "aa", "abc", "abcd", "éa"];
    for p in payloads.iter() {
        for n in needles.iter() {
            let f = ContainsFilter(n.to_string());
            assert_eq!(f.matches(p), p.contains(n));
        }
    }
}

#[test]
fn invalid_patterns_fail_without_panic() {
    for p in ["[invalid", "(unclosed", "a{2,1}", "*"].iter() {
        assert!(RegexFilter::new(p).is_err());
    }
    let ok = RegexFilter::new("^a+$").unwrap();
    assert_eq!(ok.pattern(), "^a+$");
    assert!(ok.matches("aaa"));
    assert!(!ok.matches("aab"));
}

#[test]
fn filter_enum_dispatches_to_variant() {
    let f: Filter<fn(&str) -> bool> = Filter::Contains(ContainsFilter("x".to_string()));
    assert!(f.matches("axb"));
    assert!(!f.matches("ab"));
    fn short(s: &str) -> bool {
        s.len() < 3
    }
    let g: Filter<fn(&str) -> bool> = Manager::function_filter(short);
    assert!(g.matches("ab"));
    assert!(!g.matches("abcd"));
}
