use replicate::text::{get_string, PromptTemplate, Relationship};

#[test]
fn get_string_joins_with_separator() {
    let v = vec!["brave".to_string(), "kind".to_string()];
    assert_eq!(get_string(&v), "brave, kind, ");
    assert_eq!(get_string(&Vec::new()), "");
}

#[test]
fn template_fills_slots() {
    let t = PromptTemplate::parse("Hello {1}, I am {0}.").unwrap();
    let out = t.format(vec!["Ada".to_string(), "Bob".to_string()]);
    assert_eq!(out, "Hello Bob, I am Ada.");
}

#[test]
fn template_without_slots() {
    let t = PromptTemplate::parse("plain text").unwrap();
    assert_eq!(t.format(Vec::new()), "plain text");
    let t = PromptTemplate::parse("").unwrap();
    assert_eq!(t.format(Vec::new()), "");
}

#[test]
fn template_multi_digit_slot() {
    let args: Vec<String> = (0..12).map(|i| format!("a{}", i)).collect();
    let t = PromptTemplate::parse("<{11}>").unwrap();
    assert_eq!(t.format(args), "<a11>");
}

#[test]
fn template_rejects_bad_slot() {
    assert!(PromptTemplate::parse("x {y} z").is_none());
    assert!(PromptTemplate::parse("x {} z").is_none());
}

#[test]
fn relationship_text() {
    assert_eq!(Relationship::SignificantOther.to_text(), "Significant Other");
    assert_eq!(Relationship::InLaw.to_text(), "In Law");
    assert_eq!(Relationship::Friend.to_text(), "Friend");
}

#[test]
fn template_slot_with_plus_sign() {
    let t = PromptTemplate::parse("[{+1}]").unwrap();
    assert_eq!(t.format(vec!["a".to_string(), "b".to_string()]), "[b]");
    assert!(PromptTemplate::parse("[{-1}]").is_none());
    assert!(PromptTemplate::parse("[{99999999999999999999999}]").is_none());
}
