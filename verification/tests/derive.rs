// The Document contract is open to new kinds: any type that supplies its own
// validation logic over a raw string plugs into the same three operations.
// This wrapper accepts exactly the five-character inputs.

use document_validator::Document;

pub struct MyDocument(Box<str>);

fn my_validation_logic(document: &str) -> bool {
    document.len() == 5
}

impl Document for MyDocument {
    fn new(document: &str) -> Option<Self> {
        if Self::validate(document) {
            Some(Self(document.into()))
        } else {
            None
        }
    }

    fn validate(document: &str) -> bool {
        my_validation_logic(document)
    }

    fn as_str(&self) -> &str {
        &self.0
    }
}

#[test]
fn validation() {
    assert!(MyDocument::validate("12345"));
    assert!(!MyDocument::validate(""));
}

#[test]
fn construction() {
    assert!(MyDocument::new("12345").is_some());
    assert!(MyDocument::new("").is_none());
}

#[test]
fn as_str() {
    let document = MyDocument::new("12345").unwrap();
    assert_eq!(document.as_str(), "12345")
}

#[test]
fn trait_must_be_object_safe() {
    let document: Box<dyn Document> = Box::new(MyDocument::new("12345").unwrap());
    assert_eq!(document.as_str(), "12345");
}
