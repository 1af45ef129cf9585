use bored_browser::headers::Headers;

#[test]
fn new_mapping_is_empty() {
    let headers = Headers::new();
    assert_eq!(headers.len(), 0);
    assert_eq!(headers.get("Host"), None);
    assert!(!headers.contains_key("Host"));
    assert_eq!(headers.serialize(), "");
}

#[test]
fn fields_are_found_by_name() {
    let mut headers = Headers::new();
    headers.insert(String::from("Host"), String::from("h"));
    headers.insert(String::from("Accept"), String::from("*/*"));
    assert_eq!(headers.len(), 2);
    assert_eq!(headers.get("Host"), Some(&String::from("h")));
    assert_eq!(headers.get("host"), Some(&String::from("h")));
    assert_eq!(headers.get("ACCEPT"), Some(&String::from("*/*")));
    assert_eq!(headers.get("Hos"), None);
    assert!(headers.contains_key("accept"));
    assert!(!headers.contains_key("Accept-Encoding"));
}

#[test]
fn a_later_field_overwrites_an_earlier_one() {
    let mut headers = Headers::new();
    headers.insert(String::from("A"), String::from("1"));
    headers.insert(String::from("B"), String::from("2"));
    headers.insert(String::from("a"), String::from("3"));
    assert_eq!(headers.len(), 2);
    assert_eq!(headers.get("A"), Some(&String::from("3")));
    assert_eq!(headers.field(0).name, "a");
    assert_eq!(headers.field(0).value, "3");
    assert_eq!(headers.field(1).name, "B");
    assert_eq!(headers.serialize(), "a: 3\r\nB: 2\r\n");
}

#[test]
fn fields_are_written_in_order() {
    let mut headers = Headers::new();
    headers.insert(String::from("X-One"), String::from("1"));
    headers.insert(String::from("X-Two"), String::from(""));
    headers.insert(String::from(""), String::from("nameless"));
    assert_eq!(headers.serialize(), "X-One: 1\r\nX-Two: \r\n: nameless\r\n");
    let copy = headers.duplicate();
    assert_eq!(copy.serialize(), headers.serialize());
    assert_eq!(copy.len(), 3);
}
