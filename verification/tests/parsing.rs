use mpc_core::client::{split_lines, SecretUtils};

#[test]
fn test_parse_result() {
    let test_input = "[052deaa9-b4d7-440d-a44d-e0241cef21ff]\ngameID -> c3f5c561-2790-48fc-a490-63989272a2a\ncreation-date -> 2024/10/30";
    let parsed = SecretUtils::parse_secret(test_input.to_string());
    assert_eq!(parsed.result, "052deaa9-b4d7-440d-a44d-e0241cef21ff");
}

#[test]
fn cs_client_test_parse_result() {
    let test_input = "[052deaa9-b4d7-440d-a44d-e0241cef21ff]\ngameID -> c3f5c561-2790-48fc-a490-63989272a2a\ncreation-date -> 2024/10/30";
    let parsed = SecretUtils::parse_secret(test_input.to_string());
    assert_eq!(parsed.result, "052deaa9-b4d7-440d-a44d-e0241cef21ff");
}

#[test]
fn test_split_lines() {
    assert_eq!(split_lines("data\n22"), vec!["data".to_string(), "22".to_string()]);
    assert_eq!(split_lines(""), vec!["".to_string()]);
    assert_eq!(
        split_lines("a\n\nb\n"),
        vec!["a".to_string(), "".to_string(), "b".to_string(), "".to_string()]
    );
}

#[test]
fn test_parse_single_line() {
    let parsed = SecretUtils::parse_secret("plain".to_string());
    assert_eq!(parsed.result, "plain");
    let empty = SecretUtils::parse_secret("".to_string());
    assert_eq!(empty.result, "");
    let brackets = SecretUtils::parse_secret("[[a]b]".to_string());
    assert_eq!(brackets.result, "ab");
}
