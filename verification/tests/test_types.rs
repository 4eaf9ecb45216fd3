use edit_xml::{is_xlmns, StandaloneValue};

#[test]
fn test_standalone_value() {
    let yes = StandaloneValue::Yes;
    let no = StandaloneValue::No;
    assert_eq!(yes.as_str(), "yes");
    assert_eq!(no.as_str(), "no");
    assert_eq!(yes.as_bytes(), b"yes");
    assert_eq!(no.as_bytes(), b"no");
    assert!(yes.is_standalone());
    assert!(!no.is_standalone());
    let yes_str = "yes";
    let no_str = "no";
    assert_eq!(StandaloneValue::try_from(yes_str).unwrap(), StandaloneValue::Yes);
    assert_eq!(StandaloneValue::try_from(no_str).unwrap(), StandaloneValue::No);
}

#[test]
fn test_is_xmlns() {
    assert!(is_xlmns(b"xmlns"));
    assert!(is_xlmns(b"xmlns:"));
    assert!(!is_xlmns(b"xmln"));
    assert!(!is_xlmns(b"xml"));
}

#[test]
fn test_standalone_rejects_other_values() {
    assert!(StandaloneValue::try_from("maybe").is_err());
    assert!(StandaloneValue::try_from("").is_err());
    assert!(StandaloneValue::try_from("yess").is_err());
}

#[test]
fn test_standalone_is_case_insensitive() {
    assert_eq!(StandaloneValue::try_from("YES").unwrap(), StandaloneValue::Yes);
    assert_eq!(StandaloneValue::try_from("Yes").unwrap(), StandaloneValue::Yes);
    assert_eq!(StandaloneValue::try_from("nO").unwrap(), StandaloneValue::No);
}
