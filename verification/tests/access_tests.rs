use ai_chat_gateway::access::{
    check_access, contains_code, parse_access_list, verify_access_code, VerifyAccessCodeRequest,
};

#[test]
fn access_list_is_split_trimmed_and_filtered() {
    assert_eq!(parse_access_list("A1, B2"), vec!["A1", "B2"]);
    assert_eq!(parse_access_list(" a , ,b,, c "), vec!["a", "b", "c"]);
    assert_eq!(parse_access_list(""), Vec::<String>::new());
    assert_eq!(parse_access_list(" , ,"), Vec::<String>::new());
    assert_eq!(parse_access_list("only"), vec!["only"]);
}

#[test]
fn gate_admits_listed_code_and_rejects_others() {
    let list = "A1, B2".to_string();
    let good = "B2".to_string();
    let bad = "x".to_string();
    assert!(check_access(Some(&list), Some(&good)).is_ok());
    let err = check_access(Some(&list), Some(&bad)).unwrap_err();
    assert_eq!(err, "Invalid or missing access code");
    let err2 = check_access(Some(&list), None).unwrap_err();
    assert_eq!(err2, "Invalid or missing access code");
}

#[test]
fn gate_is_open_without_a_configured_list() {
    assert!(check_access(None, None).is_ok());
    let empty = "  ,  ".to_string();
    assert!(check_access(Some(&empty), None).is_ok());
}

#[test]
fn membership_is_exact() {
    let codes = parse_access_list("A1, B2");
    assert!(contains_code(&codes, "A1"));
    assert!(contains_code(&codes, "B2"));
    assert!(!contains_code(&codes, "b2"));
    assert!(!contains_code(&codes, ""));
}

#[test]
fn verify_access_code_reports_each_case() {
    let list = "alpha, beta".to_string();
    let req = VerifyAccessCodeRequest { access_code: "alpha".to_string() };
    let r = verify_access_code(req.access_code, Some(&list)).unwrap();
    assert!(r.valid);
    assert_eq!(r.message, "Access code is valid");

    let r2 = verify_access_code("gamma".to_string(), Some(&list)).unwrap();
    assert!(!r2.valid);
    assert_eq!(r2.message, "Invalid access code");

    let r3 = verify_access_code("".to_string(), Some(&list)).unwrap();
    assert!(!r3.valid);
    assert_eq!(r3.message, "Access code is required");

    let r4 = verify_access_code("anything".to_string(), None).unwrap();
    assert!(r4.valid);
    assert_eq!(r4.message, "No access code required");
}
