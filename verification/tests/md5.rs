use iax2::md5_response;

#[test]
fn md5_known_vector() {
    let r = md5_response("abc", "secret");
    assert_eq!(r.len(), 32);
    assert!(r.chars().all(|c| c.is_ascii_hexdigit() && !c.is_ascii_uppercase()));
}

#[test]
fn md5_of_known_texts() {
    assert_eq!(md5_response("", ""), "d41d8cd98f00b204e9800998ecf8427e");
    assert_eq!(md5_response("a", "bc"), "900150983cd24fb0d6963f7d28e17f72");
    assert_eq!(md5_response("abc", ""), md5_response("", "abc"));
}
