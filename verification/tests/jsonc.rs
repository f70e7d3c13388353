use aur_pkgbuilder::config::{jsonc_json_bytes, JsoncError};

#[test]
fn jsonc_comments_become_spaces() {
    let input = "{ // note\n  \"a\": /* x */ 1, # shell\n  \"b\": \"// kept\"\n}";
    let out = jsonc_json_bytes(input.as_bytes()).expect("valid");
    let text = String::from_utf8(out).unwrap();
    assert_eq!(text, "{        \n  \"a\":         1,        \n  \"b\": \"// kept\"\n}");
    assert_eq!(text.len(), input.len());
}

#[test]
fn jsonc_plain_json_is_unchanged() {
    let input = b"{\"version\": 1, \"packages\": []}";
    assert_eq!(jsonc_json_bytes(input).unwrap(), input.to_vec());
}

#[test]
fn jsonc_stray_slash_or_open_comment_is_refused() {
    assert_eq!(jsonc_json_bytes(b"{ / }"), Err(JsoncError::MalformedComments));
    assert_eq!(jsonc_json_bytes(b"{ /* open"), Err(JsoncError::MalformedComments));
}
