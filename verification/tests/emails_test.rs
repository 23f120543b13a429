use wildbow_epub_gen::emails::fix_emails;

#[test]
fn decodes_obfuscated_email() {
    let input = "Write to <a class=\"__cf_email__\" data-cfemail=\"54213b3a20273514393525393520327a373b39\">[email&nbsp;protected]</a> today".to_string();
    let out = fix_emails(input);
    assert_eq!(out, "Write to uontsa@maqmatf.com today");
}

#[test]
fn decode_is_idempotent_on_decoded_text() {
    let input = "a <a data-cfemail=\"54213b3a20273514393525393520327a373b39\">[email&nbsp;protected]</a> b".to_string();
    let once = fix_emails(input);
    let twice = fix_emails(once.clone());
    assert_eq!(twice, once);
}

#[test]
fn plain_text_is_unchanged() {
    let input = "no anchors here, just <b>text</b> and a stray <a href=\"x\">link</a>".to_string();
    assert_eq!(fix_emails(input.clone()), input);
}

#[test]
fn anchor_without_payload_is_kept() {
    let input = "<a class=\"__cf_email__\">[email&nbsp;protected]</a>".to_string();
    assert_eq!(fix_emails(input.clone()), input);
}

#[test]
fn odd_length_payload_is_kept() {
    let input = "<a data-cfemail=\"54213\">[email&nbsp;protected]</a>".to_string();
    assert_eq!(fix_emails(input.clone()), input);
}

#[test]
fn two_anchors_both_decode() {
    // 41 XOR-encodes "hi": 41^29 = 'h', 41^28 = 'i'
    let input = "x<a data-cfemail=\"412928\">[email&nbsp;protected]</a>y<a data-cfemail=\"412928\">[email&nbsp;protected]</a>z".to_string();
    assert_eq!(fix_emails(input), "xhiyhiz");
}

#[test]
fn single_byte_payload_decodes_to_nothing() {
    let input = "a<a data-cfemail=\"7a\">[email&nbsp;protected]</a>b".to_string();
    assert_eq!(fix_emails(input), "ab");
}
