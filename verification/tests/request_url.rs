use sb2md::request::SbRequest;

#[test]
fn request_url_from_path() {
    let r = SbRequest::new("proj/page".to_string());
    assert_eq!("https://scrapbox.io/api/pages/proj/page", &r.url[..]);
}

#[test]
fn request_takes_first_two_parts() {
    let r = SbRequest::new("a/b/c".to_string());
    assert_eq!("https://scrapbox.io/api/pages/a/b", &r.url[..]);
}

#[test]
fn request_refused_without_slash() {
    assert!(SbRequest::try_new("nopath".to_string()).is_none());
}

#[test]
fn request_url_is_normalized() {
    // The URL parser, not the builder, decides the final text: a space in
    // the page title comes back percent-encoded.
    let r = SbRequest::try_new("proj/a page".to_string()).unwrap();
    assert_eq!("https://scrapbox.io/api/pages/proj/a%20page", &r.url[..]);
}
