use oxiilink::client::ClientType;
use oxiilink::links::{
    custom_id_fits, judge_link, may_shorten, may_store, read_url, same_text, vet_link, LinkVerdict,
    UrlParts,
};
use oxiilink::paste::{
    address, choose_page, choose_view, judge_body, stored_part, BodyVerdict, PageForm, PasteView,
};
use oxiilink::render::analytics_date;

fn parts(scheme: &str, username: &str, host: Option<&str>) -> UrlParts {
    UrlParts {
        scheme: scheme.to_string(),
        username: username.to_string(),
        host: host.map(|h| h.to_string()),
        text: format!("{scheme}://x/"),
    }
}

#[test]
fn custom_ids_have_two_to_sixteen_bytes() {
    for (length, fits) in [(0, false), (1, false), (2, true), (16, true), (17, false), (usize::MAX, false)] {
        assert_eq!(custom_id_fits(length), fits, "{}", length);
    }
}

#[test]
fn only_web_addresses_without_user_are_stored() {
    assert!(may_store(&parts("http", "", Some("a.org"))));
    assert!(may_store(&parts("https", "", None)));
    assert!(!may_store(&parts("ftp", "", Some("a.org"))));
    assert!(!may_store(&parts("https", "me", Some("a.org"))));
    assert!(!may_store(&parts("http ", "", Some("a.org"))));
    assert!(!may_store(&parts("", "", Some("a.org"))));
}

#[test]
fn the_shortener_does_not_shorten_itself() {
    assert!(may_shorten(&parts("https", "", Some("a.org")), "oxlink.dev"));
    assert!(!may_shorten(&parts("https", "", Some("oxlink.dev")), "oxlink.dev"));
    assert!(!may_shorten(&parts("https", "", None), "oxlink.dev"));
    assert!(!may_shorten(&parts("mailto", "", Some("a.org")), "oxlink.dev"));
    assert!(!may_shorten(&parts("https", "u", Some("a.org")), "oxlink.dev"));
    assert!(same_text(&"abc".to_string(), "abc"));
    assert!(!same_text(&"abc".to_string(), "abd"));
    assert!(!same_text(&"abc".to_string(), ""));
}

#[test]
fn verdicts_on_links() {
    assert!(matches!(judge_link(None, "oxlink.dev"), LinkVerdict::Unparsable));
    assert!(matches!(
        judge_link(Some(parts("ftp", "", Some("a.org"))), "oxlink.dev"),
        LinkVerdict::Refused
    ));
    match judge_link(Some(parts("https", "", Some("a.org"))), "oxlink.dev") {
        LinkVerdict::Accepted { address } => assert_eq!(address, "https://x/"),
        _ => panic!("a web address of another host is taken"),
    }
}

#[test]
fn addresses_are_read_by_the_url_crate() {
    let p = read_url("HTTPS://User@Example.ORG:443/a b?q#f").unwrap();
    assert_eq!(p.scheme, "https");
    assert_eq!(p.username, "User");
    assert_eq!(p.host.as_deref(), Some("example.org"));
    assert_eq!(p.text, "https://User@example.org/a%20b?q#f");
    assert!(read_url("not an address").is_none());
    assert!(read_url("").is_none());
    let mail = read_url("mailto:someone@example.org").unwrap();
    assert_eq!(mail.scheme, "mailto");
    assert_eq!(mail.host, None);
    match vet_link("http://example.org", "oxlink.dev") {
        LinkVerdict::Accepted { address } => assert_eq!(address, "http://example.org/"),
        _ => panic!("a web address of another host is taken"),
    }
    assert!(matches!(vet_link("https://oxlink.dev/abc", "oxlink.dev"), LinkVerdict::Refused));
    assert!(matches!(vet_link("https://me@example.org", "oxlink.dev"), LinkVerdict::Refused));
    assert!(matches!(vet_link("example.org", "oxlink.dev"), LinkVerdict::Unparsable));
}

#[test]
fn bodies_are_stored_whole_or_cut() {
    assert_eq!(judge_body(0, 10), BodyVerdict::Empty);
    assert_eq!(judge_body(1, 10), BodyVerdict::Whole);
    assert_eq!(judge_body(10, 10), BodyVerdict::Whole);
    assert_eq!(judge_body(11, 10), BodyVerdict::Truncated);
    assert_eq!(judge_body(0, 0), BodyVerdict::Empty);
    assert_eq!(stored_part(vec![1, 2, 3], 2), vec![1, 2]);
    assert_eq!(stored_part(vec![1, 2, 3], 3), vec![1, 2, 3]);
    assert_eq!(stored_part(vec![1, 2, 3], 9), vec![1, 2, 3]);
    assert_eq!(stored_part(vec![1, 2, 3], 0), Vec::<u8>::new());
}

#[test]
fn views_and_pages_follow_the_client() {
    assert_eq!(choose_view(ClientType::HTML, true, true, true), PasteView::Highlighted);
    assert_eq!(choose_view(ClientType::HTML, false, true, true), PasteView::Raw);
    assert_eq!(choose_view(ClientType::HTML, true, false, true), PasteView::Raw);
    assert_eq!(choose_view(ClientType::HTML, true, true, false), PasteView::Raw);
    assert_eq!(choose_view(ClientType::NoHtml, true, true, true), PasteView::Raw);
    for bot in [
        ClientType::Discord,
        ClientType::Slack,
        ClientType::Twitter,
        ClientType::WhatsApp,
        ClientType::UnknownBot,
    ] {
        assert_eq!(choose_view(bot, true, true, true), PasteView::Embed);
        assert_eq!(choose_view(bot, false, false, false), PasteView::Embed);
        assert_eq!(choose_page(bot), PageForm::Embed);
    }
    assert_eq!(choose_page(ClientType::HTML), PageForm::Html);
    assert_eq!(choose_page(ClientType::NoHtml), PageForm::Text);
}

#[test]
fn addresses_are_put_together() {
    assert_eq!(address("https://oxlink.dev", "/", "abc", None), "https://oxlink.dev/abc");
    assert_eq!(address("https://oxlink.dev", "/i/", "abc", Some("rs")), "https://oxlink.dev/i/abc.rs");
    assert_eq!(address("", "", "", Some("")), ".");
    assert_eq!(address("b", "/a/", "n", None), "b/a/n");
}

#[test]
fn analytics_print_the_day_first() {
    assert_eq!(analytics_date(1_700_000_000).as_deref(), Some("14/11/2023 22:13"));
    assert_eq!(analytics_date(0).as_deref(), Some("01/01/1970 00:00"));
    assert_eq!(analytics_date(i64::MAX), None);
}
