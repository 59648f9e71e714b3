use oxiilink::client::{contains, ClientType, Header};

#[test]
fn known_services_are_told_by_their_user_agent() {
    let html = Header::Text("text/html");
    let cases = [
        ("Mozilla/5.0 (compatible; Discordbot/2.0; +https://discordapp.com)", ClientType::Discord),
        ("Twitterbot/1.0", ClientType::Twitter),
        ("WhatsApp/2.19.81 A", ClientType::WhatsApp),
        ("Slackbot-LinkExpanding 1.0 (+https://api.slack.com/robots)", ClientType::Slack),
        ("Slack-ImgProxy (+https://api.slack.com/robots)", ClientType::Slack),
        ("Googlebot/2.1", ClientType::UnknownBot),
        ("some robot", ClientType::UnknownBot),
    ];
    for (agent, want) in cases {
        assert_eq!(ClientType::from(Header::Text(agent), html), want, "{}", agent);
        assert_eq!(ClientType::from(Header::Text(agent), Header::Missing), want, "{}", agent);
    }
}

#[test]
fn the_first_service_named_wins() {
    assert_eq!(
        ClientType::from(Header::Text("Twitterbot Discordbot"), Header::Missing),
        ClientType::Discord
    );
    assert_eq!(
        ClientType::from(Header::Text("WhatsApp Slackbot"), Header::Missing),
        ClientType::WhatsApp
    );
}

#[test]
fn browsers_and_plain_clients() {
    let firefox = Header::Text("Mozilla/5.0 (X11; Linux x86_64; rv:109.0) Gecko/20100101 Firefox/115.0");
    assert_eq!(
        ClientType::from(firefox, Header::Text("text/html,application/xhtml+xml")),
        ClientType::HTML
    );
    assert_eq!(ClientType::from(firefox, Header::Text("*/*")), ClientType::NoHtml);
    assert_eq!(ClientType::from(firefox, Header::Missing), ClientType::NoHtml);
    assert_eq!(ClientType::from(firefox, Header::Opaque), ClientType::NoHtml);
    assert_eq!(ClientType::from(Header::Text("curl/8.0"), Header::Text("*/*")), ClientType::NoHtml);
}

#[test]
fn without_a_readable_user_agent_the_client_is_plain() {
    assert_eq!(ClientType::from(Header::Missing, Header::Text("text/html")), ClientType::NoHtml);
    assert_eq!(ClientType::from(Header::Opaque, Header::Text("text/html")), ClientType::NoHtml);
}

#[test]
fn contains_agrees_with_std() {
    let texts = ["", "a", "bot", "robot", "bo", "abotb", "héllo wörld", "ääbotää", "html", "xhtmlx"];
    let words = ["", "a", "bot", "o", "html", "ä", "wör", "zzz", "héllo wörld!"];
    for t in texts {
        for w in words {
            assert_eq!(contains(t, w), t.contains(w), "{:?} in {:?}", w, t);
        }
    }
}
