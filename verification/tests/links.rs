use whatsapp_lite::links::handle_link;
use whatsapp_lite::links::is_internal_url;
use whatsapp_lite::links::is_link_argument;
use whatsapp_lite::links::parse_whatsapp_link;

/// The same conversion written with the standard library's string methods.
fn expected_web_url(link: &str) -> Option<String> {
    if link.starts_with("whatsapp://send") {
        if let Some(p) = link.split("phone=").nth(1) {
            let phone = p
                .split('&')
                .next()
                .unwrap_or(p)
                .trim_matches('"')
                .trim_matches('\'');
            return Some(format!("https://web.whatsapp.com/send?phone={}", phone));
        }
    } else if link.starts_with("whatsapp://chat") {
        if let Some(c) = link.split("code=").nth(1) {
            let code = c
                .split('&')
                .next()
                .unwrap_or(c)
                .trim_matches('/')
                .trim_matches('"')
                .trim_matches('\'');
            return Some(format!("https://web.whatsapp.com/accept?code={}", code));
        }
    } else if let Some(rest) = link
        .strip_prefix("https://chat.whatsapp.com/")
        .or_else(|| link.strip_prefix("http://chat.whatsapp.com/"))
    {
        let code = rest
            .split('?')
            .next()
            .unwrap_or(rest)
            .split('#')
            .next()
            .unwrap_or(rest)
            .trim_matches('/');
        if !code.is_empty() {
            return Some(format!("https://web.whatsapp.com/accept?code={}", code));
        }
    }
    None
}

const SAMPLE_LINKS: &[&str] = &[
    "whatsapp://send?phone=5511999999999",
    "whatsapp://send?phone=5511999999999&text=hello",
    "whatsapp://send?text=hi&phone=123",
    "whatsapp://send?phone=\"123\"",
    "whatsapp://send?phone='123'",
    "whatsapp://send?phone='\"123\"'",
    "whatsapp://send?phone=\"'123'\"",
    "whatsapp://send?phone=1&phone=2",
    "whatsapp://send?phone=12phone=34",
    "whatsapp://send?phone=",
    "whatsapp://send?phone=&",
    "whatsapp://send?text=hello",
    "whatsapp://send",
    "whatsapp://sendphone=7",
    "whatsapp://chat?code=ABCdef123",
    "whatsapp://chat?code=ABCdef123/",
    "whatsapp://chat?code=//ABC//&x=1",
    "whatsapp://chat?code=\"/ABC/\"",
    "whatsapp://chat?code=",
    "whatsapp://chat?x=1",
    "whatsapp://chat?code=a code=b",
    "whatsapp://call?phone=1",
    "https://chat.whatsapp.com/ABC",
    "https://chat.whatsapp.com/AbC123?utm_source=x#y",
    "https://chat.whatsapp.com//AbC123//",
    "https://chat.whatsapp.com/",
    "https://chat.whatsapp.com/?x=1",
    "http://chat.whatsapp.com/Q1",
    "https://chat.whatsapp.comX/Q1",
    "https://evil.example/chat.whatsapp.com/Q1",
    "WHATSAPP://send?phone=1",
    "",
    "phone=1",
    "whatsapp://send?phone=ü☃&x",
    "whatsapp://chat?code=日本/",
];

#[test]
fn parse_send_link() {
    assert_eq!(
        parse_whatsapp_link("whatsapp://send?phone=5511999999999"),
        Some("https://web.whatsapp.com/send?phone=5511999999999".to_string())
    );
}

#[test]
fn parse_send_link_stops_at_ampersand() {
    assert_eq!(
        parse_whatsapp_link("whatsapp://send?phone=5511999999999&text=hello"),
        Some("https://web.whatsapp.com/send?phone=5511999999999".to_string())
    );
}

#[test]
fn parse_send_link_strips_quotes() {
    assert_eq!(
        parse_whatsapp_link("whatsapp://send?phone=\"123\""),
        Some("https://web.whatsapp.com/send?phone=123".to_string())
    );
    assert_eq!(
        parse_whatsapp_link("whatsapp://send?phone='123'"),
        Some("https://web.whatsapp.com/send?phone=123".to_string())
    );
    // Double quotes are stripped before single quotes.
    assert_eq!(
        parse_whatsapp_link("whatsapp://send?phone='\"123\"'"),
        Some("https://web.whatsapp.com/send?phone=\"123\"".to_string())
    );
}

#[test]
fn parse_send_link_second_key_ends_value() {
    assert_eq!(
        parse_whatsapp_link("whatsapp://send?phone=12phone=34"),
        Some("https://web.whatsapp.com/send?phone=12".to_string())
    );
}

#[test]
fn parse_send_link_without_phone() {
    assert_eq!(parse_whatsapp_link("whatsapp://send?text=hello"), None);
    assert_eq!(parse_whatsapp_link("whatsapp://send"), None);
}

#[test]
fn parse_chat_link() {
    assert_eq!(
        parse_whatsapp_link("whatsapp://chat?code=ABCdef123/"),
        Some("https://web.whatsapp.com/accept?code=ABCdef123".to_string())
    );
    assert_eq!(
        parse_whatsapp_link("whatsapp://chat?code=//ABC//&x=1"),
        Some("https://web.whatsapp.com/accept?code=ABC".to_string())
    );
}

#[test]
fn parse_invite_link() {
    assert_eq!(
        parse_whatsapp_link("https://chat.whatsapp.com/AbC123"),
        Some("https://web.whatsapp.com/accept?code=AbC123".to_string())
    );
    assert_eq!(
        parse_whatsapp_link("https://chat.whatsapp.com/AbC123?utm_source=x#y"),
        Some("https://web.whatsapp.com/accept?code=AbC123".to_string())
    );
    assert_eq!(
        parse_whatsapp_link("http://chat.whatsapp.com/Q1/"),
        Some("https://web.whatsapp.com/accept?code=Q1".to_string())
    );
    assert_eq!(parse_whatsapp_link("https://chat.whatsapp.com/"), None);
    assert_eq!(parse_whatsapp_link("https://evil.example/chat.whatsapp.com/Q1"), None);
}

#[test]
fn parse_other_links() {
    assert_eq!(parse_whatsapp_link("whatsapp://call?phone=1"), None);
    assert_eq!(parse_whatsapp_link("https://web.whatsapp.com/"), None);
    assert_eq!(parse_whatsapp_link(""), None);
}

#[test]
fn parse_agrees_with_std_string_methods() {
    for link in SAMPLE_LINKS {
        assert_eq!(parse_whatsapp_link(link), expected_web_url(link), "link {:?}", link);
    }
}

#[test]
fn parsed_addresses_are_internal() {
    for link in SAMPLE_LINKS {
        if let Some(url) = parse_whatsapp_link(link) {
            assert!(is_internal_url(&url), "{:?}", url);
            assert!(is_link_argument(link));
        }
    }
}

#[test]
fn internal_urls() {
    assert!(is_internal_url("https://web.whatsapp.com/"));
    assert!(is_internal_url("https://wa.me/5511999999999"));
    assert!(is_internal_url("https://api.whatsapp.com/send?phone=1"));
    assert!(is_internal_url("https://chat.whatsapp.com/ABC"));
    assert!(!is_internal_url("https://www.youtube.com/watch?v=1"));
    assert!(!is_internal_url("https://github.com/"));
    assert!(!is_internal_url(""));
    assert!(!is_internal_url("https://web.whatsapp.co"));
}

#[test]
fn internal_urls_go_by_host() {
    assert!(!is_internal_url("https://evil.example/?next=web.whatsapp.com"));
    assert!(!is_internal_url("https://ottawa.me/"));
    assert!(!is_internal_url("https://web.whatsapp.com.evil.example/"));
    assert!(!is_internal_url("https://web.whatsapp.com@evil.example/"));
    assert!(!is_internal_url("https://a@b@evil.example/?x=@wa.me"));
    assert!(!is_internal_url("web.whatsapp.com"));
    assert!(!is_internal_url("://web.whatsapp.com/"));
    assert!(!is_internal_url("1http://web.whatsapp.com/"));
    assert!(!is_internal_url("https://evil.example/#https://wa.me/"));
    assert!(is_internal_url("https://wa.me"));
    assert!(is_internal_url("https://u@wa.me/"));
    assert!(is_internal_url("https://user:pw@web.whatsapp.com:443/"));
    assert!(is_internal_url("https://a@b@chat.whatsapp.com/X"));
    assert!(is_internal_url("https://web.whatsapp.com:443/x"));
    assert!(is_internal_url("https://web.whatsapp.com?x=1"));
    assert!(is_internal_url("https://web.whatsapp.com#top"));
    assert!(is_internal_url("http://api.whatsapp.com/send"));
    assert!(is_internal_url("blob:https://web.whatsapp.com/0f4c1e2a"));
    assert!(!is_internal_url("blob:https://evil.example/0f4c1e2a"));
}

#[test]
fn link_arguments() {
    assert!(is_link_argument("whatsapp://send?phone=1"));
    assert!(is_link_argument("https://chat.whatsapp.com/ABC"));
    assert!(!is_link_argument("--minimized"));
    assert!(!is_link_argument("https://web.whatsapp.com/"));
}

#[test]
fn handle_link_when_disabled() {
    assert_eq!(handle_link(false, "whatsapp://send?phone=1"), None);
}

#[test]
fn handle_link_builds_navigation_script() {
    assert_eq!(
        handle_link(true, "whatsapp://send?phone=1"),
        Some("window.location.assign(\"https://web.whatsapp.com/send?phone=1\");".to_string())
    );
    assert_eq!(handle_link(true, "https://example.com"), None);
}

#[test]
fn handle_link_escapes_quotes() {
    assert_eq!(
        handle_link(true, "whatsapp://send?phone=1\"2"),
        Some("window.location.assign(\"https://web.whatsapp.com/send?phone=1\\\"2\");".to_string())
    );
}
