use flathunter::crawl::{get_crawler, normalize_search_url, CrawlSession, ImmoScout};
use flathunter::decimal::{parse_dec, parse_quantity, Dec};
use flathunter::default_log_level;
use flathunter::errors::{CrawlError, NoneError};
use flathunter::extract::{derive_id, norm_title};
use flathunter::listing::Housing;
use flathunter::notify::{bootup_message, eq_ignore_case, error_message, new_result_message, WebhookNotifier};
use flathunter::text::{contains_str, last_segment, parse_u64, remove_all, token, trim, u64_to_string};

fn dec(mantissa: u64, scale: u32) -> Dec {
    Dec { mantissa, scale }
}

#[test]
fn price_string_parses_to_exact_decimal() {
    assert_eq!(parse_quantity("1.234,50 \u{20ac}"), Some(dec(123450, 2)));
}

#[test]
fn rooms_string_parses_to_exact_decimal() {
    assert_eq!(parse_quantity("2,5 Zimmer"), Some(dec(25, 1)));
}

#[test]
fn quantity_parse_rejects_malformed_text() {
    assert_eq!(parse_quantity(""), None);
    assert_eq!(parse_quantity("kalt"), None);
    assert_eq!(parse_quantity("1,2,3"), None);
    assert_eq!(parse_quantity("-5"), None);
}

#[test]
fn dec_renders_canonically() {
    assert_eq!(dec(123450, 2).to_text(), "1234.50");
    assert_eq!(dec(25, 1).to_text(), "2.5");
    assert_eq!(dec(5, 0).to_text(), "5");
    assert_eq!(dec(25, 4).to_text(), "0.0025");
    assert_eq!(dec(0, 0).to_text(), "0");
}

#[test]
fn plain_decimal_grammar() {
    assert_eq!(parse_dec("1234.50"), Some(dec(123450, 2)));
    assert_eq!(parse_dec("60"), Some(dec(60, 0)));
    assert_eq!(parse_dec("1."), None);
    assert_eq!(parse_dec(".5"), None);
    assert_eq!(parse_dec(""), None);
}

#[test]
fn title_marker_removed_and_trimmed() {
    assert_eq!(norm_title("NEU Sch\u{f6}ne Wohnung"), "Sch\u{f6}ne Wohnung");
    assert_eq!(norm_title("  plain title "), "plain title");
}

#[test]
fn both_url_shapes_normalize_to_one_template() {
    let paged = "https://www.immobilienscout24.de/Suche/abc123/P-2";
    let unpaged = "https://www.immobilienscout24.de/Suche/abc123/";
    let t1 = normalize_search_url(paged).unwrap();
    let t2 = normalize_search_url(unpaged).unwrap();
    assert_eq!(t1, "/Suche/abc123/P-");
    assert_eq!(t1, t2);
}

#[test]
fn unknown_url_shape_is_format_error() {
    let r = normalize_search_url("https://example.com/listings?page=2");
    assert!(matches!(r, Err(CrawlError::UrlFormat)));
}

#[test]
fn id_derived_from_link_segment() {
    assert_eq!(derive_id("/expose/115858407.html"), "115858407");
    assert_eq!(derive_id("deep/path/98765.html"), "98765");
    assert_eq!(derive_id("ends-in-slash/"), "");
}

#[test]
fn parse_u64_edges() {
    assert_eq!(parse_u64("0"), Some(0));
    assert_eq!(parse_u64("45"), Some(45));
    assert_eq!(parse_u64("18446744073709551615"), Some(u64::MAX));
    assert_eq!(parse_u64("18446744073709551616"), None);
    assert_eq!(parse_u64(""), None);
    assert_eq!(parse_u64("12a"), None);
}

#[test]
fn digits_render() {
    assert_eq!(u64_to_string(0), "0");
    assert_eq!(u64_to_string(907), "907");
}

#[test]
fn text_helpers() {
    assert_eq!(trim("  45 \n"), "45");
    assert_eq!(token("470,00 \u{20ac} Kaltmiete"), "470,00");
    assert_eq!(remove_all("a.html.html", ".html"), "a");
    assert!(contains_str("x/P-2", "/P-"));
    assert!(!contains_str("x/Q-2", "/P-"));
    assert_eq!(last_segment("a/b/c"), "c");
    assert_eq!(last_segment("nodash"), "nodash");
}

#[test]
fn crawler_registry_first_match_wins() {
    let url = String::from("https://www.immobilienscout24.de/Suche/de/wohnung");
    assert!(get_crawler(url).is_some());
    let other = String::from("https://www.example.org/Suche/de/wohnung");
    assert!(get_crawler(other).is_none());
    let crawler = ImmoScout {};
    assert!(crawler.match_url(String::from("https://www.immobilienscout24.de/x")));
    assert!(!crawler.match_url(String::from("https://nope.invalid/x")));
}

#[test]
fn session_builds_page_urls() {
    let url = "https://www.immobilienscout24.de/Suche/S-T/Wohnung-Miete/Berlin/Berlin/";
    let session = CrawlSession::start(url).unwrap();
    assert_eq!(session.template, "/Suche/S-T/Wohnung-Miete/Berlin/Berlin/P-");
    assert_eq!(
        session.page_url(),
        "https://www.immobilienscout24.de/Suche/S-T/Wohnung-Miete/Berlin/Berlin/P-1"
    );
}

#[test]
fn webhook_kind_is_ascii_case_insensitive() {
    let hook = WebhookNotifier {};
    assert!(hook.kind_is_discord(&String::from("discord")));
    assert!(hook.kind_is_discord(&String::from("Discord")));
    assert!(hook.kind_is_discord(&String::from("DISCORD")));
    assert!(!hook.kind_is_discord(&String::from("slack")));
    assert!(eq_ignore_case("AbC", "abc"));
    assert!(!eq_ignore_case("abc", "abcd"));
}

#[test]
fn messages_render() {
    let listing = Housing {
        id: String::from("42"),
        url: String::from("https://www.immobilienscout24.de/expose/42"),
        title: String::from("Sch\u{f6}ne Wohnung"),
        price: dec(47000, 2),
        size: dec(60, 0),
        rooms: dec(2, 0),
        address: String::from("Musterstra\u{df}e 1, Berlin"),
    };
    assert_eq!(
        new_result_message(&listing),
        "New result: 2 rooms (60 m\u{b2}) for 470.00 \u{20ac}: \"Sch\u{f6}ne Wohnung\". \
         Location: Musterstra\u{df}e 1, Berlin. Link: https://www.immobilienscout24.de/expose/42"
    );
    assert_eq!(bootup_message(), "Flathunter has booted and is scanning for flats");
    assert_eq!(
        error_message(&String::from("boom")),
        "Error in Flathunter: boom"
    );
    assert_eq!(default_log_level(), "debug");
    assert_eq!(NoneError {}.message(), "expected element was absent");
    let e = CrawlError::Parse { field: String::from("price"), text: String::from("kalt") };
    assert_eq!(e.message(), "could not parse field price from kalt");
    assert_eq!(
        CrawlError::NoCrawlerMatched.message(),
        "no crawler matches the URL"
    );
}
