use flathunter::crawl::{CrawlSession, ImmoScout};
use flathunter::decimal::Dec;
use flathunter::errors::CrawlError;
use flathunter::extract::extract_page;
use flathunter::listing::Housing;
use flathunter::notify::{new_result_message, Embed, WebhookNotifier};
use flathunter::seen::{select_new, track, Classification, SeenStore};

fn entry_markup(id: &str, title: &str, price: &str, size: &str, rooms: &str, address: &str) -> String {
    format!(
        "<li><a href=\"/path/{id}.html\"><h5 class=\"result-list-entry__brand-title\">{title}</h5></a>\
         <div data-is24-qa=\"attributes\"><div>{price}</div><div>{size}</div><div>{rooms}</div></div>\
         <div class=\"result-list-entry__address\">{address}</div></li>"
    )
}

fn page_markup(count: Option<&str>, entries: &[String]) -> String {
    let mut body = String::new();
    if let Some(c) = count {
        body.push_str(&format!("<div data-is24-qa=\"resultlist-resultCount\"> {c} </div>"));
    }
    for e in entries {
        body.push_str(e);
    }
    format!("<html><body><ul>{body}</ul></body></html>")
}

fn simple_entry(n: usize) -> String {
    entry_markup(
        &format!("10{n}"),
        &format!("NEU Wohnung {n}"),
        "470,00 \u{20ac}",
        "60 m\u{b2}",
        "2 Zimmer",
        &format!("Stra\u{df}e {n}, Berlin"),
    )
}

#[test]
fn extractor_parses_well_formed_entries() {
    let markup = page_markup(Some("1"), &[simple_entry(7)]);
    let listings = extract_page(&markup).unwrap();
    assert_eq!(listings.len(), 1);
    let l = &listings[0];
    assert_eq!(l.id, "107");
    assert_eq!(l.url, "https://www.immobilienscout24.de/expose/107");
    assert_eq!(l.title, "Wohnung 7");
    assert_eq!(l.price, Dec { mantissa: 47000, scale: 2 });
    assert_eq!(l.size, Dec { mantissa: 60, scale: 0 });
    assert_eq!(l.rooms, Dec { mantissa: 2, scale: 0 });
    assert_eq!(l.address, "Stra\u{df}e 7, Berlin");
}

#[test]
fn extractor_fails_on_malformed_price() {
    let bad = entry_markup("11", "T", "kalt", "60 m\u{b2}", "2", "A");
    let markup = page_markup(None, &[bad]);
    let r = extract_page(&markup);
    match r {
        Err(CrawlError::Parse { field, text }) => {
            assert_eq!(field, "price");
            assert_eq!(text, "kalt");
        },
        other => panic!("expected a price parse failure, got {other:?}"),
    }
}

#[test]
fn extractor_fails_on_missing_link() {
    let bad = "<div><h5 class=\"result-list-entry__brand-title\">T</h5>\
               <div data-is24-qa=\"attributes\"><div>1</div><div>2</div><div>3</div></div>\
               <div class=\"result-list-entry__address\">A</div></div>";
    let markup = page_markup(None, &[bad.to_string()]);
    let r = extract_page(&markup);
    match r {
        Err(CrawlError::Parse { field, .. }) => assert_eq!(field, "href"),
        other => panic!("expected a missing-link failure, got {other:?}"),
    }
}

#[test]
fn missing_count_element_is_parse_error() {
    let markup = page_markup(None, &[simple_entry(1)]);
    let mut session =
        CrawlSession::start("https://www.immobilienscout24.de/Suche/abc/").unwrap();
    let r = session.feed_page(&markup);
    match r {
        Err(CrawlError::Parse { field, .. }) => assert_eq!(field, "resultCount"),
        other => panic!("expected a count failure, got {other:?}"),
    }
    assert_eq!(session.next_page, 1);
    assert_eq!(session.entries.len(), 0);
}

#[test]
fn pagination_covers_declared_total_in_three_pages() {
    let mut session =
        CrawlSession::start("https://www.immobilienscout24.de/Suche/abc/P-4").unwrap();
    let page1: Vec<String> = (0..20).map(simple_entry).collect();
    let page2: Vec<String> = (20..40).map(simple_entry).collect();
    let page3: Vec<String> = (40..45).map(simple_entry).collect();

    assert_eq!(session.page_url(), "https://www.immobilienscout24.de/Suche/abc/P-1");
    let done1 = session.feed_page(&page_markup(Some("45"), &page1)).unwrap();
    assert!(!done1);
    assert_eq!(session.total, Some(45));

    assert_eq!(session.page_url(), "https://www.immobilienscout24.de/Suche/abc/P-2");
    let done2 = session.feed_page(&page_markup(Some("45"), &page2)).unwrap();
    assert!(!done2);

    assert_eq!(session.page_url(), "https://www.immobilienscout24.de/Suche/abc/P-3");
    let done3 = session.feed_page(&page_markup(Some("45"), &page3)).unwrap();
    assert!(done3);

    assert_eq!(session.entries.len(), 45);
    // page-then-position order
    assert_eq!(session.entries[0].id, "100");
    assert_eq!(session.entries[19].id, "1019");
    assert_eq!(session.entries[20].id, "1020");
    assert_eq!(session.entries[44].id, "1044");
}

#[test]
fn same_id_is_new_then_already_seen_across_runs() {
    let markup = page_markup(Some("1"), &[simple_entry(3)]);
    let listings = extract_page(&markup).unwrap();
    let mut store = SeenStore::new();

    let first_run = track(&mut store, &listings, 1000);
    assert_eq!(first_run, vec![Classification::New]);
    let rec = store.get(&listings[0].id).unwrap();
    assert_eq!(rec.first_timestamp, 1000);
    assert_eq!(rec.last_timestamp, 1000);

    let second_run = track(&mut store, &listings, 2000);
    assert_eq!(second_run, vec![Classification::AlreadySeen]);
    let rec = store.get(&listings[0].id).unwrap();
    assert_eq!(rec.first_timestamp, 1000);
    assert_eq!(rec.last_timestamp, 2000);
    assert_eq!(rec.first_data, rec.last_data);
}

#[test]
fn store_entries_round_trip() {
    let markup = page_markup(Some("2"), &[simple_entry(1), simple_entry(2)]);
    let listings = extract_page(&markup).unwrap();
    let mut store = SeenStore::new();
    track(&mut store, &listings, 777);

    let exported = store.to_entries();
    let rebuilt = SeenStore::from_entries(exported);
    for l in &listings {
        let a = store.get(&l.id).unwrap();
        let b = rebuilt.get(&l.id).unwrap();
        assert_eq!(a.first_timestamp, b.first_timestamp);
        assert_eq!(a.last_timestamp, b.last_timestamp);
        assert_eq!(a.first_data, b.first_data);
        assert_eq!(a.last_data, b.last_data);
    }
    assert!(rebuilt.contains_id(&listings[0].id));
    assert!(!rebuilt.contains_id(&String::from("absent")));
}

#[test]
fn end_to_end_two_new_listings_notified() {
    let markup = page_markup(Some("2"), &[simple_entry(1), simple_entry(2)]);
    let mut session =
        CrawlSession::start("https://www.immobilienscout24.de/Suche/abc/").unwrap();
    let done = session.feed_page(&markup).unwrap();
    assert!(done);
    assert_eq!(session.entries.len(), 2);

    let mut store = SeenStore::new();
    let classes = track(&mut store, &session.entries, 50);
    assert_eq!(classes, vec![Classification::New, Classification::New]);
    for l in &session.entries {
        let rec = store.get(&l.id).unwrap();
        assert_eq!(rec.first_timestamp, rec.last_timestamp);
    }

    let fresh = select_new(&session.entries, &classes);
    assert_eq!(fresh.len(), 2);
    let notifications: Vec<String> = fresh.iter().map(new_result_message).collect();
    assert_eq!(notifications.len(), 2);
    assert!(notifications[0].contains("Wohnung 1"));
    assert!(notifications[1].contains("Wohnung 2"));
}

#[test]
fn already_seen_listings_are_not_selected() {
    let markup = page_markup(Some("2"), &[simple_entry(1), simple_entry(2)]);
    let listings = extract_page(&markup).unwrap();
    let mut store = SeenStore::new();
    track(&mut store, &listings, 1);
    let classes = track(&mut store, &listings, 2);
    let fresh = select_new(&listings, &classes);
    assert_eq!(fresh.len(), 0);
}

#[test]
fn duplicate_id_within_one_run_is_seen_once() {
    let markup = page_markup(Some("2"), &[simple_entry(1), simple_entry(1)]);
    let listings = extract_page(&markup).unwrap();
    assert_eq!(listings.len(), 2);
    let mut store = SeenStore::new();
    let classes = track(&mut store, &listings, 5);
    assert_eq!(classes, vec![Classification::New, Classification::AlreadySeen]);
}

#[test]
fn webhook_embeds_carry_listing_fields() {
    let markup = page_markup(Some("1"), &[simple_entry(9)]);
    let listings = extract_page(&markup).unwrap();
    let hook = WebhookNotifier {};
    let embeds = hook.new_result_embeds(&listings[0]);
    assert_eq!(embeds.len(), 2);
    match &embeds[0] {
        Embed::Title(t) => assert!(t.title.contains("Wohnung 9")),
        _ => panic!("expected the headline embed first"),
    }
    match &embeds[1] {
        Embed::Fields(f) => {
            assert_eq!(f.fields.len(), 5);
            assert_eq!(f.fields[0].name, "Title");
            assert_eq!(
                f.fields[0].value,
                "[Wohnung 9](https://www.immobilienscout24.de/expose/109)"
            );
            assert_eq!(f.fields[4].value, "470.00 \u{20ac}");
        },
        _ => panic!("expected the field-list embed second"),
    }
}

#[test]
fn extract_data_method_matches_free_function() {
    let crawler = ImmoScout {};
    let markup = page_markup(Some("1"), &[simple_entry(4)]);
    let via_method = crawler.extract_data(markup.clone()).unwrap();
    let via_free: Vec<Housing> = extract_page(&markup).unwrap();
    assert_eq!(via_method, via_free);
}

#[test]
fn id_absent_from_a_run_keeps_its_record() {
    let first = extract_page(&page_markup(Some("1"), &[simple_entry(1)])).unwrap();
    let second = extract_page(&page_markup(Some("1"), &[simple_entry(2)])).unwrap();
    let mut store = SeenStore::new();
    track(&mut store, &first, 10);
    track(&mut store, &second, 20);
    let kept = store.get(&first[0].id).unwrap();
    assert_eq!(kept.first_timestamp, 10);
    assert_eq!(kept.last_timestamp, 10);
    assert!(store.contains_id(&second[0].id));
}

#[test]
fn selection_keeps_run_order_of_new_listings() {
    let markup = page_markup(Some("3"), &[simple_entry(1), simple_entry(1), simple_entry(2)]);
    let listings = extract_page(&markup).unwrap();
    let mut store = SeenStore::new();
    let classes = track(&mut store, &listings, 9);
    assert_eq!(
        classes,
        vec![Classification::New, Classification::AlreadySeen, Classification::New]
    );
    let fresh = select_new(&listings, &classes);
    assert_eq!(fresh.len(), 2);
    assert_eq!(fresh[0].id, "101");
    assert_eq!(fresh[1].id, "102");
}
