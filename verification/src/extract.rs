//! The listing extractor: one page of search-result markup in, an ordered
//! sequence of listings (or a parse failure naming the offending field)
//! out. The element queries go through the trusted `select` boundary in
//! [`crate::html`]; everything from the query results to the listing
//! records is verified.
//!
//! Alignment policy: the title, attribute-container and address element
//! streams are zipped positionally and truncated to the shortest stream,
//! so a partially rendered trailing entry is dropped rather than failing
//! the whole page.

use vstd::prelude::*;
use vstd::string::StringSliceAdditionalSpecFns;
use crate::decimal::{parse_quantity, quantity_ok, spec_parse_quantity};
use crate::errors::CrawlError;
use crate::html::{
    attr_children_texts, children_texts_by_attr, class_entries, entries_by_class,
};
use crate::listing::{Housing, HousingView};
use crate::text::{
    remove_all, spec_last_segment, spec_remove_all, spec_trim, last_segment, trim,
};

verus! {

/// The origin that canonical listing URLs are rooted at.
pub open spec fn host() -> Seq<char> {
    "https://www.immobilienscout24.de"@
}

/// The origin as text.
pub fn host_prefix() -> (r: &'static str)
    ensures
        r@ == host(),
{
    "https://www.immobilienscout24.de"
}

/// Title normalization: the marketing noise token `NEU` removed,
/// surrounding whitespace trimmed.
pub open spec fn spec_norm_title(s: Seq<char>) -> Seq<char> {
    spec_trim(spec_remove_all(s, "NEU"@))
}

/// Normalizes a raw title text.
pub fn norm_title(s: &str) -> (r: String)
    ensures
        r@ == spec_norm_title(s@),
{
    proof {
        reveal_strlit("NEU");
    }
    let cleaned = remove_all(s, "NEU");
    String::from_str(trim(cleaned.as_str()))
}

/// The listing id derived from a detail-page link: the link's final path
/// segment with the `.html` suffix stripped.
pub open spec fn spec_derive_id(href: Seq<char>) -> Seq<char> {
    spec_remove_all(spec_last_segment(href), ".html"@)
}

/// Derives the listing id from a detail-page link.
pub fn derive_id(href: &str) -> (r: String)
    ensures
        r@ == spec_derive_id(href@),
{
    proof {
        reveal_strlit(".html");
    }
    let seg = last_segment(href);
    remove_all(seg.as_str(), ".html")
}

/// The canonical detail URL for a listing id: the site's `/expose/<id>`
/// path scheme, independent of the literal link found on the page.
pub open spec fn spec_listing_url(id: Seq<char>) -> Seq<char> {
    host() + "/expose/"@ + id
}

/// A failed entry: which field failed, and the raw text that did.
pub ghost struct ParseFail {
    pub field: Seq<char>,
    pub text: Seq<char>,
}

/// The outcome for one zipped entry: its listing record, or the first
/// failure in field order (link, id, then price, size, rooms).
pub open spec fn spec_entry(
    title: (Seq<char>, Option<Seq<char>>),
    attrs: Seq<Seq<char>>,
    addr: (Seq<char>, Option<Seq<char>>),
) -> Result<HousingView, ParseFail> {
    match title.1 {
        None => Err(ParseFail { field: "href"@, text: Seq::empty() }),
        Some(href) => {
            let id = spec_derive_id(href);
            if id.len() == 0 {
                Err(ParseFail { field: "id"@, text: href })
            } else if attrs.len() < 1 {
                Err(ParseFail { field: "price"@, text: Seq::empty() })
            } else if !quantity_ok(attrs[0]) {
                Err(ParseFail { field: "price"@, text: attrs[0] })
            } else if attrs.len() < 2 {
                Err(ParseFail { field: "size"@, text: Seq::empty() })
            } else if !quantity_ok(attrs[1]) {
                Err(ParseFail { field: "size"@, text: attrs[1] })
            } else if attrs.len() < 3 {
                Err(ParseFail { field: "rooms"@, text: Seq::empty() })
            } else if !quantity_ok(attrs[2]) {
                Err(ParseFail { field: "rooms"@, text: attrs[2] })
            } else {
                Ok(
                    HousingView {
                        id: id,
                        url: spec_listing_url(id),
                        title: spec_norm_title(title.0),
                        price: spec_parse_quantity(attrs[0]),
                        size: spec_parse_quantity(attrs[1]),
                        rooms: spec_parse_quantity(attrs[2]),
                        address: addr.0,
                    },
                )
            }
        },
    }
}

/// The outcome over the first `k` zipped entries: all their records in
/// order, or the first failure.
pub open spec fn spec_extract_upto(
    titles: Seq<(Seq<char>, Option<Seq<char>>)>,
    attrs: Seq<Seq<Seq<char>>>,
    addrs: Seq<(Seq<char>, Option<Seq<char>>)>,
    k: int,
) -> Result<Seq<HousingView>, ParseFail>
    decreases k,
{
    if k <= 0 {
        Ok(Seq::empty())
    } else {
        match spec_extract_upto(titles, attrs, addrs, k - 1) {
            Err(e) => Err(e),
            Ok(pre) => match spec_entry(titles[k - 1], attrs[k - 1], addrs[k - 1]) {
                Err(e) => Err(e),
                Ok(h) => Ok(pre.push(h)),
            },
        }
    }
}

proof fn lemma_extract_err_persists(
    titles: Seq<(Seq<char>, Option<Seq<char>>)>,
    attrs: Seq<Seq<Seq<char>>>,
    addrs: Seq<(Seq<char>, Option<Seq<char>>)>,
    k: int,
    m: int,
)
    requires
        k <= m,
        spec_extract_upto(titles, attrs, addrs, k) is Err,
    ensures
        spec_extract_upto(titles, attrs, addrs, m) == spec_extract_upto(titles, attrs, addrs, k),
    decreases m - k,
{
    if k < m {
        lemma_extract_err_persists(titles, attrs, addrs, k, m - 1);
    }
}

/// The number of zipped entries of a page: the shortest of the three
/// element streams.
pub open spec fn min3(a: int, b: int, c: int) -> int {
    if a <= b && a <= c {
        a
    } else if b <= c {
        b
    } else {
        c
    }
}

/// What extraction yields on `html`: every zipped entry's record in
/// document order, or the first entry failure.
pub open spec fn spec_extract(html: Seq<char>) -> Result<Seq<HousingView>, ParseFail> {
    let titles = class_entries(html, "result-list-entry__brand-title"@);
    let attrs = attr_children_texts(html, "data-is24-qa"@, "attributes"@);
    let addrs = class_entries(html, "result-list-entry__address"@);
    spec_extract_upto(titles, attrs, addrs, min3(titles.len() as int, attrs.len() as int, addrs.len() as int))
}

/// Extracts every listing from one page of markup, all-or-nothing: a
/// failure in any entry discards the page. The markup must fit the HTML
/// parser's 32-bit text length.
pub fn extract_page(markup: &str) -> (r: Result<Vec<Housing>, CrawlError>)
    requires
        markup.spec_bytes().len() <= u32::MAX,
    ensures
        match r {
            Ok(v) => spec_extract(markup@) == Ok::<Seq<HousingView>, ParseFail>(v.deep_view()),
            Err(e) => {
                &&& spec_extract(markup@) is Err
                &&& e matches CrawlError::Parse { field, text } && Err::<
                    Seq<HousingView>,
                    ParseFail,
                >(ParseFail { field: field@, text: text@ }) == spec_extract(markup@)
            },
        },
{
    let titles = entries_by_class(markup, "result-list-entry__brand-title");
    let attrs = children_texts_by_attr(markup, "data-is24-qa", "attributes");
    let addrs = entries_by_class(markup, "result-list-entry__address");
    let ghost gt = class_entries(markup@, "result-list-entry__brand-title"@);
    let ghost ga = attr_children_texts(markup@, "data-is24-qa"@, "attributes"@);
    let ghost gd = class_entries(markup@, "result-list-entry__address"@);
    let mut n = titles.len();
    if attrs.len() < n {
        n = attrs.len();
    }
    if addrs.len() < n {
        n = addrs.len();
    }
    proof {
        assert(n == min3(gt.len() as int, ga.len() as int, gd.len() as int));
        assert(spec_extract(markup@) == spec_extract_upto(gt, ga, gd, n as int));
    }
    let mut out: Vec<Housing> = Vec::new();
    proof {
        assert(out.deep_view() =~= Seq::<HousingView>::empty());
    }
    let mut i: usize = 0;
    while i < n
        invariant
            0 <= i <= n,
            n == min3(gt.len() as int, ga.len() as int, gd.len() as int),
            n <= titles@.len() && n <= attrs@.len() && n <= addrs@.len(),
            titles.deep_view() == gt,
            attrs.deep_view() == ga,
            addrs.deep_view() == gd,
            spec_extract(markup@) == spec_extract_upto(gt, ga, gd, n as int),
            spec_extract_upto(gt, ga, gd, i as int) == Ok::<Seq<HousingView>, ParseFail>(
                out.deep_view(),
            ),
        decreases n - i,
    {
        let ghost pre = out.deep_view();
        proof {
            assert(gt[i as int] == titles@[i as int].deep_view());
            assert(ga[i as int] == attrs@[i as int].deep_view());
            assert(gd[i as int] == addrs@[i as int].deep_view());
        }
        let entry = &titles[i];
        let href = match &entry.1 {
            Some(h) => h,
            None => {
                proof {
                    assert(spec_entry(gt[i as int], ga[i as int], gd[i as int]) == Err::<
                        HousingView,
                        ParseFail,
                    >(ParseFail { field: "href"@, text: Seq::empty() }));
                    lemma_extract_err_persists(gt, ga, gd, i + 1, n as int);
                }
                return Err(
                    CrawlError::Parse { field: String::from_str("href"), text: String::new() },
                );
            },
        };
        let id = derive_id(href.as_str());
        if id.as_str().unicode_len() == 0 {
            proof {
                assert(spec_entry(gt[i as int], ga[i as int], gd[i as int]) == Err::<
                    HousingView,
                    ParseFail,
                >(ParseFail { field: "id"@, text: href@ }));
                lemma_extract_err_persists(gt, ga, gd, i + 1, n as int);
            }
            return Err(CrawlError::Parse { field: String::from_str("id"), text: href.clone() });
        }
        let row = &attrs[i];
        proof {
            assert(ga[i as int].len() == row@.len());
            assert(forall|j: int|
                0 <= j < row@.len() ==> ga[i as int][j] == #[trigger] row@[j].deep_view());
        }
        if row.len() < 1 {
            proof {
                assert(spec_entry(gt[i as int], ga[i as int], gd[i as int]) == Err::<
                    HousingView,
                    ParseFail,
                >(ParseFail { field: "price"@, text: Seq::empty() }));
                lemma_extract_err_persists(gt, ga, gd, i + 1, n as int);
            }
            return Err(
                CrawlError::Parse { field: String::from_str("price"), text: String::new() },
            );
        }
        let price = match parse_quantity(row[0].as_str()) {
            Some(d) => d,
            None => {
                proof {
                    assert(spec_entry(gt[i as int], ga[i as int], gd[i as int]) == Err::<
                        HousingView,
                        ParseFail,
                    >(ParseFail { field: "price"@, text: ga[i as int][0] }));
                    lemma_extract_err_persists(gt, ga, gd, i + 1, n as int);
                }
                return Err(
                    CrawlError::Parse { field: String::from_str("price"), text: row[0].clone() },
                );
            },
        };
        if row.len() < 2 {
            proof {
                assert(spec_entry(gt[i as int], ga[i as int], gd[i as int]) == Err::<
                    HousingView,
                    ParseFail,
                >(ParseFail { field: "size"@, text: Seq::empty() }));
                lemma_extract_err_persists(gt, ga, gd, i + 1, n as int);
            }
            return Err(CrawlError::Parse { field: String::from_str("size"), text: String::new() });
        }
        let size = match parse_quantity(row[1].as_str()) {
            Some(d) => d,
            None => {
                proof {
                    assert(spec_entry(gt[i as int], ga[i as int], gd[i as int]) == Err::<
                        HousingView,
                        ParseFail,
                    >(ParseFail { field: "size"@, text: ga[i as int][1] }));
                    lemma_extract_err_persists(gt, ga, gd, i + 1, n as int);
                }
                return Err(
                    CrawlError::Parse { field: String::from_str("size"), text: row[1].clone() },
                );
            },
        };
        if row.len() < 3 {
            proof {
                assert(spec_entry(gt[i as int], ga[i as int], gd[i as int]) == Err::<
                    HousingView,
                    ParseFail,
                >(ParseFail { field: "rooms"@, text: Seq::empty() }));
                lemma_extract_err_persists(gt, ga, gd, i + 1, n as int);
            }
            return Err(
                CrawlError::Parse { field: String::from_str("rooms"), text: String::new() },
            );
        }
        let rooms = match parse_quantity(row[2].as_str()) {
            Some(d) => d,
            None => {
                proof {
                    assert(spec_entry(gt[i as int], ga[i as int], gd[i as int]) == Err::<
                        HousingView,
                        ParseFail,
                    >(ParseFail { field: "rooms"@, text: ga[i as int][2] }));
                    lemma_extract_err_persists(gt, ga, gd, i + 1, n as int);
                }
                return Err(
                    CrawlError::Parse { field: String::from_str("rooms"), text: row[2].clone() },
                );
            },
        };
        let title = norm_title(entry.0.as_str());
        let url = String::from_str(host_prefix()).concat("/expose/").concat(id.as_str());
        let address = addrs[i].0.clone();
        let listing = Housing { id, url, title, price, size, rooms, address };
        let ghost lv = listing@;
        proof {
            assert(spec_entry(gt[i as int], ga[i as int], gd[i as int]) == Ok::<
                HousingView,
                ParseFail,
            >(lv));
        }
        out.push(listing);
        i = i + 1;
        proof {
            assert(out.deep_view() =~= pre.push(lv));
        }
    }
    proof {
        assert(i as int == min3(gt.len() as int, ga.len() as int, gd.len() as int));
    }
    Ok(out)
}

} // verus!
