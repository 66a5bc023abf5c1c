//! The pagination crawler's verified core: URL-shape normalization, page
//! URL construction, and the page-by-page accumulation state machine. The
//! surrounding process fetches each page (blocking I/O) and feeds the
//! markup back in; every decision — which page comes next, when the crawl
//! is complete, what the total is — is made and proved here.

use vstd::prelude::*;
use vstd::string::StringSliceAdditionalSpecFns;
use vstd::utf8::encode_utf8;
use crate::errors::CrawlError;
use crate::extract::{extract_page, host, host_prefix, spec_extract, ParseFail};
use crate::html::{attr_texts, texts_by_attr};
use crate::listing::{Housing, HousingView};
use crate::text::{
    all_digits, contains_seq, contains_str, has_at, is_digit, is_digit_char, match_at,
    parse_u64, seq_to_nat, spec_digits, spec_trim, trim, u64_to_string,
};

verus! {

/// Position of the first occurrence of `pat` in `s`, or `-1` if none.
pub open spec fn first_match(s: Seq<char>, pat: Seq<char>) -> int
    decreases s.len(),
{
    if has_at(s, pat, 0) {
        0
    } else if s.len() == 0 {
        -1
    } else {
        let r = first_match(s.drop_first(), pat);
        if r < 0 {
            -1
        } else {
            1 + r
        }
    }
}

fn find_pat(s: &str, pat: &str) -> (r: Option<usize>)
    ensures
        match r {
            Some(i) => first_match(s@, pat@) == i && has_at(s@, pat@, i as int),
            None => first_match(s@, pat@) == -1,
        },
    decreases s@.len(),
{
    let n = s.unicode_len();
    let m = pat.unicode_len();
    if m <= n && match_at(s, pat, 0) {
        Some(0)
    } else if n == 0 {
        proof {
            assert(!has_at(s@, pat@, 0));
        }
        None
    } else {
        proof {
            if m > n {
                assert(!has_at(s@, pat@, 0));
            }
        }
        let rest = s.substring_char(1, n);
        proof {
            assert(rest@ =~= s@.drop_first());
        }
        match find_pat(rest, pat) {
            Some(i) => {
                proof {
                    assert(s@.subrange(i + 1, i + 1 + m) =~= rest@.subrange(i as int, i + m));
                }
                Some(i + 1)
            },
            None => None,
        }
    }
}

/// A page marker `/P-` followed by a digit stands at position `i` of `s`.
pub open spec fn page_marker_at(s: Seq<char>, i: int) -> bool {
    has_at(s, "/P-"@, i) && i + 3 < s.len() && is_digit(s[i + 3])
}

/// Position of the last page marker in `s`, or `-1` if none.
pub open spec fn last_marker(s: Seq<char>) -> int
    decreases s.len(),
{
    if s.len() < 4 {
        -1
    } else if page_marker_at(s, s.len() - 4) {
        s.len() - 4
    } else {
        last_marker(s.drop_last())
    }
}

fn find_last_marker(s: &str) -> (r: Option<usize>)
    ensures
        match r {
            Some(i) => last_marker(s@) == i && i < s@.len(),
            None => last_marker(s@) == -1,
        },
    decreases s@.len(),
{
    proof {
        reveal_strlit("/P-");
    }
    let n = s.unicode_len();
    if n < 4 {
        None
    } else if match_at(s, "/P-", n - 4) && is_digit_char(s.get_char(n - 1)) {
        Some(n - 4)
    } else {
        let rest = s.substring_char(0, n - 1);
        proof {
            assert(rest@ =~= s@.drop_last());
            assert(!page_marker_at(s@, n - 4));
        }
        find_last_marker(rest)
    }
}

/// Position of the last `/` in `s`, or `-1` if none.
pub open spec fn last_slash(s: Seq<char>) -> int
    decreases s.len(),
{
    if s.len() == 0 {
        -1
    } else if s[s.len() - 1] == '/' {
        s.len() - 1
    } else {
        last_slash(s.drop_last())
    }
}

fn find_last_slash(s: &str) -> (r: Option<usize>)
    ensures
        match r {
            Some(i) => last_slash(s@) == i && i < s@.len(),
            None => last_slash(s@) == -1,
        },
    decreases s@.len(),
{
    let n = s.unicode_len();
    if n == 0 {
        None
    } else if s.get_char(n - 1) == '/' {
        Some(n - 1)
    } else {
        let rest = s.substring_char(0, n - 1);
        proof {
            assert(rest@ =~= s@.drop_last());
        }
        find_last_slash(rest)
    }
}

/// The page-templated form of a search URL, if the URL matches one of the
/// two known shapes. The search id is taken after the first `/Suche/`
/// marker; in a URL carrying a page marker it extends to the last
/// `/P-<digit>`, otherwise to the last `/`. The id must be non-empty.
pub open spec fn spec_normalize(url: Seq<char>) -> Option<Seq<char>> {
    let f = first_match(url, "/Suche/"@);
    if f < 0 {
        None
    } else {
        let rest = url.skip(f + 7);
        let j = if contains_seq(url, "/P-"@) {
            last_marker(rest)
        } else {
            last_slash(rest)
        };
        if j >= 1 {
            Some("/Suche/"@ + rest.take(j) + "/P-"@)
        } else {
            None
        }
    }
}

/// Rewrites a search URL into the canonical `/Suche/<id>/P-` page template
/// that a page number can be appended to. Fails with `UrlFormat` exactly
/// when the URL matches neither known shape.
pub fn normalize_search_url(url: &str) -> (r: Result<String, CrawlError>)
    ensures
        match r {
            Ok(t) => spec_normalize(url@) == Some(t@),
            Err(e) => spec_normalize(url@) is None && e is UrlFormat,
        },
{
    proof {
        reveal_strlit("/Suche/");
        reveal_strlit("/P-");
    }
    let n = url.unicode_len();
    let f = match find_pat(url, "/Suche/") {
        Some(i) => i,
        None => {
            return Err(CrawlError::UrlFormat);
        },
    };
    let rest = url.substring_char(f + 7, n);
    proof {
        assert(rest@ =~= url@.skip(f + 7));
    }
    let j_opt = if contains_str(url, "/P-") {
        find_last_marker(rest)
    } else {
        find_last_slash(rest)
    };
    match j_opt {
        Some(j) if j >= 1 => {
            let id = rest.substring_char(0, j);
            proof {
                assert(id@ =~= rest@.take(j as int));
            }
            Ok(String::from_str("/Suche/").concat(id).concat("/P-"))
        },
        _ => Err(CrawlError::UrlFormat),
    }
}


proof fn lemma_first_match_is(s: Seq<char>, pat: Seq<char>, i: int)
    requires
        has_at(s, pat, i),
        forall|k: int| 0 <= k < i ==> !has_at(s, pat, k),
    ensures
        first_match(s, pat) == i,
    decreases i,
{
    if i == 0 {
    } else {
        assert(!has_at(s, pat, 0));
        assert(s.len() > 0);
        let rest = s.drop_first();
        assert(has_at(rest, pat, i - 1)) by {
            assert(rest.subrange(i - 1, i - 1 + pat.len()) =~= s.subrange(i, i + pat.len()));
        }
        assert forall|k: int| 0 <= k < i - 1 implies !has_at(rest, pat, k) by {
            if has_at(rest, pat, k) {
                assert(s.subrange(k + 1, k + 1 + pat.len()) =~= rest.subrange(k, k + pat.len()));
                assert(has_at(s, pat, k + 1));
            }
        }
        lemma_first_match_is(rest, pat, i - 1);
    }
}

/// Idempotence across the two known URL shapes: a search URL already
/// carrying a page marker (`/Suche/<id>/P-<digit>`) and the same search
/// without one (`/Suche/<id>/`) normalize to one and the same page
/// template, `/Suche/<id>/P-`. The prefix must hold no earlier `/Suche/`
/// marker, and only the paged shape may contain `/P-`.
pub proof fn lemma_url_shape_idempotence(p: Seq<char>, id: Seq<char>, d: char)
    requires
        id.len() >= 1,
        is_digit(d),
        forall|k: int| 0 <= k < p.len() ==> !has_at(p + "/Suche/"@, "/Suche/"@, k),
        !contains_seq(p + "/Suche/"@ + id + "/"@, "/P-"@),
    ensures
        spec_normalize(p + "/Suche/"@ + id + "/P-"@ + seq![d]) == Some("/Suche/"@ + id + "/P-"@),
        spec_normalize(p + "/Suche/"@ + id + "/"@) == Some("/Suche/"@ + id + "/P-"@),
{
    reveal_strlit("/Suche/");
    reveal_strlit("/P-");
    reveal_strlit("/");
    let suche = "/Suche/"@;
    let marker = "/P-"@;
    let url1 = p + suche + id + marker + seq![d];
    let url2 = p + suche + id + "/"@;
    let f = p.len() as int;

    assert(has_at(url1, suche, f)) by {
        assert(url1.subrange(f, f + 7) =~= suche);
    }
    assert(has_at(url2, suche, f)) by {
        assert(url2.subrange(f, f + 7) =~= suche);
    }
    assert forall|k: int| 0 <= k < f implies !has_at(url1, suche, k) by {
        if has_at(url1, suche, k) {
            assert((p + suche).subrange(k, k + 7) =~= url1.subrange(k, k + 7));
            assert(has_at(p + suche, suche, k));
        }
    }
    assert forall|k: int| 0 <= k < f implies !has_at(url2, suche, k) by {
        if has_at(url2, suche, k) {
            assert((p + suche).subrange(k, k + 7) =~= url2.subrange(k, k + 7));
            assert(has_at(p + suche, suche, k));
        }
    }
    lemma_first_match_is(url1, suche, f);
    lemma_first_match_is(url2, suche, f);

    let rest1 = url1.skip(f + 7);
    assert(rest1 =~= id + marker + seq![d]);
    assert(has_at(url1, marker, f + 7 + id.len() as int)) by {
        assert(url1.subrange(f + 7 + id.len() as int, f + 7 + id.len() as int + 3) =~= marker);
    }
    assert(contains_seq(url1, marker));
    assert(page_marker_at(rest1, id.len() as int)) by {
        assert(rest1.subrange(id.len() as int, id.len() as int + 3) =~= marker);
        assert(rest1[id.len() as int + 3] == d);
    }
    assert(rest1.len() == id.len() + 4);
    assert(last_marker(rest1) == id.len());
    assert(rest1.take(id.len() as int) =~= id);

    let rest2 = url2.skip(f + 7);
    assert(rest2 =~= id + "/"@);
    assert(!contains_seq(url2, marker));
    assert(rest2[rest2.len() - 1] == '/');
    assert(last_slash(rest2) == id.len());
    assert(rest2.take(id.len() as int) =~= id);
}

/// The crawler for the one supported source site.
pub struct ImmoScout {}

impl ImmoScout {
    /// A URL-pattern test: does this crawler claim `url`? It does exactly
    /// when the URL contains the site's origin.
    pub fn match_url(&self, url: String) -> (r: bool)
        ensures
            r == contains_seq(url@, host()),
    {
        contains_str(url.as_str(), host_prefix())
    }

    /// Extracts one page of markup; see [`extract_page`].
    pub fn extract_data(&self, data: String) -> (r: Result<Vec<Housing>, CrawlError>)
        requires
            encode_utf8(data@).len() <= u32::MAX,
        ensures
            match r {
                Ok(v) => spec_extract(data@) == Ok::<Seq<HousingView>, ParseFail>(v.deep_view()),
                Err(e) => {
                    &&& spec_extract(data@) is Err
                    &&& e matches CrawlError::Parse { field, text } && Err::<
                        Seq<HousingView>,
                        ParseFail,
                    >(ParseFail { field: field@, text: text@ }) == spec_extract(data@)
                },
            },
    {
        extract_page(data.as_str())
    }
}

/// Resolves a URL to the crawler that claims it: the registry holds the
/// known crawlers in a fixed order and the first match wins. `None` is a
/// configuration error, distinct from any fetch or parse failure.
pub fn get_crawler(url: String) -> (r: Option<ImmoScout>)
    ensures
        r is Some <==> contains_seq(url@, host()),
{
    let crawler = ImmoScout {  };
    if crawler.match_url(url) {
        Some(crawler)
    } else {
        None
    }
}

/// The total result count declared on a page, if its count element is
/// present and its trimmed text is a `u64` digit string.
pub open spec fn spec_count(html: Seq<char>) -> Option<u64> {
    let texts = attr_texts(html, "data-is24-qa"@, "resultlist-resultCount"@);
    if texts.len() == 0 {
        None
    } else {
        let t = spec_trim(texts[0]);
        if t.len() > 0 && all_digits(t) && seq_to_nat(t) <= u64::MAX {
            Some(seq_to_nat(t) as u64)
        } else {
            None
        }
    }
}

/// One search's crawl in progress: the page template, the next page to
/// fetch, the total declared by page 1 (once seen), and the listings
/// accumulated so far in page-then-position order.
pub struct CrawlSession {
    pub template: String,
    pub next_page: u64,
    pub total: Option<u64>,
    pub entries: Vec<Housing>,
}

impl CrawlSession {
    /// Opens a crawl for a search URL: normalizes it and positions the
    /// session at page 1 with nothing accumulated.
    pub fn start(url: &str) -> (r: Result<CrawlSession, CrawlError>)
        ensures
            match r {
                Ok(s) => {
                    &&& spec_normalize(url@) == Some(s.template@)
                    &&& s.next_page == 1
                    &&& s.total is None
                    &&& s.entries@.len() == 0
                },
                Err(e) => spec_normalize(url@) is None && e is UrlFormat,
            },
    {
        match normalize_search_url(url) {
            Ok(t) => Ok(CrawlSession { template: t, next_page: 1, total: None, entries: Vec::new() }),
            Err(e) => Err(e),
        }
    }

    /// The URL of the page to fetch next: origin, template, page number.
    pub fn page_url(&self) -> (r: String)
        ensures
            r@ == host() + self.template@ + spec_digits(self.next_page as int),
    {
        String::from_str(host_prefix()).concat(self.template.as_str()).concat(
            u64_to_string(self.next_page).as_str(),
        )
    }

    /// Feeds the fetched markup of the current page into the session. On
    /// the first page the declared total is read from the count element.
    /// Returns `Ok(true)` when the accumulated listings have reached the
    /// declared total, `Ok(false)` when another page is owed. On any parse
    /// failure the session is unchanged and the whole crawl is abandoned.
    ///
    /// Termination of the surrounding fetch loop rests entirely on the
    /// site-declared total: there is no independent page cap, so a total
    /// larger than what the pages actually yield keeps the loop asking for
    /// more pages.
    pub fn feed_page(&mut self, markup: &str) -> (r: Result<bool, CrawlError>)
        requires
            old(self).next_page < u64::MAX,
            markup.spec_bytes().len() <= u32::MAX,
        ensures
            final(self).template@ == old(self).template@,
            match r {
                Ok(done) => {
                    &&& spec_extract(markup@) is Ok
                    &&& final(self).entries.deep_view() == old(self).entries.deep_view()
                        + spec_extract(markup@)->Ok_0
                    &&& final(self).next_page == old(self).next_page + 1
                    &&& final(self).total == (if old(self).total is Some {
                        old(self).total
                    } else {
                        spec_count(markup@)
                    })
                    &&& final(self).total is Some
                    &&& done <==> final(self).entries@.len() >= final(self).total->0
                },
                Err(e) => {
                    &&& final(self).entries.deep_view() == old(self).entries.deep_view()
                    &&& final(self).next_page == old(self).next_page
                    &&& final(self).total == old(self).total
                    &&& match e {
                        CrawlError::Parse { field, text } => {
                            if old(self).total is None && spec_count(markup@) is None {
                                field@ == "resultCount"@
                            } else {
                                spec_extract(markup@) == Err::<Seq<HousingView>, ParseFail>(
                                    ParseFail { field: field@, text: text@ },
                                )
                            }
                        },
                        _ => false,
                    }
                },
            },
    {
        let total: u64 = match &self.total {
            Some(t) => *t,
            None => {
                let texts = texts_by_attr(markup, "data-is24-qa", "resultlist-resultCount");
                if texts.len() == 0 {
                    return Err(
                        CrawlError::Parse {
                            field: String::from_str("resultCount"),
                            text: String::new(),
                        },
                    );
                }
                let raw = &texts[0];
                proof {
                    assert(raw@ == attr_texts(markup@, "data-is24-qa"@, "resultlist-resultCount"@)[0]);
                }
                match parse_u64(trim(raw.as_str())) {
                    Some(v) => v,
                    None => {
                        return Err(
                            CrawlError::Parse {
                                field: String::from_str("resultCount"),
                                text: raw.clone(),
                            },
                        );
                    },
                }
            },
        };
        let mut fresh = match extract_page(markup) {
            Ok(v) => v,
            Err(e) => {
                return Err(e);
            },
        };
        let ghost pre = self.entries.deep_view();
        let ghost fv = fresh.deep_view();
        self.entries.append(&mut fresh);
        proof {
            assert(self.entries.deep_view() =~= pre + fv);
        }
        self.total = Some(total);
        self.next_page = self.next_page + 1;
        Ok(self.entries.len() as u64 >= total)
    }
}

/// With `per_page` listings arriving on every full page, the crawl is
/// complete exactly after the ceiling of `total / per_page` pages: that
/// many pages cover the declared total, one fewer does not.
pub proof fn lemma_pages_needed(total: int, per_page: int)
    requires
        total >= 1,
        per_page >= 1,
    ensures
        ((total + per_page - 1) / per_page) * per_page >= total,
        (((total + per_page - 1) / per_page) - 1) * per_page < total,
        (total + per_page - 1) / per_page >= 1,
{
    let q = (total + per_page - 1) / per_page;
    let r = (total + per_page - 1) % per_page;
    vstd::arithmetic::div_mod::lemma_fundamental_div_mod(total + per_page - 1, per_page);
    vstd::arithmetic::div_mod::lemma_mod_bound(total + per_page - 1, per_page);
    assert(total + per_page - 1 == per_page * q + r);
    assert(q * per_page == total - 1 - r + per_page) by (nonlinear_arith)
        requires
            total + per_page - 1 == per_page * q + r,
    ;
    assert((q - 1) * per_page == q * per_page - per_page) by (nonlinear_arith);
    assert(q >= 1) by (nonlinear_arith)
        requires
            q * per_page >= total,
            total >= 1,
            per_page >= 1,
    ;
}

} // verus!
