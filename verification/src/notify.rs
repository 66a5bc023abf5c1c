//! Notification content: the human-readable messages and the webhook
//! payload shapes built from a listing. Delivery (console printing, HTTP
//! POST) belongs to the surrounding process; everything it sends is
//! composed and proved here.

use vstd::prelude::*;
use crate::decimal::spec_dec_text;
use crate::listing::Housing;

verus! {

/// The message announcing one new listing.
pub open spec fn spec_new_result_message(h: Housing) -> Seq<char> {
    "New result: "@ + spec_dec_text(h.rooms) + " rooms ("@ + spec_dec_text(h.size)
        + " m\u{b2}) for "@ + spec_dec_text(h.price) + " \u{20ac}: \""@ + h.title@
        + "\". Location: "@ + h.address@ + ". Link: "@ + h.url@
}

/// Renders the new-result announcement for a listing.
pub fn new_result_message(h: &Housing) -> (r: String)
    ensures
        r@ == spec_new_result_message(*h),
{
    String::from_str("New result: ").concat(h.rooms.to_text().as_str()).concat(" rooms (").concat(
        h.size.to_text().as_str(),
    ).concat(" m\u{b2}) for ").concat(h.price.to_text().as_str()).concat(" \u{20ac}: \"").concat(
        h.title.as_str(),
    ).concat("\". Location: ").concat(h.address.as_str()).concat(". Link: ").concat(h.url.as_str())
}

/// The startup announcement.
pub fn bootup_message() -> (r: String)
    ensures
        r@ == "Flathunter has booted and is scanning for flats"@,
{
    String::from_str("Flathunter has booted and is scanning for flats")
}

/// The run-failure announcement around an error description.
pub fn error_message(detail: &String) -> (r: String)
    ensures
        r@ == "Error in Flathunter: "@ + detail@,
{
    String::from_str("Error in Flathunter: ").concat(detail.as_str())
}

/// One name/value pair of a webhook embed.
pub struct EmbedField {
    pub name: String,
    pub value: String,
    pub inline: bool,
}

/// A field-list embed.
pub struct EmbedFields {
    pub fields: Vec<EmbedField>,
}

/// A titled link embed.
pub struct EmbedURL {
    pub title: String,
    pub url: String,
}

/// A plain title embed.
pub struct EmbedTitle {
    pub title: String,
}

/// A plain description embed.
pub struct EmbedDescription {
    pub description: String,
}

/// One embed of a webhook payload.
pub enum Embed {
    Fields(EmbedFields),
    URL(EmbedURL),
    Title(EmbedTitle),
    Description(EmbedDescription),
}

/// Prints messages to standard output; the printing itself is the
/// surrounding process's.
#[derive(Clone, Copy, Debug)]
pub struct StdoutNotifier {}

/// Posts payloads to a configured webhook; the HTTP transport is the
/// surrounding process's.
#[derive(Clone, Copy, Debug)]
pub struct WebhookNotifier {}

/// `a` equals `b` up to ASCII case.
pub open spec fn char_eq_ci(a: char, b: char) -> bool {
    a == b || ('A' <= a && a <= 'Z' && a as int + 32 == b as int) || ('A' <= b && b <= 'Z' && b
        as int + 32 == a as int)
}

/// `s` equals `t` up to ASCII case.
pub open spec fn str_eq_ci(s: Seq<char>, t: Seq<char>) -> bool {
    s.len() == t.len() && forall|i: int| 0 <= i < s.len() ==> char_eq_ci(s[i], #[trigger] t[i])
}

fn chars_eq_ci(a: char, b: char) -> (r: bool)
    ensures
        r == char_eq_ci(a, b),
{
    a == b || ('A' <= a && a <= 'Z' && a as u32 + 32 == b as u32) || ('A' <= b && b <= 'Z' && b
        as u32 + 32 == a as u32)
}

/// Compares two texts ASCII-case-insensitively.
pub fn eq_ignore_case(s: &str, t: &str) -> (r: bool)
    ensures
        r == str_eq_ci(s@, t@),
{
    let n = s.unicode_len();
    let m = t.unicode_len();
    if n != m {
        return false;
    }
    let mut i: usize = 0;
    while i < n
        invariant
            0 <= i <= n,
            n == s@.len(),
            n == t@.len(),
            forall|k: int| 0 <= k < i ==> char_eq_ci(s@[k], #[trigger] t@[k]),
        decreases n - i,
    {
        if !chars_eq_ci(s.get_char(i), t.get_char(i)) {
            return false;
        }
        i = i + 1;
    }
    true
}

impl WebhookNotifier {
    /// The one webhook kind understood: `discord`, compared without regard
    /// to ASCII case.
    pub fn kind_is_discord(&self, kind: &String) -> (r: bool)
        ensures
            r == str_eq_ci(kind@, "discord"@),
    {
        eq_ignore_case(kind.as_str(), "discord")
    }

    /// The embeds of the payload announcing one new listing: a headline
    /// embed followed by a field list with title link, address, rooms,
    /// size and price.
    pub fn new_result_embeds(&self, h: &Housing) -> (r: Vec<Embed>)
        ensures
            r@.len() == 2,
            r@[0] matches Embed::Title(t) && t.title@ == spec_embed_headline(*h),
            r@[1] matches Embed::Fields(f) && {
                &&& f.fields@.len() == 5
                &&& f.fields@[0].name@ == "Title"@ && f.fields@[0].value@ == "["@ + h.title@
                    + "]("@ + h.url@ + ")"@ && !f.fields@[0].inline
                &&& f.fields@[1].name@ == "Address"@ && f.fields@[1].value@ == h.address@
                    && f.fields@[1].inline
                &&& f.fields@[2].name@ == "Rooms"@ && f.fields@[2].value@ == spec_dec_text(h.rooms)
                    && f.fields@[2].inline
                &&& f.fields@[3].name@ == "Size"@ && f.fields@[3].value@ == spec_dec_text(h.size)
                    + " m\u{b2}"@ && f.fields@[3].inline
                &&& f.fields@[4].name@ == "Price"@ && f.fields@[4].value@ == spec_dec_text(h.price)
                    + " \u{20ac}"@ && f.fields@[4].inline
            },
    {
        let headline = String::from_str(h.title.as_str()).concat(" (").concat(
            h.address.as_str(),
        ).concat(" \u{20ac}, ").concat(h.price.to_text().as_str()).concat(" Rooms, ").concat(
            h.rooms.to_text().as_str(),
        ).concat(" m\u{b2}). ").concat(h.size.to_text().as_str()).concat(".");
        let link = String::from_str("[").concat(h.title.as_str()).concat("](").concat(
            h.url.as_str(),
        ).concat(")");
        let mut fields: Vec<EmbedField> = Vec::new();
        fields.push(EmbedField { name: String::from_str("Title"), value: link, inline: false });
        fields.push(
            EmbedField {
                name: String::from_str("Address"),
                value: h.address.clone(),
                inline: true,
            },
        );
        fields.push(
            EmbedField { name: String::from_str("Rooms"), value: h.rooms.to_text(), inline: true },
        );
        fields.push(
            EmbedField {
                name: String::from_str("Size"),
                value: h.size.to_text().concat(" m\u{b2}"),
                inline: true,
            },
        );
        fields.push(
            EmbedField {
                name: String::from_str("Price"),
                value: h.price.to_text().concat(" \u{20ac}"),
                inline: true,
            },
        );
        let mut out: Vec<Embed> = Vec::new();
        out.push(Embed::Title(EmbedTitle { title: headline }));
        out.push(Embed::Fields(EmbedFields { fields }));
        out
    }
}

/// The headline of a new-result webhook payload.
pub open spec fn spec_embed_headline(h: Housing) -> Seq<char> {
    h.title@ + " ("@ + h.address@ + " \u{20ac}, "@ + spec_dec_text(h.price) + " Rooms, "@
        + spec_dec_text(h.rooms) + " m\u{b2}). "@ + spec_dec_text(h.size) + "."@
}

} // verus!
