//! URL building, slug parsing, template substitution and render-time
//! composition: Markdown pages and the sitemap.

use chrono::TimeZone;
use vstd::prelude::*;
use vstd::string::StringSliceAdditionalSpecFns;
use vstd::string::StrSliceExecFns;
use vstd::string::StringExecFns;
use vstd::utf8::encode_utf8;

use crate::escape::escape_xml;
use crate::escape::escape_xml_spec;
use crate::inject::additions_spec;
use crate::inject::inject_seo_meta;
use crate::inject::inject_spec;
use crate::inject::joined_keywords;
use crate::store::EntryView;
use crate::store::load_ok;
use crate::store::loaded_meta;
use crate::store::PageMeta;
use crate::store::PageStore;
use crate::store::SeoMetaView;
use crate::store::SpecStoreError;
use crate::store::StoreError;
use crate::store::StoreView;
use crate::strutil::string_push_char;
use crate::validate::find_match_idx;
use crate::validate::lemma_find_match_idx_char;
use crate::scan::match_at;

verus! {

// ---------------------------------------------------------------------------
// Page URLs and slugs
// ---------------------------------------------------------------------------

/// The site-relative URL of a page: its title and id joined by `+`, or the
/// bare id when the title is empty.
pub open spec fn page_url_spec(page_id: Seq<char>, seo_title: Seq<char>) -> Seq<char> {
    if seo_title.len() == 0 {
        "/pages/"@ + page_id
    } else {
        "/pages/"@ + seo_title + "+"@ + page_id
    }
}

/// Builds the site-relative URL of a page.
pub fn build_page_url(page_id: &str, seo_title: &str) -> (r: String)
    ensures
        r@ == page_url_spec(page_id@, seo_title@),
{
    let mut out = String::from_str("/pages/");
    if !seo_title.is_empty() {
        out.append(seo_title);
        out.append("+");
        proof {
            reveal_strlit("+");
        }
    }
    out.append(page_id);
    out
}

/// The index of the last `+` strictly before `i`, if any.
pub open spec fn last_plus_idx(s: Seq<char>, i: int) -> Option<int>
    decreases i,
{
    if i <= 0 || i > s.len() {
        None
    } else if s[i - 1] == '+' {
        Some(i - 1)
    } else {
        last_plus_idx(s, i - 1)
    }
}

/// The id carried by a page slug: everything after the last `+`, or the
/// whole slug when it has none; an empty result is no id.
pub open spec fn slug_id_spec(s: Seq<char>) -> Option<Seq<char>> {
    let id = match last_plus_idx(s, s.len() as int) {
        Some(p) => s.skip(p + 1),
        None => s,
    };
    if id.len() == 0 {
        None
    } else {
        Some(id)
    }
}

/// Parses the page id out of a slug: only the right-most `+` separates the
/// title from the id, so titles containing `+` still parse correctly.
pub fn parse_page_id_from_slug(slug: &str) -> (r: Option<String>)
    ensures
        match r {
            Some(id) => slug_id_spec(slug@) == Some(id@),
            None => slug_id_spec(slug@) is None,
        },
{
    let n = slug.unicode_len();
    let mut i: usize = n;
    while i > 0 && slug.get_char(i - 1) != '+'
        invariant
            0 <= i <= n,
            n == slug@.len(),
            last_plus_idx(slug@, n as int) == last_plus_idx(slug@, i as int),
        decreases i,
    {
        i = i - 1;
    }
    let start: usize = if i > 0 {
        proof {
            assert(last_plus_idx(slug@, n as int) == Some(i - 1));
        }
        i
    } else {
        proof {
            assert(last_plus_idx(slug@, n as int) is None);
        }
        0
    };
    if start >= n {
        return None;
    }
    let mut out = String::new();
    let mut k: usize = start;
    while k < n
        invariant
            start <= k <= n,
            n == slug@.len(),
            out@ =~= slug@.subrange(start as int, k as int),
        decreases n - k,
    {
        string_push_char(&mut out, slug.get_char(k));
        proof {
            assert(out@ =~= slug@.subrange(start as int, k + 1));
        }
        k = k + 1;
    }
    proof {
        assert(out@ =~= slug@.skip(start as int));
    }
    Some(out)
}

/// The base URL with every trailing `/` removed.
pub open spec fn no_slash_end(s: Seq<char>, i: int) -> int
    decreases i,
{
    if i <= 0 || i > s.len() {
        0
    } else if s[i - 1] == '/' {
        no_slash_end(s, i - 1)
    } else {
        i
    }
}

pub open spec fn normalized_base_spec(s: Seq<char>) -> Seq<char> {
    s.take(no_slash_end(s, s.len() as int))
}

/// Strips trailing `/` characters from a base URL.
pub fn normalize_base_url(base_url: &str) -> (r: String)
    ensures
        r@ == normalized_base_spec(base_url@),
{
    let n = base_url.unicode_len();
    let mut i: usize = n;
    while i > 0 && base_url.get_char(i - 1) == '/'
        invariant
            0 <= i <= n,
            n == base_url@.len(),
            no_slash_end(base_url@, n as int) == no_slash_end(base_url@, i as int),
        decreases i,
    {
        i = i - 1;
    }
    proof {
        assert(no_slash_end(base_url@, n as int) == i);
    }
    let mut out = String::new();
    let mut k: usize = 0;
    while k < i
        invariant
            0 <= k <= i <= n,
            n == base_url@.len(),
            out@ =~= base_url@.take(k as int),
        decreases i - k,
    {
        string_push_char(&mut out, base_url.get_char(k));
        proof {
            assert(out@ =~= base_url@.take(k + 1));
        }
        k = k + 1;
    }
    out
}

/// The absolute URL of a page under a base URL.
pub open spec fn full_url_spec(base: Seq<char>, page_id: Seq<char>, seo_title: Seq<char>) -> Seq<
    char,
> {
    normalized_base_spec(base) + page_url_spec(page_id, seo_title)
}

/// Joins a (trimmed) base URL and a page's site-relative URL.
pub fn build_page_full_url(base_url: &str, page_id: &str, seo_title: &str) -> (r: String)
    ensures
        r@ == full_url_spec(base_url@, page_id@, seo_title@),
{
    let mut out = normalize_base_url(base_url);
    let path = build_page_url(page_id, seo_title);
    out.append(path.as_str());
    out
}

// ---------------------------------------------------------------------------
// Template substitution
// ---------------------------------------------------------------------------

/// Every occurrence of `pat` replaced by `rep`, scanning left to right.
pub open spec fn replace_all_spec(h: Seq<u8>, pat: Seq<u8>, rep: Seq<u8>) -> Seq<u8>
    decreases h.len(),
    via replace_all_spec_dec
{
    if pat.len() == 0 {
        h
    } else {
        match find_match_idx(h, pat, 0) {
            None => h,
            Some(p) => h.take(p) + rep + replace_all_spec(h.skip(p + pat.len()), pat, rep),
        }
    }
}

#[via_fn]
proof fn replace_all_spec_dec(h: Seq<u8>, pat: Seq<u8>, rep: Seq<u8>) {
    if pat.len() > 0 {
        lemma_find_match_idx_char(h, pat, 0);
    }
}

/// Matches in a suffix sit shifted in the whole sequence.
proof fn lemma_find_shift(h: Seq<u8>, pat: Seq<u8>, cur: int)
    requires
        pat.len() > 0,
        0 <= cur <= h.len(),
    ensures
        match find_match_idx(h.skip(cur), pat, 0) {
            Some(j) => find_match_idx(h, pat, cur) == Some(cur + j),
            None => find_match_idx(h, pat, cur) is None,
        },
{
    let suf = h.skip(cur);
    lemma_find_match_idx_char(suf, pat, 0);
    lemma_find_match_idx_char(h, pat, cur);
    assert forall|j: int| 0 <= j implies match_at(suf, pat, j) == match_at(h, pat, cur + j) by {
        if j + pat.len() <= suf.len() {
            assert(suf.subrange(j, j + pat.len() as int) =~= h.subrange(
                cur + j,
                cur + j + pat.len() as int,
            ));
        }
    }
    match find_match_idx(suf, pat, 0) {
        Some(j) => {
            assert(match_at(h, pat, cur + j));
            match find_match_idx(h, pat, cur) {
                Some(g) => {
                    if g < cur + j {
                        assert(match_at(h, pat, g));
                        assert(match_at(suf, pat, g - cur));
                        assert(false);
                    }
                    if g > cur + j {
                        assert(!match_at(h, pat, cur + j));
                        assert(false);
                    }
                },
                None => {
                    assert(!match_at(h, pat, cur + j));
                    assert(false);
                },
            }
        },
        None => {
            match find_match_idx(h, pat, cur) {
                Some(g) => {
                    assert(match_at(h, pat, g));
                    assert(match_at(suf, pat, g - cur));
                    assert(false);
                },
                None => {},
            }
        },
    }
}

/// Replaces every occurrence of `pat` in `h` by `rep`.
pub fn replace_all(h: &[u8], pat: &[u8], rep: &[u8]) -> (r: Vec<u8>)
    ensures
        r@ == replace_all_spec(h@, pat@, rep@),
{
    if pat.len() == 0 {
        let mut out: Vec<u8> = Vec::new();
        out.extend_from_slice(h);
        return out;
    }
    let mut out: Vec<u8> = Vec::new();
    let mut cur: usize = 0;
    proof {
        assert(h@.skip(0) =~= h@);
    }
    while cur < h.len()
        invariant
            0 <= cur <= h@.len(),
            pat@.len() > 0,
            replace_all_spec(h@, pat@, rep@) == out@ + replace_all_spec(
                h@.skip(cur as int),
                pat@,
                rep@,
            ),
        decreases h@.len() - cur,
    {
        let ghost before = out@;
        proof {
            lemma_find_shift(h@, pat@, cur as int);
            lemma_find_match_idx_char(h@, pat@, cur as int);
        }
        match crate::scan::find_bytes(h, cur, pat) {
            Some(p) => {
                proof {
                    let spec_p = find_match_idx(h@, pat@, cur as int);
                    assert(match_at(h@, pat@, p as int));
                    if spec_p is Some && spec_p.unwrap() < p {
                        assert(match_at(h@, pat@, spec_p.unwrap()));
                    }
                    if spec_p is Some && spec_p.unwrap() > p {
                        assert(!match_at(h@, pat@, p as int));
                    }
                    assert(spec_p == Some(p as int));
                }
                out.extend_from_slice(&h[cur..p]);
                out.extend_from_slice(rep);
                proof {
                    let suf = h@.skip(cur as int);
                    assert(find_match_idx(suf, pat@, 0) == Some(p - cur)) by {
                        lemma_find_shift(h@, pat@, cur as int);
                        if find_match_idx(suf, pat@, 0) is None {
                            assert(false);
                        }
                    }
                    assert(suf.take(p - cur) =~= h@.subrange(cur as int, p as int));
                    assert(suf.skip(p - cur + pat@.len()) =~= h@.skip(p + pat@.len()));
                    assert(replace_all_spec(suf, pat@, rep@) == suf.take(p - cur) + rep@
                        + replace_all_spec(h@.skip(p + pat@.len()), pat@, rep@));
                    assert(out@ =~= before + h@.subrange(cur as int, p as int) + rep@);
                }
                cur = p + pat.len();
            },
            None => {
                proof {
                    let spec_p = find_match_idx(h@, pat@, cur as int);
                    if spec_p is Some {
                        assert(match_at(h@, pat@, spec_p.unwrap()));
                    }
                    assert(spec_p is None);
                    lemma_find_shift(h@, pat@, cur as int);
                    assert(find_match_idx(h@.skip(cur as int), pat@, 0) is None) by {
                        if find_match_idx(h@.skip(cur as int), pat@, 0) is Some {
                            assert(false);
                        }
                    }
                    assert(replace_all_spec(h@.skip(cur as int), pat@, rep@) == h@.skip(
                        cur as int,
                    ));
                }
                out.extend_from_slice(&h[cur..h.len()]);
                proof {
                    assert(out@ =~= before + h@.skip(cur as int));
                }
                return out;
            },
        }
    }
    proof {
        assert(h@.skip(cur as int) =~= Seq::<u8>::empty());
        assert(replace_all_spec(Seq::<u8>::empty(), pat@, rep@) == Seq::<u8>::empty());
        assert(out@ + Seq::<u8>::empty() =~= out@);
    }
    out
}

/// A template error: the named placeholder does not occur.
#[derive(Debug, Clone, PartialEq, Eq)]
pub enum TemplateError {
    MissingPlaceholder { key: String },
}

/// The placeholder bytes of a key: the key wrapped in double braces.
pub open spec fn placeholder_spec(key: Seq<char>) -> Seq<u8> {
    "{{".spec_bytes() + encode_utf8(key) + "}}".spec_bytes()
}

/// Substitutes values for `{{key}}` placeholders, in order.  Fails when a
/// placeholder does not occur in the text being substituted into.
pub fn replace_template(template: &str, values: &[(&str, &str)]) -> (r: Result<
    Vec<u8>,
    TemplateError,
>)
    ensures
        ({
            let steps = values@.map_values(
                |p: (&str, &str)| (placeholder_spec(p.0@), p.1.spec_bytes()),
            );
            match r {
                Ok(out) => out@ == spec_substitute_all(template.spec_bytes(), steps, steps.len() as int)
                    && spec_substitute_ok(template.spec_bytes(), steps, steps.len() as int),
                Err(_) => !spec_substitute_ok(template.spec_bytes(), steps, steps.len() as int),
            }
        }),
{
    let ghost steps = values@.map_values(
        |p: (&str, &str)| (placeholder_spec(p.0@), p.1.spec_bytes()),
    );
    let mut out: Vec<u8> = Vec::new();
    out.extend_from_slice(template.as_bytes());
    let mut i: usize = 0;
    while i < values.len()
        invariant
            0 <= i <= values@.len(),
            steps == values@.map_values(
                |p: (&str, &str)| (placeholder_spec(p.0@), p.1.spec_bytes()),
            ),
            out@ == spec_substitute_all(template.spec_bytes(), steps, i as int),
            spec_substitute_ok(template.spec_bytes(), steps, i as int),
        decreases values@.len() - i,
    {
        let (key, value) = values[i];
        let mut pat: Vec<u8> = Vec::new();
        crate::inject::append_lit(&mut pat, "{{");
        pat.extend_from_slice(key.as_bytes());
        crate::inject::append_lit(&mut pat, "}}");
        proof {
            assert(pat@ == steps[i as int].0);
            if pat@.len() > 0 {
                lemma_find_match_idx_char(out@, pat@, 0);
            }
        }
        match crate::scan::find_bytes(out.as_slice(), 0, pat.as_slice()) {
            None => {
                proof {
                    if find_match_idx(out@, pat@, 0) is Some {
                        assert(match_at(out@, pat@, find_match_idx(out@, pat@, 0).unwrap()));
                    }
                    assert(!spec_substitute_ok(template.spec_bytes(), steps, i + 1));
                    lemma_substitute_ok_mono(
                        template.spec_bytes(),
                        steps,
                        i + 1,
                        steps.len() as int,
                    );
                }
                return Err(TemplateError::MissingPlaceholder { key: key.to_owned() });
            },
            Some(j) => {
                proof {
                    if pat@.len() > 0 {
                        assert(match_at(out@, pat@, j as int));
                        if find_match_idx(out@, pat@, 0) is None {
                            assert(false);
                        }
                    }
                    assert(spec_substitute_ok(template.spec_bytes(), steps, i + 1));
                }
            },
        }
        let new_out = replace_all(out.as_slice(), pat.as_slice(), value.as_bytes());
        out = new_out;
        i = i + 1;
    }
    Ok(out)
}

/// A failed substitution step stays failed at every later step count.
pub proof fn lemma_substitute_ok_mono(h: Seq<u8>, steps: Seq<(Seq<u8>, Seq<u8>)>, a: int, b: int)
    requires
        a <= b,
        !spec_substitute_ok(h, steps, a),
    ensures
        !spec_substitute_ok(h, steps, b),
    decreases b - a,
{
    if a < b {
        lemma_substitute_ok_mono(h, steps, a, b - 1);
    }
}

/// The text after the first `n` substitution steps.
pub open spec fn spec_substitute_all(h: Seq<u8>, steps: Seq<(Seq<u8>, Seq<u8>)>, n: int) -> Seq<
    u8,
>
    decreases n,
{
    if n <= 0 {
        h
    } else {
        let prev = spec_substitute_all(h, steps, n - 1);
        replace_all_spec(prev, steps[n - 1].0, steps[n - 1].1)
    }
}

/// Every one of the first `n` placeholders occurs in the text it is
/// substituted into.
pub open spec fn spec_substitute_ok(h: Seq<u8>, steps: Seq<(Seq<u8>, Seq<u8>)>, n: int) -> bool
    decreases n,
{
    if n <= 0 {
        true
    } else {
        spec_substitute_ok(h, steps, n - 1) && (steps[n - 1].0.len() == 0 || find_match_idx(
            spec_substitute_all(h, steps, n - 1),
            steps[n - 1].0,
            0,
        ) is Some)
    }
}

} // verus!

verus! {

// ---------------------------------------------------------------------------
// Markdown and timestamps
// ---------------------------------------------------------------------------

/// What pulldown_cmark renders a markdown text to.
pub uninterp spec fn markdown_html_of(md: Seq<char>) -> Seq<char>;

/// Relies on pulldown_cmark (`Parser::new_ext`, `html::push_html`):
/// CommonMark rendering with tables, footnotes, strikethrough and task lists
/// enabled; the result depends on the markdown text alone.
#[verifier::external_body]
pub fn markdown_to_html(markdown: &str) -> (r: String)
    ensures
        r@ == markdown_html_of(markdown@),
{
    let mut options = pulldown_cmark::Options::empty();
    options.insert(pulldown_cmark::Options::ENABLE_TABLES);
    options.insert(pulldown_cmark::Options::ENABLE_FOOTNOTES);
    options.insert(pulldown_cmark::Options::ENABLE_STRIKETHROUGH);
    options.insert(pulldown_cmark::Options::ENABLE_TASKLISTS);
    let parser = pulldown_cmark::Parser::new_ext(markdown, options);
    let mut output = String::new();
    pulldown_cmark::html::push_html(&mut output, parser);
    output
}

/// What chrono renders a UTC unix timestamp to in RFC 3339 form.
pub uninterp spec fn rfc3339_utc_of(ts: int) -> Seq<char>;

/// Relies on chrono (`TimeZone::timestamp_opt`, `DateTime::to_rfc3339`): the
/// RFC 3339 text of a UTC timestamp, a function of the timestamp alone; out
/// of chrono's range it falls back to the epoch.  Never panics.
#[verifier::external_body]
fn format_ts_rfc3339(ts: i64) -> (r: String)
    ensures
        r@ == rfc3339_utc_of(ts as int),
{
    let fallback = chrono::DateTime::<chrono::Utc>::UNIX_EPOCH;
    let dt = chrono::Utc.timestamp_opt(ts, 0).single().unwrap_or(fallback);
    dt.to_rfc3339()
}

/// The RFC 3339 text of a timestamp, with negative values clamped to the
/// epoch first.
pub fn format_unix_timestamp(timestamp: i64) -> (r: String)
    ensures
        r@ == rfc3339_utc_of(
            if timestamp < 0 {
                0int
            } else {
                timestamp as int
            },
        ),
{
    let safe: i64 = if timestamp < 0 {
        0
    } else {
        timestamp
    };
    format_ts_rfc3339(safe)
}

// ---------------------------------------------------------------------------
// Page and sitemap rendering
// ---------------------------------------------------------------------------

/// The title shown for a page: the display title, or the legacy `seo_title`
/// when the display title is empty.
pub open spec fn display_title(seo: SeoMetaView) -> Seq<char> {
    if seo.title.len() == 0 {
        seo.seo_title
    } else {
        seo.title
    }
}

/// Renders a loaded page for serving: injects the page's SEO metadata, under
/// its display title, into its stored HTML.
pub fn render_page_html(meta: &PageMeta, html: &str) -> (r: Vec<u8>)
    ensures
        r@ == inject_spec(
            html.spec_bytes(),
            additions_spec(
                encode_utf8(display_title(meta@.seo)),
                encode_utf8(meta.seo.description@),
                joined_keywords(meta@.seo.keywords),
            ),
        ),
{
    if meta.seo.title.as_str().is_empty() {
        inject_seo_meta(html, meta.seo.seo_title.as_str(), &meta.seo)
    } else {
        inject_seo_meta(html, meta.seo.title.as_str(), &meta.seo)
    }
}

/// Renders a markdown page body into the site template: the markdown is
/// rendered to HTML and substituted, with the shared header, into the
/// template's placeholders.
pub fn render_markdown_page(markdown: &str, header_html: &str, template: &str) -> (r: Result<
    Vec<u8>,
    TemplateError,
>)
    ensures
        ({
            let steps = seq![
                (placeholder_spec("site_header"@), header_html.spec_bytes()),
                (placeholder_spec("markdown_html"@), encode_utf8(markdown_html_of(markdown@))),
            ];
            match r {
                Ok(out) => out@ == spec_substitute_all(template.spec_bytes(), steps, 2)
                    && spec_substitute_ok(template.spec_bytes(), steps, 2),
                Err(_) => !spec_substitute_ok(template.spec_bytes(), steps, 2),
            }
        }),
{
    let md_html = markdown_to_html(markdown);
    let mut values: Vec<(&str, &str)> = Vec::new();
    values.push(("site_header", header_html));
    values.push(("markdown_html", md_html.as_str()));
    let r = replace_template(template, values.as_slice());
    proof {
        let steps = seq![
            (placeholder_spec("site_header"@), header_html.spec_bytes()),
            (placeholder_spec("markdown_html"@), encode_utf8(markdown_html_of(markdown@))),
        ];
        assert(values@.map_values(|p: (&str, &str)| (placeholder_spec(p.0@), p.1.spec_bytes()))
            =~= steps);
    }
    r
}

/// The first indexed entry whose page cannot be loaded, scanning from `i`.
pub open spec fn first_bad_entry(s: StoreView, x: Seq<EntryView>, i: int) -> Option<int>
    decreases x.len() - i,
{
    if i < 0 || i >= x.len() {
        None
    } else if !load_ok(s, x[i].page_id) {
        Some(i)
    } else {
        first_bad_entry(s, x, i + 1)
    }
}

/// One `<url>` element of the sitemap.
pub open spec fn sitemap_entry_bytes(s: StoreView, e: EntryView, base: Seq<char>) -> Seq<u8> {
    "  <url>\n    <loc>".spec_bytes() + escape_xml_spec(
        encode_utf8(full_url_spec(base, e.page_id, e.seo.seo_title)),
    ) + "</loc>\n    <lastmod>".spec_bytes() + escape_xml_spec(
        encode_utf8(
            rfc3339_utc_of(
                if loaded_meta(s, e.page_id).updated_at < 0 {
                    0int
                } else {
                    loaded_meta(s, e.page_id).updated_at
                },
            ),
        ),
    )
        + "</lastmod>\n    <changefreq>weekly</changefreq>\n    <priority>0.8</priority>\n  </url>\n".spec_bytes()
}

/// The sitemap's `<url>` elements for the first `n` index entries.
pub open spec fn sitemap_body_spec(s: StoreView, x: Seq<EntryView>, base: Seq<char>, n: int) -> Seq<
    u8,
>
    decreases n,
{
    if n <= 0 {
        Seq::empty()
    } else {
        sitemap_body_spec(s, x, base, n - 1) + sitemap_entry_bytes(s, x[n - 1], base)
    }
}

/// The XML prologue and the opening of the url set.
pub open spec fn sitemap_header_bytes() -> Seq<u8> {
    "<?xml version=\"1.0\" encoding=\"UTF-8\"?>\n<urlset xmlns=\"http://www.sitemaps.org/schemas/sitemap/0.9\">\n".spec_bytes()
}

/// Renders the sitemap: one `<url>` element per indexed page, in index
/// order, each with its absolute page URL and its last-modified time.  Fails
/// with the load error of the first indexed page that cannot be loaded.
pub fn render_sitemap_xml(store: &PageStore, base_url: &str) -> (r: Result<Vec<u8>, StoreError>)
    requires
        store.wf(),
    ensures
        r is Ok <==> first_bad_entry(store@, store@.index, 0) is None,
        match r {
            Ok(out) => out@ == sitemap_header_bytes() + sitemap_body_spec(
                store@,
                store@.index,
                base_url@,
                store@.index.len() as int,
            ) + "</urlset>".spec_bytes(),
            Err(e) => {
                let k = first_bad_entry(store@, store@.index, 0).unwrap();
                e@ == if crate::store::save_corrupt(store@, store@.index[k].page_id) {
                    SpecStoreError::Corrupt
                } else {
                    SpecStoreError::NotFound
                }
            },
        },
{
    let ghost s = store@;
    let ghost x = store@.index;
    let mut out: Vec<u8> = Vec::new();
    crate::inject::append_lit(
        &mut out,
        "<?xml version=\"1.0\" encoding=\"UTF-8\"?>\n<urlset xmlns=\"http://www.sitemaps.org/schemas/sitemap/0.9\">\n",
    );
    let mut i: usize = 0;
    while i < store.index.pages.len()
        invariant
            store.wf(),
            0 <= i <= store.index.pages@.len(),
            s == store@,
            x == store@.index,
            first_bad_entry(s, x, 0) == first_bad_entry(s, x, i as int),
            out@ == sitemap_header_bytes() + sitemap_body_spec(s, x, base_url@, i as int),
        decreases store.index.pages@.len() - i,
    {
        let ghost before = out@;
        let entry = &store.index.pages[i];
        proof {
            assert(entry@ == x[i as int]);
        }
        let meta = match store.get_page_meta(entry.page_id.as_str()) {
            Ok(m) => m,
            Err(e) => {
                proof {
                    assert(!load_ok(s, x[i as int].page_id));
                    assert(first_bad_entry(s, x, i as int) == Some(i as int));
                }
                return Err(e);
            },
        };
        proof {
            assert(load_ok(s, x[i as int].page_id));
            assert(meta@ == loaded_meta(s, x[i as int].page_id));
        }
        crate::inject::append_lit(&mut out, "  <url>\n    <loc>");
        let url = build_page_full_url(
            base_url,
            entry.page_id.as_str(),
            entry.seo.seo_title.as_str(),
        );
        let mut eu = escape_xml(url.as_str());
        out.append(&mut eu);
        crate::inject::append_lit(&mut out, "</loc>\n    <lastmod>");
        let lastmod = format_unix_timestamp(meta.updated_at);
        let mut el = escape_xml(lastmod.as_str());
        out.append(&mut el);
        crate::inject::append_lit(
            &mut out,
            "</lastmod>\n    <changefreq>weekly</changefreq>\n    <priority>0.8</priority>\n  </url>\n",
        );
        proof {
            assert(out@ =~= before + sitemap_entry_bytes(s, x[i as int], base_url@));
        }
        i = i + 1;
    }
    crate::inject::append_lit(&mut out, "</urlset>");
    proof {
        assert(out@ =~= sitemap_header_bytes() + sitemap_body_spec(
            s,
            x,
            base_url@,
            x.len() as int,
        ) + "</urlset>".spec_bytes());
    }
    Ok(out)
}

} // verus!
