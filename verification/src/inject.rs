//! SEO metadata injection.
//!
//! The injector rewrites a page's `<head>` region: it strips any existing
//! `<title>` element and any `<meta name="description">` or
//! `<meta name="keywords">` elements, then prepends freshly built tags with
//! escaped values.  When the document has no head, one is synthesized right
//! after the `<html>` open tag, else right before `<body>`, else in front of
//! the whole document.  It always succeeds: this is a best-effort rewrite.

use vstd::prelude::*;
use vstd::string::StringSliceAdditionalSpecFns;
use vstd::utf8::encode_utf8;

use crate::escape::escape_attr_spec;
use crate::escape::escape_html;
use crate::escape::escape_html_attr_bytes;
use crate::escape::escape_html_spec;
use crate::scan::find_bytes_case_insensitive;
use crate::scan::find_tag_end;
use crate::scan::find_tag_end_spec;
use crate::scan::is_ascii_ws;
use crate::scan::lowercase_bytes;
use crate::scan::match_at;
use crate::scan::match_at_ci;
use crate::scan::name_end_idx;
use crate::scan::parse_tag_name_ci;
use crate::scan::skip_ws_idx;
use crate::scan::to_lower_bytes;
use crate::store::SeoMeta;
use crate::validate::all_ws;
use crate::validate::find_match_ci_idx;
use crate::validate::find_match_idx;
use crate::validate::lemma_find_match_ci_idx_char;
use crate::validate::lemma_find_match_idx_char;
use crate::validate::lemma_name_end_bounds;
use crate::validate::lemma_skip_ws_bounds;
use crate::scan::lemma_find_tag_end_spec_bounds;

verus! {

// Lowercase tag-name and needle constants, as byte sequences.
pub open spec fn head_name() -> Seq<u8> {
    seq![104u8, 101, 97, 100]
}

pub open spec fn close_head_needle() -> Seq<u8> {
    seq![60u8, 47, 104, 101, 97, 100]
}

pub open spec fn title_name() -> Seq<u8> {
    seq![116u8, 105, 116, 108, 101]
}

pub open spec fn close_title_needle() -> Seq<u8> {
    seq![60u8, 47, 116, 105, 116, 108, 101]
}

pub open spec fn meta_name() -> Seq<u8> {
    seq![109u8, 101, 116, 97]
}

pub open spec fn html_name() -> Seq<u8> {
    seq![104u8, 116, 109, 108]
}

pub open spec fn body_needle() -> Seq<u8> {
    seq![60u8, 98, 111, 100, 121]
}

pub open spec fn name_needle() -> Seq<u8> {
    seq![110u8, 97, 109, 101]
}

pub open spec fn description_value() -> Seq<u8> {
    seq![100u8, 101, 115, 99, 114, 105, 112, 116, 105, 111, 110]
}

pub open spec fn keywords_value() -> Seq<u8> {
    seq![107u8, 101, 121, 119, 111, 114, 100, 115]
}

pub open spec fn head_open_bytes() -> Seq<u8> {
    "<head>".spec_bytes()
}

pub open spec fn head_close_bytes() -> Seq<u8> {
    "</head>".spec_bytes()
}

/// The tag-name parse that the injector uses at a `<`: whitespace skipped,
/// one `/` allowed, then name bytes.  Yields the range of the name.
pub open spec fn ci_name_start(h: Seq<u8>, i: int) -> int {
    let s = skip_ws_idx(h, i + 1);
    if 0 <= s < h.len() && h[s] == 47 {
        s + 1
    } else {
        s
    }
}

pub open spec fn ci_name_end(h: Seq<u8>, i: int) -> int {
    name_end_idx(h, ci_name_start(h, i))
}

/// The lowercase tag name parsed at `i`, when there is one.
pub open spec fn ci_name_at(h: Seq<u8>, i: int) -> Option<Seq<u8>> {
    let s2 = ci_name_start(h, i);
    let e = ci_name_end(h, i);
    if s2 < e {
        Some(to_lower_bytes(h.subrange(s2, e)))
    } else {
        None
    }
}

/// The head region found when scanning at position `i`: the byte range of
/// the head's content, between the `>` of `<head ...>` and the start of
/// `</head`.
pub open spec fn head_probe(h: Seq<u8>, i: int) -> Option<(int, int)> {
    if ci_name_at(h, i) == Some(head_name()) {
        match find_tag_end_spec(h, ci_name_end(h, i), None) {
            Some(end) => match find_match_ci_idx(h, close_head_needle(), end + 1) {
                Some(cs) => Some((end + 1, cs)),
                None => None,
            },
            None => None,
        }
    } else {
        None
    }
}

/// The first complete head region at or after `i`.
pub open spec fn find_head_range_spec(h: Seq<u8>, i: int) -> Option<(int, int)>
    decreases h.len() - i,
{
    if i < 0 || i >= h.len() {
        None
    } else if h[i] == 60 && head_probe(h, i) is Some {
        head_probe(h, i)
    } else {
        find_head_range_spec(h, i + 1)
    }
}

/// The insertion point right after the `<html ...>` open tag, scanning at or
/// after `i`.  A malformed `<html` tag (no `>`) yields no insertion point at
/// all.
pub open spec fn find_html_insert_spec(h: Seq<u8>, i: int) -> Option<int>
    decreases h.len() - i,
{
    if i < 0 || i >= h.len() {
        None
    } else if h[i] == 60 && ci_name_at(h, i) == Some(html_name()) {
        match find_tag_end_spec(h, ci_name_end(h, i), None) {
            Some(end) => Some(end + 1),
            None => None,
        }
    } else {
        find_html_insert_spec(h, i + 1)
    }
}

/// First index at or after `i` holding ASCII whitespace or `>` (or the end).
pub open spec fn token_end_idx(h: Seq<u8>, i: int) -> int
    decreases h.len() - i,
{
    if i < 0 || i >= h.len() {
        i
    } else if is_ascii_ws(h[i]) || h[i] == 62 {
        i
    } else {
        token_end_idx(h, i + 1)
    }
}

/// Whether a whole `<meta ...>` tag carries `name=<value>`, tolerant of
/// double-quoted, single-quoted and unquoted attribute values, comparing up
/// to ASCII case.
pub open spec fn is_meta_named_spec(tag: Seq<u8>, value: Seq<u8>) -> bool {
    let lower = to_lower_bytes(tag);
    match find_match_idx(lower, name_needle(), 0) {
        None => false,
        Some(pos) => match find_match_idx(lower, seq![61u8], pos + 4) {
            None => false,
            Some(eqp) => {
                let v = skip_ws_idx(lower, eqp + 1);
                if 0 <= v < lower.len() && lower[v] == 34 {
                    match find_match_idx(lower, seq![34u8], v + 1) {
                        Some(endq) => lower.subrange(v + 1, endq) == value,
                        None => false,
                    }
                } else if 0 <= v < lower.len() && lower[v] == 39 {
                    match find_match_idx(lower, seq![39u8], v + 1) {
                        Some(endq) => lower.subrange(v + 1, endq) == value,
                        None => false,
                    }
                } else {
                    lower.subrange(v, token_end_idx(lower, v)) == value
                }
            },
        },
    }
}

/// The head content with the old SEO tags stripped: `<title>...</title>`
/// elements and `<meta>` tags named `description` or `keywords` are dropped,
/// every other byte is kept.
pub open spec fn remove_seo_spec(h: Seq<u8>, i: int) -> Seq<u8>
    decreases h.len() - i,
    via remove_seo_spec_dec
{
    if i < 0 || i >= h.len() {
        Seq::empty()
    } else if h[i] != 60 {
        seq![h[i]] + remove_seo_spec(h, i + 1)
    } else {
        let name = ci_name_at(h, i);
        if name == Some(title_name()) {
            match find_tag_end_spec(h, ci_name_end(h, i), None) {
                Some(tag_end) => match find_match_ci_idx(h, close_title_needle(), tag_end + 1) {
                    Some(close_start) => match find_tag_end_spec(h, close_start + 2, None) {
                        Some(close_end) => remove_seo_spec(h, close_end + 1),
                        None => seq![h[i]] + remove_seo_spec(h, i + 1),
                    },
                    None => seq![h[i]] + remove_seo_spec(h, i + 1),
                },
                None => seq![h[i]] + remove_seo_spec(h, i + 1),
            }
        } else if name == Some(meta_name()) {
            match find_tag_end_spec(h, ci_name_end(h, i), None) {
                Some(tag_end) => {
                    if is_meta_named_spec(h.subrange(i, tag_end + 1), description_value())
                        || is_meta_named_spec(h.subrange(i, tag_end + 1), keywords_value()) {
                        remove_seo_spec(h, tag_end + 1)
                    } else {
                        seq![h[i]] + remove_seo_spec(h, i + 1)
                    }
                },
                None => seq![h[i]] + remove_seo_spec(h, i + 1),
            }
        } else {
            seq![h[i]] + remove_seo_spec(h, i + 1)
        }
    }
}

#[via_fn]
proof fn remove_seo_spec_dec(h: Seq<u8>, i: int) {
    if 0 <= i && i < h.len() && h[i] == 60 {
        lemma_skip_ws_bounds(h, i + 1);
        let s2 = ci_name_start(h, i);
        lemma_name_end_bounds(h, s2);
        let e = ci_name_end(h, i);
        if find_tag_end_spec(h, e, None) is Some {
            lemma_find_tag_end_spec_bounds(h, e, None);
            let tag_end = find_tag_end_spec(h, e, None).unwrap();
            lemma_find_match_ci_idx_char(h, close_title_needle(), tag_end + 1);
            match find_match_ci_idx(h, close_title_needle(), tag_end + 1) {
                Some(close_start) => {
                    if find_tag_end_spec(h, close_start + 2, None) is Some {
                        lemma_find_tag_end_spec_bounds(h, close_start + 2, None);
                    }
                },
                None => {},
            }
        }
    }
}

/// Joins byte strings with a separator.
pub open spec fn join_bytes(items: Seq<Seq<u8>>, sep: Seq<u8>) -> Seq<u8>
    decreases items.len(),
{
    if items.len() == 0 {
        Seq::empty()
    } else if items.len() == 1 {
        items[0]
    } else {
        join_bytes(items.drop_last(), sep) + sep + items.last()
    }
}

/// The keywords joined with `", "`, or nothing when they are absent or the
/// joined text trims (by ASCII whitespace) to nothing.
pub open spec fn joined_keywords(kws: Option<Seq<Seq<char>>>) -> Option<Seq<u8>> {
    match kws {
        None => None,
        Some(list) => {
            let j = join_bytes(list.map_values(|s: Seq<char>| encode_utf8(s)), seq![44u8, 32]);
            if all_ws(j) {
                None
            } else {
                Some(j)
            }
        },
    }
}

/// The freshly built SEO tags: an escaped `<title>`, a description `<meta>`,
/// and a keywords `<meta>` when there are keywords.
pub open spec fn additions_spec(title: Seq<u8>, desc: Seq<u8>, kw: Option<Seq<u8>>) -> Seq<u8> {
    let t = "<title>".spec_bytes() + escape_html_spec(title) + "</title>".spec_bytes();
    let d = "<meta name=\"description\" content=\"".spec_bytes() + escape_attr_spec(desc)
        + "\">".spec_bytes();
    let k = match kw {
        Some(kb) => "<meta name=\"keywords\" content=\"".spec_bytes() + escape_attr_spec(kb)
            + "\">".spec_bytes(),
        None => Seq::empty(),
    };
    t + d + k
}

/// The rewritten document: the new tags prepended inside the cleaned head
/// when one exists, else a synthesized head after `<html ...>`, else before
/// `<body`, else in front of everything.
pub open spec fn inject_spec(h: Seq<u8>, adds: Seq<u8>) -> Seq<u8> {
    match find_head_range_spec(h, 0) {
        Some((start, end)) => h.take(start) + adds + remove_seo_spec(h.subrange(start, end), 0)
            + h.skip(end),
        None => match find_html_insert_spec(h, 0) {
            Some(at) => h.take(at) + head_open_bytes() + adds + head_close_bytes() + h.skip(at),
            None => match find_match_ci_idx(h, body_needle(), 0) {
                Some(bp) => h.take(bp) + head_open_bytes() + adds + head_close_bytes() + h.skip(
                    bp,
                ),
                None => head_open_bytes() + adds + head_close_bytes() + h,
            },
        },
    }
}

} // verus!

verus! {

/// Appends a literal's bytes to a byte buffer.
pub fn append_lit(out: &mut Vec<u8>, lit: &str)
    ensures
        final(out)@ == old(out)@ + lit.spec_bytes(),
{
    out.extend_from_slice(lit.as_bytes());
}

/// Finds the first literal occurrence of a needle, tied to the scan spec.
fn find_needle(h: &[u8], start: usize, needle: &[u8]) -> (r: Option<usize>)
    requires
        needle@.len() > 0,
    ensures
        match r {
            Some(j) => find_match_idx(h@, needle@, start as int) == Some(j as int) && start <= j
                && j + needle@.len() <= h@.len(),
            None => find_match_idx(h@, needle@, start as int) is None,
        },
{
    proof {
        lemma_find_match_idx_char(h@, needle@, start as int);
    }
    let r = crate::scan::find_bytes(h, start, needle);
    proof {
        let spec_r = find_match_idx(h@, needle@, start as int);
        match r {
            Some(j) => {
                assert(match_at(h@, needle@, j as int));
                if spec_r is Some && spec_r.unwrap() < j {
                    assert(match_at(h@, needle@, spec_r.unwrap()));
                }
                if spec_r is Some && spec_r.unwrap() > j {
                    assert(!match_at(h@, needle@, j as int));
                }
                assert(spec_r == Some(j as int));
            },
            None => {
                if spec_r is Some {
                    assert(match_at(h@, needle@, spec_r.unwrap()));
                }
            },
        }
    }
    r
}

/// Finds the first case-insensitive occurrence of a needle, tied to the scan
/// spec.
fn find_needle_ci(h: &[u8], start: usize, needle: &[u8]) -> (r: Option<usize>)
    requires
        needle@.len() > 0,
    ensures
        match r {
            Some(j) => find_match_ci_idx(h@, needle@, start as int) == Some(j as int) && start <= j
                && j + needle@.len() <= h@.len(),
            None => find_match_ci_idx(h@, needle@, start as int) is None,
        },
{
    proof {
        lemma_find_match_ci_idx_char(h@, needle@, start as int);
    }
    let r = find_bytes_case_insensitive(h, start, needle);
    proof {
        let spec_r = find_match_ci_idx(h@, needle@, start as int);
        match r {
            Some(j) => {
                assert(match_at_ci(h@, needle@, j as int));
                if spec_r is Some && spec_r.unwrap() < j {
                    assert(match_at_ci(h@, needle@, spec_r.unwrap()));
                }
                if spec_r is Some && spec_r.unwrap() > j {
                    assert(!match_at_ci(h@, needle@, j as int));
                }
                assert(spec_r == Some(j as int));
            },
            None => {
                if spec_r is Some {
                    assert(match_at_ci(h@, needle@, spec_r.unwrap()));
                }
            },
        }
    }
    r
}

/// Skips ASCII whitespace.
fn skip_ws_exec(h: &[u8], start: usize) -> (r: usize)
    requires
        start <= h@.len(),
    ensures
        r == skip_ws_idx(h@, start as int),
        start <= r <= h@.len(),
{
    let mut i = start;
    while i < h.len() && crate::scan::is_ws_byte(h[i])
        invariant
            start <= i <= h@.len(),
            skip_ws_idx(h@, start as int) == skip_ws_idx(h@, i as int),
        decreases h@.len() - i,
    {
        i = i + 1;
    }
    i
}

/// Scans to the first ASCII whitespace or `>` (or the end).
fn token_end_exec(h: &[u8], start: usize) -> (r: usize)
    requires
        start <= h@.len(),
    ensures
        r == token_end_idx(h@, start as int),
        start <= r <= h@.len(),
{
    let mut i = start;
    while i < h.len() && !(crate::scan::is_ws_byte(h[i]) || h[i] == 62)
        invariant
            start <= i <= h@.len(),
            token_end_idx(h@, start as int) == token_end_idx(h@, i as int),
        decreases h@.len() - i,
    {
        i = i + 1;
    }
    i
}

/// Whether a whole `<meta ...>` tag carries `name=<value>`: tolerant of
/// double-quoted, single-quoted and unquoted attribute values, case
/// insensitive.
pub fn is_meta_named(tag: &[u8], value: &[u8]) -> (r: bool)
    ensures
        r == is_meta_named_spec(tag@, value@),
{
    let lower = lowercase_bytes(tag);
    let ghost lw = to_lower_bytes(tag@);
    let mut needle: Vec<u8> = Vec::new();
    needle.push(110);
    needle.push(97);
    needle.push(109);
    needle.push(101);
    proof {
        assert(needle@ =~= name_needle());
    }
    let pos = match find_needle(lower.as_slice(), 0, needle.as_slice()) {
        Some(p) => p,
        None => {
            return false;
        },
    };
    let mut eq_needle: Vec<u8> = Vec::new();
    eq_needle.push(61);
    proof {
        assert(eq_needle@ =~= seq![61u8]);
    }
    let eqp = match find_needle(lower.as_slice(), pos + 4, eq_needle.as_slice()) {
        Some(p) => p,
        None => {
            return false;
        },
    };
    let v = skip_ws_exec(lower.as_slice(), eqp + 1);
    if v < lower.len() && (lower[v] == 34 || lower[v] == 39) {
        let q = lower[v];
        let mut q_needle: Vec<u8> = Vec::new();
        q_needle.push(q);
        proof {
            assert(q_needle@ =~= seq![q]);
        }
        match find_needle(lower.as_slice(), v + 1, q_needle.as_slice()) {
            Some(endq) => {
                let r = crate::scan::bytes_eq(&lower.as_slice()[v + 1..endq], value);
                proof {
                    assert(lower@.subrange(v + 1, endq as int) =~= lw.subrange(
                        v + 1,
                        endq as int,
                    ));
                }
                r
            },
            None => false,
        }
    } else {
        let te = token_end_exec(lower.as_slice(), v);
        let r = crate::scan::bytes_eq(&lower.as_slice()[v..te], value);
        proof {
            assert(lower@.subrange(v as int, te as int) =~= lw.subrange(v as int, te as int));
        }
        r
    }
}

/// Strips the old SEO tags from head content: whole `<title>` elements and
/// `<meta>` tags named `description` or `keywords` are dropped, everything
/// else is kept byte for byte.
pub fn remove_head_seo_tags(h: &[u8]) -> (r: Vec<u8>)
    ensures
        r@ == remove_seo_spec(h@, 0),
{
    let mut out: Vec<u8> = Vec::new();
    let mut i: usize = 0;
    while i < h.len()
        invariant
            0 <= i <= h@.len(),
            remove_seo_spec(h@, 0) == out@ + remove_seo_spec(h@, i as int),
        decreases h@.len() - i,
    {
        let ghost before = out@;
        let b = h[i];
        let mut jump: Option<usize> = None;
        if b == 60 {
            match parse_tag_name_ci(h, i + 1) {
                None => {},
                Some((raw_name, after)) => {
                    let lname = lowercase_bytes(raw_name.as_slice());
                    proof {
                        assert(ci_name_at(h@, i as int) == Some(lname@));
                    }
                    let mut title_needle: Vec<u8> = Vec::new();
                    title_needle.push(116);
                    title_needle.push(105);
                    title_needle.push(116);
                    title_needle.push(108);
                    title_needle.push(101);
                    proof {
                        assert(title_needle@ =~= title_name());
                    }
                    let mut meta_needle: Vec<u8> = Vec::new();
                    meta_needle.push(109);
                    meta_needle.push(101);
                    meta_needle.push(116);
                    meta_needle.push(97);
                    proof {
                        assert(meta_needle@ =~= meta_name());
                    }
                    if crate::scan::bytes_eq(lname.as_slice(), title_needle.as_slice()) {
                        match find_tag_end(h, after) {
                            Some(tag_end) => {
                                let mut ct: Vec<u8> = Vec::new();
                                ct.push(60);
                                ct.push(47);
                                ct.push(116);
                                ct.push(105);
                                ct.push(116);
                                ct.push(108);
                                ct.push(101);
                                proof {
                                    assert(ct@ =~= close_title_needle());
                                }
                                match find_needle_ci(h, tag_end + 1, ct.as_slice()) {
                                    Some(close_start) => {
                                        match find_tag_end(h, close_start + 2) {
                                            Some(close_end) => {
                                                jump = Some(close_end + 1);
                                            },
                                            None => {},
                                        }
                                    },
                                    None => {},
                                }
                            },
                            None => {},
                        }
                    } else if crate::scan::bytes_eq(lname.as_slice(), meta_needle.as_slice()) {
                        match find_tag_end(h, after) {
                            Some(tag_end) => {
                                let tag_slice = &h[i..tag_end + 1];
                                let mut dv: Vec<u8> = Vec::new();
                                dv.push(100);
                                dv.push(101);
                                dv.push(115);
                                dv.push(99);
                                dv.push(114);
                                dv.push(105);
                                dv.push(112);
                                dv.push(116);
                                dv.push(105);
                                dv.push(111);
                                dv.push(110);
                                proof {
                                    assert(dv@ =~= description_value());
                                }
                                let mut kv: Vec<u8> = Vec::new();
                                kv.push(107);
                                kv.push(101);
                                kv.push(121);
                                kv.push(119);
                                kv.push(111);
                                kv.push(114);
                                kv.push(100);
                                kv.push(115);
                                proof {
                                    assert(kv@ =~= keywords_value());
                                }
                                if is_meta_named(tag_slice, dv.as_slice()) || is_meta_named(
                                    tag_slice,
                                    kv.as_slice(),
                                ) {
                                    jump = Some(tag_end + 1);
                                }
                            },
                            None => {},
                        }
                    }
                },
            }
        }
        match jump {
            Some(n) => {
                proof {
                    assert(remove_seo_spec(h@, i as int) == remove_seo_spec(h@, n as int));
                }
                i = n;
            },
            None => {
                out.push(b);
                proof {
                    assert(out@ =~= before + seq![h@[i as int]]);
                    assert(remove_seo_spec(h@, i as int) == seq![h@[i as int]] + remove_seo_spec(
                        h@,
                        i + 1,
                    ));
                    assert(out@ + remove_seo_spec(h@, i + 1) =~= before + remove_seo_spec(
                        h@,
                        i as int,
                    ));
                }
                i = i + 1;
            },
        }
    }
    proof {
        assert(remove_seo_spec(h@, h@.len() as int) =~= Seq::<u8>::empty());
        assert(out@ + Seq::<u8>::empty() =~= out@);
    }
    out
}

/// Finds the complete head region of the document: the byte range of the
/// head's content.
fn find_head_range(bytes: &[u8]) -> (r: Option<(usize, usize)>)
    ensures
        match r {
            Some(p) => find_head_range_spec(bytes@, 0) == Some((p.0 as int, p.1 as int)) && p.0
                <= p.1 <= bytes@.len(),
            None => find_head_range_spec(bytes@, 0) is None,
        },
{
    let mut i: usize = 0;
    while i < bytes.len()
        invariant
            0 <= i <= bytes@.len(),
            find_head_range_spec(bytes@, 0) == find_head_range_spec(bytes@, i as int),
        decreases bytes@.len() - i,
    {
        if bytes[i] == 60 {
            match parse_tag_name_ci(bytes, i + 1) {
                None => {
                    proof {
                        assert(head_probe(bytes@, i as int) is None);
                    }
                },
                Some((raw_name, after)) => {
                    let lname = lowercase_bytes(raw_name.as_slice());
                    proof {
                        assert(ci_name_at(bytes@, i as int) == Some(lname@));
                    }
                    let mut hd: Vec<u8> = Vec::new();
                    hd.push(104);
                    hd.push(101);
                    hd.push(97);
                    hd.push(100);
                    proof {
                        assert(hd@ =~= head_name());
                    }
                    if crate::scan::bytes_eq(lname.as_slice(), hd.as_slice()) {
                        match find_tag_end(bytes, after) {
                            Some(end) => {
                                let mut ch: Vec<u8> = Vec::new();
                                ch.push(60);
                                ch.push(47);
                                ch.push(104);
                                ch.push(101);
                                ch.push(97);
                                ch.push(100);
                                proof {
                                    assert(ch@ =~= close_head_needle());
                                }
                                match find_needle_ci(bytes, end + 1, ch.as_slice()) {
                                    Some(cs) => {
                                        proof {
                                            assert(head_probe(bytes@, i as int) == Some(
                                                (end + 1 as int, cs as int),
                                            ));
                                        }
                                        return Some((end + 1, cs));
                                    },
                                    None => {
                                        proof {
                                            assert(head_probe(bytes@, i as int) is None);
                                        }
                                    },
                                }
                            },
                            None => {
                                proof {
                                    assert(head_probe(bytes@, i as int) is None);
                                }
                            },
                        }
                    } else {
                        proof {
                            assert(head_probe(bytes@, i as int) is None);
                        }
                    }
                },
            }
        }
        i = i + 1;
    }
    None
}

/// Finds the insertion point right after the document's `<html ...>` open
/// tag.
pub fn find_html_tag_end(bytes: &[u8]) -> (r: Option<usize>)
    ensures
        match r {
            Some(at) => find_html_insert_spec(bytes@, 0) == Some(at as int) && at <= bytes@.len(),
            None => find_html_insert_spec(bytes@, 0) is None,
        },
{
    let mut i: usize = 0;
    while i < bytes.len()
        invariant
            0 <= i <= bytes@.len(),
            find_html_insert_spec(bytes@, 0) == find_html_insert_spec(bytes@, i as int),
        decreases bytes@.len() - i,
    {
        if bytes[i] == 60 {
            match parse_tag_name_ci(bytes, i + 1) {
                None => {},
                Some((raw_name, after)) => {
                    let lname = lowercase_bytes(raw_name.as_slice());
                    proof {
                        assert(ci_name_at(bytes@, i as int) == Some(lname@));
                    }
                    let mut hm: Vec<u8> = Vec::new();
                    hm.push(104);
                    hm.push(116);
                    hm.push(109);
                    hm.push(108);
                    proof {
                        assert(hm@ =~= html_name());
                    }
                    if crate::scan::bytes_eq(lname.as_slice(), hm.as_slice()) {
                        match find_tag_end(bytes, after) {
                            Some(end) => {
                                return Some(end + 1);
                            },
                            None => {
                                return None;
                            },
                        }
                    }
                },
            }
        }
        i = i + 1;
    }
    None
}

/// Builds the fresh SEO tags for a title and metadata: an escaped `<title>`,
/// a description `<meta>`, and a keywords `<meta>` when keywords are present
/// and do not trim to nothing.
fn build_additions(title: &str, seo: &SeoMeta) -> (r: Vec<u8>)
    ensures
        r@ == additions_spec(
            encode_utf8(title@),
            encode_utf8(seo.description@),
            joined_keywords(seo@.keywords),
        ),
{
    let mut out: Vec<u8> = Vec::new();
    append_lit(&mut out, "<title>");
    let mut et = escape_html(title);
    out.append(&mut et);
    append_lit(&mut out, "</title>");
    append_lit(&mut out, "<meta name=\"description\" content=\"");
    let mut ed = escape_html_attr_bytes(seo.description.as_str().as_bytes());
    out.append(&mut ed);
    append_lit(&mut out, "\">");
    match &seo.keywords {
        None => {
            proof {
                assert(joined_keywords(seo@.keywords) is None);
            }
        },
        Some(items) => {
            let ghost list = items@.map_values(|s: String| encode_utf8(s@));
            proof {
                assert(seo@.keywords == Some(items@.map_values(|s: String| s@)));
                assert(items@.map_values(|s: String| s@).map_values(
                    |s: Seq<char>| encode_utf8(s),
                ) =~= list);
            }
            let mut j: Vec<u8> = Vec::new();
            let mut i: usize = 0;
            while i < items.len()
                invariant
                    0 <= i <= items@.len(),
                    list == items@.map_values(|s: String| encode_utf8(s@)),
                    j@ == join_bytes(list.take(i as int), seq![44u8, 32]),
                decreases items@.len() - i,
            {
                let ghost before = j@;
                if i > 0 {
                    j.push(44);
                    j.push(32);
                }
                j.extend_from_slice(items[i].as_str().as_bytes());
                proof {
                    assert(list.take(i + 1).drop_last() =~= list.take(i as int));
                    assert(list.take(i + 1).last() == list[i as int]);
                    if i == 0 {
                        assert(j@ =~= list[0]);
                    } else {
                        assert(j@ =~= before + seq![44u8, 32] + list[i as int]);
                    }
                }
                i = i + 1;
            }
            proof {
                assert(list.take(list.len() as int) =~= list);
            }
            let mut k: usize = 0;
            while k < j.len() && crate::scan::is_ws_byte(j[k])
                invariant
                    0 <= k <= j@.len(),
                    forall|t: int| 0 <= t < k ==> is_ascii_ws(j@[t]),
                decreases j@.len() - k,
            {
                k = k + 1;
            }
            if k >= j.len() {
                proof {
                    assert(all_ws(j@));
                    assert(joined_keywords(seo@.keywords) is None);
                }
            } else {
                proof {
                    assert(!all_ws(j@));
                    assert(joined_keywords(seo@.keywords) == Some(j@));
                }
                append_lit(&mut out, "<meta name=\"keywords\" content=\"");
                let mut ek = escape_html_attr_bytes(j.as_slice());
                out.append(&mut ek);
                append_lit(&mut out, "\">");
            }
        },
    }
    out
}

/// Rewrites a document's SEO tags: strips the old `<title>`, description and
/// keywords tags from the head and prepends fresh ones built from the given
/// title and metadata; when the document has no head, one is synthesized
/// after `<html ...>`, else before `<body`, else in front of everything.
/// Always succeeds and returns the rewritten bytes.
pub fn inject_seo_meta(html: &str, title: &str, seo: &SeoMeta) -> (r: Vec<u8>)
    ensures
        r@ == inject_spec(
            html.spec_bytes(),
            additions_spec(
                encode_utf8(title@),
                encode_utf8(seo.description@),
                joined_keywords(seo@.keywords),
            ),
        ),
{
    let mut adds = build_additions(title, seo);
    let ghost adds_v = adds@;
    let bytes = html.as_bytes();
    let ghost h = html.spec_bytes();
    match find_head_range(bytes) {
        Some((start, end)) => {
            let mut out: Vec<u8> = Vec::new();
            out.extend_from_slice(&bytes[0..start]);
            out.append(&mut adds);
            let mut cleaned = remove_head_seo_tags(&bytes[start..end]);
            out.append(&mut cleaned);
            out.extend_from_slice(&bytes[end..bytes.len()]);
            proof {
                assert(bytes@.subrange(0, start as int) =~= h.take(start as int));
                assert(bytes@.subrange(end as int, bytes@.len() as int) =~= h.skip(end as int));
                assert(out@ =~= h.take(start as int) + adds_v + remove_seo_spec(
                    h.subrange(start as int, end as int),
                    0,
                ) + h.skip(end as int));
            }
            out
        },
        None => {
            match find_html_tag_end(bytes) {
                Some(at) => {
                    let mut out: Vec<u8> = Vec::new();
                    out.extend_from_slice(&bytes[0..at]);
                    append_lit(&mut out, "<head>");
                    out.append(&mut adds);
                    append_lit(&mut out, "</head>");
                    out.extend_from_slice(&bytes[at..bytes.len()]);
                    proof {
                        assert(bytes@.subrange(0, at as int) =~= h.take(at as int));
                        assert(bytes@.subrange(at as int, bytes@.len() as int) =~= h.skip(
                            at as int,
                        ));
                        assert(out@ =~= h.take(at as int) + head_open_bytes() + adds_v
                            + head_close_bytes() + h.skip(at as int));
                    }
                    out
                },
                None => {
                    let mut bn: Vec<u8> = Vec::new();
                    bn.push(60);
                    bn.push(98);
                    bn.push(111);
                    bn.push(100);
                    bn.push(121);
                    proof {
                        assert(bn@ =~= body_needle());
                    }
                    match find_needle_ci(bytes, 0, bn.as_slice()) {
                        Some(bp) => {
                            let mut out: Vec<u8> = Vec::new();
                            out.extend_from_slice(&bytes[0..bp]);
                            append_lit(&mut out, "<head>");
                            out.append(&mut adds);
                            append_lit(&mut out, "</head>");
                            out.extend_from_slice(&bytes[bp..bytes.len()]);
                            proof {
                                assert(bytes@.subrange(0, bp as int) =~= h.take(bp as int));
                                assert(bytes@.subrange(bp as int, bytes@.len() as int) =~= h.skip(
                                    bp as int,
                                ));
                                assert(out@ =~= h.take(bp as int) + head_open_bytes() + adds_v
                                    + head_close_bytes() + h.skip(bp as int));
                            }
                            out
                        },
                        None => {
                            let mut out: Vec<u8> = Vec::new();
                            append_lit(&mut out, "<head>");
                            out.append(&mut adds);
                            append_lit(&mut out, "</head>");
                            out.extend_from_slice(bytes);
                            proof {
                                assert(out@ =~= head_open_bytes() + adds_v + head_close_bytes()
                                    + h);
                            }
                            out
                        },
                    }
                },
            }
        },
    }
}

} // verus!
