use solin_blog::escape::escape_html;
use solin_blog::escape::escape_html_attr;
use solin_blog::escape::escape_xml;
use solin_blog::inject::inject_seo_meta;
use solin_blog::store::SeoMeta;
use solin_blog::validate::validate_html;
use solin_blog::validate::ValidationError;

fn seo(title: &str, desc: &str, keywords: Option<Vec<&str>>) -> SeoMeta {
    SeoMeta {
        title: title.to_string(),
        seo_title: title.to_string(),
        description: desc.to_string(),
        keywords: keywords.map(|ks| ks.into_iter().map(|k| k.to_string()).collect()),
        extra: Vec::new(),
    }
}

fn count_occurrences(haystack: &[u8], needle: &[u8]) -> usize {
    let mut n = 0;
    let mut i = 0;
    while i + needle.len() <= haystack.len() {
        if &haystack[i..i + needle.len()] == needle {
            n += 1;
            i += needle.len();
        } else {
            i += 1;
        }
    }
    n
}

#[test]
fn validator_accepts_simple_paragraph() {
    assert!(validate_html("<p>ok</p>").is_ok());
}

#[test]
fn validator_accepts_void_element() {
    assert!(validate_html("<br>").is_ok());
}

#[test]
fn validator_accepts_script_with_markup_like_body() {
    assert!(validate_html("<script>if (a < b) {}</script>").is_ok());
}

#[test]
fn validator_rejects_empty_input() {
    assert_eq!(validate_html(""), Err(ValidationError::Empty));
    assert_eq!(validate_html("   \n\t"), Err(ValidationError::Empty));
}

#[test]
fn validator_rejects_unclosed_tag() {
    assert_eq!(
        validate_html("<p>unclosed"),
        Err(ValidationError::UnclosedTag { name: b"p".to_vec(), offset: 0 })
    );
}

#[test]
fn validator_rejects_mismatched_tags() {
    assert_eq!(
        validate_html("<div><span></div></span>"),
        Err(ValidationError::MismatchedClosingTag {
            found: b"div".to_vec(),
            offset: 11,
            expected: b"span".to_vec(),
            opened_at: 5,
        })
    );
}

#[test]
fn validator_rejects_nul_byte() {
    assert_eq!(
        validate_html("a\u{0}b"),
        Err(ValidationError::NulByte { offset: 1 })
    );
}

#[test]
fn validator_rejects_unexpected_closing_tag() {
    assert_eq!(
        validate_html("</p> text"),
        Err(ValidationError::UnexpectedClosingTag { name: b"p".to_vec(), offset: 0 })
    );
}

#[test]
fn validator_handles_comments_and_declarations() {
    assert!(validate_html("<!doctype html><!-- a < b --><p>x</p>").is_ok());
    assert_eq!(
        validate_html("<!-- never closed"),
        Err(ValidationError::UnterminatedComment { offset: 0 })
    );
}

#[test]
fn validator_ignores_gt_inside_quoted_attributes() {
    assert!(validate_html("<p title=\"a > b\">x</p>").is_ok());
}

#[test]
fn validator_accepts_self_closing_tags() {
    assert!(validate_html("<div/>").is_ok());
    assert!(validate_html("<circle r=\"4\" />").is_ok());
}

#[test]
fn injector_is_idempotent_on_plain_document() {
    let html = "<html><head></head><body></body></html>";
    let meta = seo("My Title", "My description", Some(vec!["k1", "k2"]));
    let once = inject_seo_meta(html, "My Title", &meta);
    let once_str = String::from_utf8(once.clone()).unwrap();
    let twice = inject_seo_meta(&once_str, "My Title", &meta);
    assert_eq!(once, twice);
    assert_eq!(count_occurrences(&twice, b"<title>"), 1);
    assert_eq!(count_occurrences(&twice, b"name=\"description\""), 1);
    assert_eq!(count_occurrences(&twice, b"name=\"keywords\""), 1);
}

#[test]
fn injector_prepends_into_existing_head() {
    let html = "<html><head><link rel=\"icon\" href=\"i.png\"></head><body></body></html>";
    let meta = seo("T", "D", None);
    let out = inject_seo_meta(html, "T", &meta);
    let out = String::from_utf8(out).unwrap();
    assert_eq!(
        out,
        "<html><head><title>T</title><meta name=\"description\" content=\"D\"><link rel=\"icon\" href=\"i.png\"></head><body></body></html>"
    );
}

#[test]
fn injector_strips_old_seo_tags() {
    let html = "<html><head><title>Old</title><meta name=\"description\" content=\"old\"><meta name=\"keywords\" content=\"old\"></head><body></body></html>";
    let meta = seo("New", "newdesc", None);
    let out = inject_seo_meta(html, "New", &meta);
    let out = String::from_utf8(out).unwrap();
    assert_eq!(
        out,
        "<html><head><title>New</title><meta name=\"description\" content=\"newdesc\"></head><body></body></html>"
    );
}

#[test]
fn injector_synthesizes_head_after_html_tag() {
    let html = "<html><body>x</body></html>";
    let meta = seo("T", "D", None);
    let out = inject_seo_meta(html, "T", &meta);
    let out = String::from_utf8(out).unwrap();
    assert_eq!(
        out,
        "<html><head><title>T</title><meta name=\"description\" content=\"D\"></head><body>x</body></html>"
    );
}

#[test]
fn injector_synthesizes_head_before_body_without_html_tag() {
    let html = "<body>x</body>";
    let meta = seo("T", "D", None);
    let out = inject_seo_meta(html, "T", &meta);
    let out = String::from_utf8(out).unwrap();
    assert_eq!(
        out,
        "<head><title>T</title><meta name=\"description\" content=\"D\"></head><body>x</body>"
    );
}

#[test]
fn injector_prepends_head_to_bare_fragment() {
    let html = "<p>x</p>";
    let meta = seo("T", "D", None);
    let out = inject_seo_meta(html, "T", &meta);
    let out = String::from_utf8(out).unwrap();
    assert_eq!(
        out,
        "<head><title>T</title><meta name=\"description\" content=\"D\"></head><p>x</p>"
    );
}

#[test]
fn injector_escapes_values() {
    let html = "<html><head></head></html>";
    let meta = seo("a<b", "d\"q", None);
    let out = inject_seo_meta(html, "a<b", &meta);
    let out = String::from_utf8(out).unwrap();
    assert!(out.contains("<title>a&lt;b</title>"));
    assert!(out.contains("content=\"d&quot;q\""));
}

#[test]
fn injector_skips_blank_keywords() {
    let html = "<html><head></head></html>";
    for kws in [None, Some(vec![]), Some(vec![" "])] {
        let meta = seo("T", "D", kws);
        let out = inject_seo_meta(html, "T", &meta);
        let out = String::from_utf8(out).unwrap();
        assert!(!out.contains("keywords"));
    }
    let meta = seo("T", "D", Some(vec!["k1", "k2"]));
    let out = inject_seo_meta(html, "T", &meta);
    let out = String::from_utf8(out).unwrap();
    assert!(out.contains("<meta name=\"keywords\" content=\"k1, k2\">"));
}

#[test]
fn escape_html_replaces_angle_brackets_and_ampersand() {
    assert_eq!(escape_html("a<b&c>d"), b"a&lt;b&amp;c&gt;d".to_vec());
}

#[test]
fn escape_html_attr_replaces_quotes() {
    assert_eq!(escape_html_attr("a\"b'c"), b"a&quot;b&#39;c".to_vec());
}

#[test]
fn escape_xml_uses_apos() {
    assert_eq!(escape_xml("a'b"), b"a&apos;b".to_vec());
}
