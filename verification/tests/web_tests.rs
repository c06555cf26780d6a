use solin_blog::dto::GetPageByIdRequest;
use solin_blog::dto::PageIdRequest;
use solin_blog::dto::PushMarkdownRequest;
use solin_blog::dto::PushPageRequest;
use solin_blog::dto::UpdateMarkdownPageRequest;
use solin_blog::dto::UpdatePageRequest;
use solin_blog::paths::sanitize_public_path;
use solin_blog::store::PageMeta;
use solin_blog::store::PageStore;
use solin_blog::store::SeoMeta;
use solin_blog::tools::delete_page;
use solin_blog::tools::get_all_page;
use solin_blog::tools::get_page_by_id;
use solin_blog::tools::push_page;
use solin_blog::tools::push_markdown;
use solin_blog::tools::update_markdown_page;
use solin_blog::tools::update_page;
use solin_blog::web::build_page_full_url;
use solin_blog::web::build_page_url;
use solin_blog::web::format_unix_timestamp;
use solin_blog::web::markdown_to_html;
use solin_blog::web::normalize_base_url;
use solin_blog::web::parse_page_id_from_slug;
use solin_blog::web::render_markdown_page;
use solin_blog::web::render_page_html;
use solin_blog::web::render_sitemap_xml;
use solin_blog::web::replace_template;

const T1: i64 = 1700000000;

fn meta_with(title: &str, desc: &str) -> PageMeta {
    PageMeta {
        seo: SeoMeta {
            title: title.to_string(),
            seo_title: title.to_string(),
            description: desc.to_string(),
            keywords: None,
            extra: Vec::new(),
        },
        page_uid: String::new(),
        created_at: 0,
        updated_at: 0,
        view_count: 0,
        extra: Vec::new(),
    }
}

#[test]
fn page_url_joins_title_and_id_with_plus() {
    assert_eq!(build_page_url("id1", "My Title"), "/pages/My Title+id1");
    assert_eq!(build_page_url("id1", ""), "/pages/id1");
}

#[test]
fn slug_parsing_splits_on_last_plus() {
    assert_eq!(parse_page_id_from_slug("My+Title+id1"), Some("id1".to_string()));
    assert_eq!(parse_page_id_from_slug("id1"), Some("id1".to_string()));
    assert_eq!(parse_page_id_from_slug(""), None);
    assert_eq!(parse_page_id_from_slug("title+"), None);
}

#[test]
fn base_url_normalization_trims_trailing_slashes() {
    assert_eq!(normalize_base_url("https://ex.com//"), "https://ex.com");
    assert_eq!(normalize_base_url("https://ex.com"), "https://ex.com");
    assert_eq!(build_page_full_url("https://ex.com/", "id1", "T"), "https://ex.com/pages/T+id1");
}

#[test]
fn template_substitution_replaces_every_occurrence() {
    let out = replace_template("A {{k}} B {{k}}", &[("k", "v")]).unwrap();
    assert_eq!(out, b"A v B v".to_vec());
    assert!(replace_template("no placeholder", &[("k", "v")]).is_err());
}

#[test]
fn markdown_renders_to_html() {
    assert_eq!(markdown_to_html("# Hi"), "<h1>Hi</h1>\n");
}

#[test]
fn markdown_page_renders_into_template() {
    let out = render_markdown_page(
        "# Hi",
        "<div>H</div>",
        "<html><head></head><body>{{site_header}}{{markdown_html}}</body></html>",
    )
    .unwrap();
    assert_eq!(
        out,
        b"<html><head></head><body><div>H</div><h1>Hi</h1>\n</body></html>".to_vec()
    );
}

#[test]
fn timestamps_render_as_rfc3339() {
    assert_eq!(format_unix_timestamp(0), "1970-01-01T00:00:00+00:00");
    assert_eq!(format_unix_timestamp(-5), "1970-01-01T00:00:00+00:00");
    assert_eq!(format_unix_timestamp(T1), "2023-11-14T22:13:20+00:00");
}

#[test]
fn rendered_page_carries_injected_title() {
    let meta = meta_with("T", "D");
    let out = render_page_html(&meta, "<html><head></head><body>b</body></html>");
    let out = String::from_utf8(out).unwrap();
    assert!(out.contains("<title>T</title>"));
    assert!(out.contains("<body>b</body>"));
}

#[test]
fn rendered_page_falls_back_to_seo_title() {
    let mut meta = meta_with("T", "D");
    meta.seo.title = String::new();
    meta.seo.seo_title = "Legacy".to_string();
    let out = render_page_html(&meta, "<html><head></head></html>");
    let out = String::from_utf8(out).unwrap();
    assert!(out.contains("<title>Legacy</title>"));
}

#[test]
fn sitemap_lists_every_page_with_lastmod() {
    let mut store = PageStore::new();
    store.create_page("pid", &meta_with("T", "D"), "<p>x</p>", T1).unwrap();
    let xml = render_sitemap_xml(&store, "https://ex.com/").unwrap();
    let xml = String::from_utf8(xml).unwrap();
    assert!(xml.starts_with("<?xml version=\"1.0\" encoding=\"UTF-8\"?>"));
    assert!(xml.contains("<loc>https://ex.com/pages/T+pid</loc>"));
    assert!(xml.contains("<lastmod>2023-11-14T22:13:20+00:00</lastmod>"));
    assert!(xml.ends_with("</urlset>"));
}

#[test]
fn asset_paths_are_sanitized() {
    assert_eq!(sanitize_public_path("./a//b/."), Ok("a/b".to_string()));
    assert_eq!(sanitize_public_path("css/site.css"), Ok("css/site.css".to_string()));
    assert_eq!(sanitize_public_path("a/../b"), Err(()));
    assert_eq!(sanitize_public_path(""), Err(()));
    assert_eq!(sanitize_public_path("///"), Err(()));
}

#[test]
fn push_page_tool_round_trips() {
    let mut store = PageStore::new();
    let resp = push_page(
        &mut store,
        PushPageRequest {
            seo_title: "T".to_string(),
            description: "D".to_string(),
            keywords: None,
            html: "<p>x</p>".to_string(),
        },
        "https://ex.com",
        T1,
    );
    assert!(resp.success);
    let meta = resp.meta.unwrap();
    assert_eq!(meta.seo.seo_title, "T");
    assert_eq!(meta.updated_at, T1);
    let uid = resp.page_id.unwrap();
    assert_eq!(resp.url.unwrap(), format!("https://ex.com/pages/T+{uid}"));
    assert!(store.page_exists(&uid));
}

#[test]
fn push_page_tool_rejects_invalid_html() {
    let mut store = PageStore::new();
    let resp = push_page(
        &mut store,
        PushPageRequest {
            seo_title: "T".to_string(),
            description: "D".to_string(),
            keywords: None,
            html: "<p>bad".to_string(),
        },
        "https://ex.com",
        T1,
    );
    assert!(!resp.success);
    assert_eq!(resp.error.as_deref(), Some("html validation failed"));
    assert!(store.list_pages().is_empty());
}

#[test]
fn push_markdown_tool_publishes_rendered_page() {
    let mut store = PageStore::new();
    let resp = push_markdown(
        &mut store,
        PushMarkdownRequest {
            seo_title: "T".to_string(),
            description: "D".to_string(),
            keywords: None,
            markdown: "# Hi".to_string(),
        },
        "https://ex.com",
        "<div>H</div>",
        "<html><head></head><body>{{site_header}}{{markdown_html}}</body></html>",
        T1,
    );
    assert!(resp.success);
    let uid = resp.page_id.unwrap();
    let html = store.get_page_html(&uid).unwrap();
    assert!(html.contains("<h1>Hi</h1>"));
}

#[test]
fn update_page_tool_merges_fields() {
    let mut store = PageStore::new();
    let created = store.create_page_auto_uid(&meta_with("T", "D"), "<p>v1</p>", T1).unwrap();
    let resp = update_page(
        &mut store,
        UpdatePageRequest {
            page_id: created.page_uid.clone(),
            seo_title: None,
            description: Some("D2".to_string()),
            keywords: None,
            html: None,
        },
        "https://ex.com",
        T1 + 50,
    );
    assert!(resp.success);
    let meta = resp.meta.unwrap();
    assert_eq!(meta.seo.seo_title, "T");
    assert_eq!(meta.seo.description, "D2");
    assert_eq!(meta.created_at, T1);
    assert_eq!(meta.updated_at, T1 + 50);
    assert_eq!(store.get_page_html(&created.page_uid).unwrap(), "<p>v1</p>");
}

#[test]
fn update_page_tool_reports_missing_page() {
    let mut store = PageStore::new();
    let resp = update_page(
        &mut store,
        UpdatePageRequest {
            page_id: "nosuchuid".to_string(),
            seo_title: None,
            description: None,
            keywords: None,
            html: None,
        },
        "https://ex.com",
        T1,
    );
    assert!(!resp.success);
    assert_eq!(resp.error.as_deref(), Some("page not found"));
}

#[test]
fn delete_page_tool_removes_resolved_page() {
    let mut store = PageStore::new();
    let created = store.create_page_auto_uid(&meta_with("T", "D"), "<p>x</p>", T1).unwrap();
    let resp = delete_page(&mut store, PageIdRequest { page_id: created.page_uid.clone() });
    assert!(resp.success);
    assert!(!store.page_exists(&created.page_uid));
    let again = delete_page(&mut store, PageIdRequest { page_id: created.page_uid });
    assert!(!again.success);
}

#[test]
fn get_all_page_tool_lists_pages() {
    let mut store = PageStore::new();
    let a = store.create_page_auto_uid(&meta_with("A", "da"), "<p>a</p>", T1).unwrap();
    let resp = get_all_page(&store, "https://ex.com");
    assert!(resp.success);
    assert_eq!(resp.pages.len(), 1);
    assert_eq!(resp.pages[0].page_id, a.page_uid);
    assert_eq!(resp.pages[0].url, format!("https://ex.com/pages/A+{}", a.page_uid));
}

#[test]
fn get_page_by_id_tool_fetches_and_reports_missing() {
    let mut store = PageStore::new();
    let a = store.create_page_auto_uid(&meta_with("A", "da"), "<p>a</p>", T1).unwrap();
    let ok = get_page_by_id(
        &store,
        GetPageByIdRequest { page_id: Some(a.page_uid.clone()), ids: None },
        "https://ex.com",
    );
    assert!(ok.success);
    assert_eq!(ok.pages.len(), 1);
    assert_eq!(ok.pages[0].html, "<p>a</p>");
    let mixed = get_page_by_id(
        &store,
        GetPageByIdRequest {
            page_id: Some(a.page_uid.clone()),
            ids: Some(vec!["missinguid".to_string()]),
        },
        "https://ex.com",
    );
    assert!(!mixed.success);
    assert_eq!(mixed.pages.len(), 1);
    assert_eq!(mixed.error.as_deref(), Some("page not found: missinguid"));
    let empty = get_page_by_id(
        &store,
        GetPageByIdRequest { page_id: Some("  ".to_string()), ids: None },
        "https://ex.com",
    );
    assert!(!empty.success);
    assert_eq!(empty.error.as_deref(), Some("ids is empty"));
}

#[test]
fn update_markdown_page_tool_rerenders_body() {
    let mut store = PageStore::new();
    let created = store
        .create_page_auto_uid(&meta_with("T", "D"), "<p>old</p>", T1)
        .unwrap();
    let resp = update_markdown_page(
        &mut store,
        UpdateMarkdownPageRequest {
            page_id: created.page_uid.clone(),
            seo_title: Some("T2".to_string()),
            description: None,
            keywords: None,
            markdown: Some("# New".to_string()),
        },
        "https://ex.com",
        "<div>H</div>",
        "<html><head></head><body>{{site_header}}{{markdown_html}}</body></html>",
        T1 + 10,
    );
    assert!(resp.success);
    let meta = resp.meta.unwrap();
    assert_eq!(meta.seo.seo_title, "T2");
    assert_eq!(meta.created_at, T1);
    assert_eq!(meta.updated_at, T1 + 10);
    let html = store.get_page_html(&created.page_uid).unwrap();
    assert!(html.contains("<h1>New</h1>"));
}
