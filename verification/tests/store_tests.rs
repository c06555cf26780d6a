use solin_blog::store::MetaDocument;
use solin_blog::store::PageDir;
use solin_blog::store::PageMeta;
use solin_blog::store::PageStore;
use solin_blog::store::SeoMeta;
use solin_blog::store::StoreError;
use solin_blog::store::sanitize_page_id;

fn meta_with(title: &str, desc: &str) -> PageMeta {
    PageMeta {
        seo: SeoMeta {
            title: title.to_string(),
            seo_title: title.to_string(),
            description: desc.to_string(),
            keywords: Some(vec!["k1".to_string(), "k2".to_string()]),
            extra: Vec::new(),
        },
        page_uid: String::new(),
        created_at: 0,
        updated_at: 0,
        view_count: 0,
        extra: Vec::new(),
    }
}

const T1: i64 = 1700000000;
const T2: i64 = 1700000100;

#[test]
fn create_auto_uid_then_load_round_trips() {
    let mut store = PageStore::new();
    let meta = meta_with("Title", "Desc");
    let saved = store.create_page_auto_uid(&meta, "<p>body</p>", T1).unwrap();
    assert_eq!(saved.page_uid.len(), 16);
    assert!(saved.page_uid.chars().all(|c| c.is_ascii_alphanumeric()));
    assert_eq!(saved.created_at, T1);
    assert_eq!(saved.updated_at, T1);
    let (loaded, html) = store.load_page(&saved.page_uid).unwrap();
    assert_eq!(loaded.seo.seo_title, "Title");
    assert_eq!(loaded.seo.description, "Desc");
    assert_eq!(loaded.seo.keywords, Some(vec!["k1".to_string(), "k2".to_string()]));
    assert_eq!(loaded.page_uid, saved.page_uid);
    assert_eq!(html, "<p>body</p>");
}

#[test]
fn two_generated_uids_differ() {
    let mut store = PageStore::new();
    let a = store.create_page_auto_uid(&meta_with("A", "a"), "<p>a</p>", T1).unwrap();
    let b = store.create_page_auto_uid(&meta_with("B", "b"), "<p>b</p>", T1).unwrap();
    assert_ne!(a.page_uid, b.page_uid);
}

#[test]
fn created_at_is_stable_and_updated_at_advances() {
    let mut store = PageStore::new();
    store.create_page("pid", &meta_with("T", "D"), "<p>v1</p>", T1).unwrap();
    let m1 = store.get_page_meta("pid").unwrap();
    assert_eq!(m1.created_at, T1);
    assert_eq!(m1.updated_at, T1);
    store.update_page("pid", &meta_with("T2", "D2"), "<p>v2</p>", T2).unwrap();
    let m2 = store.get_page_meta("pid").unwrap();
    assert_eq!(m2.created_at, T1);
    assert_eq!(m2.updated_at, T2);
    assert!(m2.updated_at >= m1.updated_at);
    assert_eq!(m2.page_uid, m1.page_uid);
}

#[test]
fn delete_removes_page_and_index_entry() {
    let mut store = PageStore::new();
    store.create_page("pid", &meta_with("T", "D"), "<p>x</p>", T1).unwrap();
    assert!(store.page_exists("pid"));
    assert_eq!(store.list_pages(), vec!["pid".to_string()]);
    store.delete_page("pid").unwrap();
    assert!(!store.page_exists("pid"));
    assert!(store.list_pages().is_empty());
    assert_eq!(store.delete_page("pid"), Err(StoreError::NotFound));
}

#[test]
fn resolve_by_uid_finds_directory_id() {
    let mut store = PageStore::new();
    store.create_page("dir-id", &meta_with("T", "D"), "<p>x</p>", T1).unwrap();
    let uid = store.get_page_meta("dir-id").unwrap().page_uid;
    assert_ne!(uid, "dir-id");
    assert_eq!(store.resolve_page_id_by_uid(&uid), Some("dir-id".to_string()));
    assert_eq!(store.resolve_page_id_by_uid("nosuchuid"), None);
}

#[test]
fn resolve_by_uid_prefers_direct_index_key() {
    let mut store = PageStore::new();
    let saved = store.create_page_auto_uid(&meta_with("T", "D"), "<p>x</p>", T1).unwrap();
    assert_eq!(store.resolve_page_id_by_uid(&saved.page_uid), Some(saved.page_uid.clone()));
}

#[test]
fn rebuild_index_skips_unreadable_metadata() {
    let mut store = PageStore::new();
    let mut good_meta = meta_with("Good", "D");
    good_meta.page_uid = "gooduid123456789".to_string();
    store.put_dir(
        "good".to_string(),
        PageDir {
            meta: Some(MetaDocument::Readable(good_meta)),
            html: Some("<p>ok</p>".to_string()),
        },
    );
    store.put_dir(
        "bad".to_string(),
        PageDir { meta: Some(MetaDocument::Unreadable), html: Some("<p>x</p>".to_string()) },
    );
    let rebuilt = store.rebuild_index();
    assert_eq!(rebuilt.pages.len(), 1);
    assert_eq!(rebuilt.pages[0].page_id, "good");
    assert_eq!(rebuilt.pages[0].page_uid, "gooduid123456789");
    assert_eq!(store.list_pages(), vec!["good".to_string()]);
}

#[test]
fn create_rejects_duplicate_id() {
    let mut store = PageStore::new();
    store.create_page("pid", &meta_with("T", "D"), "<p>x</p>", T1).unwrap();
    assert_eq!(
        store.create_page("pid", &meta_with("T", "D"), "<p>y</p>", T2),
        Err(StoreError::AlreadyExists)
    );
}

#[test]
fn update_rejects_missing_page() {
    let mut store = PageStore::new();
    assert_eq!(
        store.update_page("nope", &meta_with("T", "D"), "<p>x</p>", T1),
        Err(StoreError::NotFound)
    );
}

#[test]
fn save_rejects_invalid_html_and_writes_nothing() {
    let mut store = PageStore::new();
    let r = store.create_page("pid", &meta_with("T", "D"), "<p>unclosed", T1);
    assert!(matches!(r, Err(StoreError::Validation(_))));
    assert!(!store.page_exists("pid"));
}

#[test]
fn load_reports_corrupt_metadata() {
    let mut store = PageStore::new();
    store.put_dir(
        "pid".to_string(),
        PageDir { meta: Some(MetaDocument::Unreadable), html: Some("<p>x</p>".to_string()) },
    );
    assert_eq!(store.load_page("pid").err(), Some(StoreError::Corrupt));
}

#[test]
fn update_meta_only_preserves_html() {
    let mut store = PageStore::new();
    store.create_page("pid", &meta_with("T", "D"), "<p>keep</p>", T1).unwrap();
    store.update_page_meta("pid", &meta_with("T2", "D2"), T2).unwrap();
    let (m, html) = store.load_page("pid").unwrap();
    assert_eq!(m.seo.description, "D2");
    assert_eq!(m.updated_at, T2);
    assert_eq!(m.created_at, T1);
    assert_eq!(html, "<p>keep</p>");
}

#[test]
fn update_html_only_preserves_metadata_fields() {
    let mut store = PageStore::new();
    store.create_page("pid", &meta_with("T", "D"), "<p>v1</p>", T1).unwrap();
    let uid_before = store.get_page_meta("pid").unwrap().page_uid;
    store.update_page_html("pid", "<p>v2</p>", T2).unwrap();
    let (m, html) = store.load_page("pid").unwrap();
    assert_eq!(html, "<p>v2</p>");
    assert_eq!(m.seo.description, "D");
    assert_eq!(m.created_at, T1);
    assert_eq!(m.updated_at, T2);
    assert_eq!(m.page_uid, uid_before);
}

#[test]
fn update_html_rejects_invalid_html() {
    let mut store = PageStore::new();
    store.create_page("pid", &meta_with("T", "D"), "<p>v1</p>", T1).unwrap();
    let r = store.update_page_html("pid", "<p>oops", T2);
    assert!(matches!(r, Err(StoreError::Validation(_))));
    assert_eq!(store.get_page_html("pid").unwrap(), "<p>v1</p>");
}

#[test]
fn increment_view_count_touches_only_the_counter() {
    let mut store = PageStore::new();
    store.create_page("pid", &meta_with("T", "D"), "<p>x</p>", T1).unwrap();
    store.increment_view_count("pid").unwrap();
    store.increment_view_count("pid").unwrap();
    let m = store.get_page_meta("pid").unwrap();
    assert_eq!(m.view_count, 2);
    assert_eq!(m.updated_at, T1);
}

#[test]
fn caller_supplied_uid_is_kept() {
    let mut store = PageStore::new();
    let mut m = meta_with("T", "D");
    m.page_uid = "mychosenuid00001".to_string();
    store.create_page("pid", &m, "<p>x</p>", T1).unwrap();
    assert_eq!(store.get_page_meta("pid").unwrap().page_uid, "mychosenuid00001");
}

#[test]
fn caller_supplied_created_at_is_kept() {
    let mut store = PageStore::new();
    let mut m = meta_with("T", "D");
    m.created_at = 42;
    store.create_page("pid", &m, "<p>x</p>", T1).unwrap();
    let got = store.get_page_meta("pid").unwrap();
    assert_eq!(got.created_at, 42);
    assert_eq!(got.updated_at, T1);
}

#[test]
fn extra_fields_survive_read_modify_write() {
    let mut store = PageStore::new();
    let mut m = meta_with("T", "D");
    m.extra.push(("custom".to_string(), "{\"a\":1}".to_string()));
    store.create_page("pid", &m, "<p>x</p>", T1).unwrap();
    let (loaded, _) = store.load_page("pid").unwrap();
    store.update_page("pid", &loaded, "<p>y</p>", T2).unwrap();
    let (after, _) = store.load_page("pid").unwrap();
    assert_eq!(after.extra, vec![("custom".to_string(), "{\"a\":1}".to_string())]);
}

#[test]
fn sanitize_page_id_keeps_safe_characters() {
    assert_eq!(sanitize_page_id("My Page/1"), "My_Page_1");
    assert_eq!(sanitize_page_id("abc-DEF_09"), "abc-DEF_09");
    assert_eq!(sanitize_page_id(""), "page");
    assert_eq!(sanitize_page_id("日本語"), "___");
}

#[test]
fn sanitize_page_id_is_idempotent() {
    for raw in ["My Page/1", "", "a.b.c", "日本語x"] {
        let once = sanitize_page_id(raw);
        assert_eq!(sanitize_page_id(&once), once);
    }
}

#[test]
fn sanitized_ids_share_one_directory() {
    let mut store = PageStore::new();
    store.create_page("a b", &meta_with("T", "D"), "<p>x</p>", T1).unwrap();
    assert!(store.page_exists("a_b"));
    let entries = store.list_page_entries();
    assert_eq!(entries.len(), 1);
    assert_eq!(entries[0].page_id, "a_b");
    assert_eq!(entries[0].original_id, Some("a b".to_string()));
}
