//! The page-management operations: publish, list, fetch, update and delete,
//! expressed over the store with all context (base URL, templates, the
//! current time) handed in as plain values.

use vstd::prelude::*;
use vstd::string::StringSliceAdditionalSpecFns;
use vstd::string::StrSliceExecFns;
use vstd::string::StringExecFns;
use vstd::utf8::encode_utf8;

use crate::dto::DeletePageResponse;
use crate::dto::GetAllPageResponse;
use crate::dto::GetPageByIdRequest;
use crate::dto::GetPageByIdResponse;
use crate::dto::PageIdRequest;
use crate::dto::PageMetaResponse;
use crate::dto::PageWithHtml;
use crate::dto::PageWithMeta;
use crate::dto::PushMarkdownRequest;
use crate::dto::PushPageRequest;
use crate::dto::SeoMetaResponse;
use crate::dto::UpdateMarkdownPageRequest;
use crate::dto::UpdatePageRequest;
use crate::dto::UpdatePageResponse;
use crate::store::exists_spec;
use crate::store::load_ok;
use crate::store::loaded_html;
use crate::store::loaded_meta;
use crate::store::remove_dir;
use crate::store::remove_entry;
use crate::store::sanitize_spec;
use crate::store::save_transition;
use crate::store::spec_resolve_page_id;
use crate::store::uid_seq_ok;
use crate::store::EntryView;
use crate::store::PageMeta;
use crate::store::PageMetaView;
use crate::store::PageStore;
use crate::store::SeoMeta;
use crate::store::SeoMetaView;
use crate::store::StoreError;
use crate::store::StoreView;
use crate::validate::html_ok;
use crate::validate::validate_html;
use crate::web::full_url_spec;
use crate::web::build_page_full_url;
use crate::web::markdown_html_of;
use crate::web::placeholder_spec;
use crate::web::render_markdown_page;
use crate::web::spec_substitute_all;
use crate::web::spec_substitute_ok;
use crate::strutil::string_from_utf8;

verus! {

impl StoreError {
    /// A short fixed description of the error, for response payloads.
    pub fn describe(&self) -> (r: String)
        ensures
            match self {
                StoreError::AlreadyExists => r@ == "page already exists"@,
                StoreError::NotFound => r@ == "page not found"@,
                StoreError::Corrupt => r@ == "page metadata is corrupt"@,
                StoreError::UidExhausted => r@ == "failed to generate unique page uid"@,
                StoreError::Validation(_) => r@ == "html validation failed"@,
                StoreError::Io(s) => r@ == s@,
            },
    {
        match self {
            StoreError::AlreadyExists => String::from_str("page already exists"),
            StoreError::NotFound => String::from_str("page not found"),
            StoreError::Corrupt => String::from_str("page metadata is corrupt"),
            StoreError::UidExhausted => String::from_str("failed to generate unique page uid"),
            StoreError::Validation(_) => String::from_str("html validation failed"),
            StoreError::Io(s) => s.clone(),
        }
    }
}

/// A response metadata block agrees with a stored page's metadata view.
pub open spec fn meta_resp_matches(p: PageMetaResponse, m: PageMetaView) -> bool {
    &&& p.seo.seo_title@ == m.seo.seo_title
    &&& p.seo.description@ == m.seo.description
    &&& (match p.seo.keywords {
        Some(v) => m.seo.keywords == Some(v@.map_values(|s: String| s@)),
        None => m.seo.keywords is None,
    })
    &&& p.page_uid@ == m.page_uid
    &&& p.created_at == m.created_at
    &&& p.updated_at == m.updated_at
    &&& p.view_count == m.view_count
}

/// Builds a response metadata block from stored metadata.
fn meta_response_of(meta: PageMeta) -> (r: PageMetaResponse)
    ensures
        meta_resp_matches(r, meta@),
{
    PageMetaResponse::from(meta)
}

/// The metadata carried by the caller of a publish operation: the given SEO
/// fields, no uid, no timestamps, a zero view counter.
fn fresh_meta(seo_title: String, description: String, keywords: Option<Vec<String>>) -> (r:
    PageMeta)
    ensures
        r@.seo.seo_title == seo_title@,
        r@.seo.title == seo_title@,
        r@.seo.description == description@,
        r@.seo.keywords == (match keywords {
            Some(v) => Some(v@.map_values(|s: String| s@)),
            None => None::<Seq<Seq<char>>>,
        }),
        r@.page_uid.len() == 0,
        r@.created_at == 0,
        r@.updated_at == 0,
        r@.view_count == 0,
{
    PageMeta {
        seo: SeoMeta {
            title: seo_title.clone(),
            seo_title,
            description,
            keywords,
            extra: Vec::new(),
        },
        page_uid: String::new(),
        created_at: 0,
        updated_at: 0,
        view_count: 0,
        extra: Vec::new(),
    }
}

/// Publishes a new HTML page: validates the HTML, creates the page under a
/// fresh uid, and reports the saved metadata and the page's URL.  On any
/// failure the store is untouched and the response carries an error text.
pub fn push_page(store: &mut PageStore, req: PushPageRequest, base_url: &str, now_ts: i64) -> (r:
    crate::dto::PushPageResponse)
    requires
        old(store).wf(),
        now_ts > 0,
    ensures
        final(store).wf(),
        !html_ok(encode_utf8(req.html@)) ==> !r.success,
        !r.success ==> *final(store) == *old(store) && r.page_id is None && r.url is None
            && r.meta is None && r.error is Some,
        r.success ==> ({
            &&& html_ok(encode_utf8(req.html@))
            &&& r.error is None
            &&& r.meta is Some
            &&& r.page_id is Some
            &&& r.url is Some
            &&& ({
                let m = r.meta.unwrap();
                &&& uid_seq_ok(m.page_uid@)
                &&& r.page_id.unwrap()@ == m.page_uid@
                &&& r.url.unwrap()@ == full_url_spec(base_url@, m.page_uid@, m.seo.seo_title@)
                &&& m.seo.seo_title@ == req.seo_title@
                &&& m.seo.description@ == req.description@
                &&& m.updated_at == now_ts
                &&& load_ok(final(store)@, m.page_uid@)
                &&& meta_resp_matches(m, loaded_meta(final(store)@, m.page_uid@))
                &&& loaded_html(final(store)@, m.page_uid@) == req.html@
            })
        }),
{
    match validate_html(req.html.as_str()) {
        Err(_) => {
            return crate::dto::PushPageResponse {
                success: false,
                page_id: None,
                url: None,
                meta: None,
                error: Some(String::from_str("html validation failed")),
            };
        },
        Ok(()) => {},
    }
    let meta = fresh_meta(req.seo_title, req.description, req.keywords);
    match store.create_page_auto_uid(&meta, req.html.as_str(), now_ts) {
        Ok(saved) => {
            let url = build_page_full_url(
                base_url,
                saved.page_uid.as_str(),
                saved.seo.seo_title.as_str(),
            );
            let page_id = saved.page_uid.clone();
            let resp_meta = meta_response_of(saved);
            crate::dto::PushPageResponse {
                success: true,
                page_id: Some(page_id),
                url: Some(url),
                meta: Some(resp_meta),
                error: None,
            }
        },
        Err(e) => {
            let text = e.describe();
            crate::dto::PushPageResponse {
                success: false,
                page_id: None,
                url: None,
                meta: None,
                error: Some(text),
            }
        },
    }
}

/// Publishes a new Markdown page: renders the markdown into the site
/// template, validates the result, and creates the page under a fresh uid.
/// On any failure the store is untouched.
pub fn push_markdown(
    store: &mut PageStore,
    req: PushMarkdownRequest,
    base_url: &str,
    header_html: &str,
    template: &str,
    now_ts: i64,
) -> (r: crate::dto::PushPageResponse)
    requires
        old(store).wf(),
        now_ts > 0,
    ensures
        final(store).wf(),
        !r.success ==> *final(store) == *old(store) && r.meta is None,
        r.success ==> ({
            let steps = seq![
                (placeholder_spec("site_header"@), header_html.spec_bytes()),
                (
                    placeholder_spec("markdown_html"@),
                    encode_utf8(markdown_html_of(req.markdown@)),
                ),
            ];
            &&& spec_substitute_ok(template.spec_bytes(), steps, 2)
            &&& r.meta is Some
            &&& ({
                let m = r.meta.unwrap();
                &&& uid_seq_ok(m.page_uid@)
                &&& m.seo.seo_title@ == req.seo_title@
                &&& m.updated_at == now_ts
                &&& load_ok(final(store)@, m.page_uid@)
                &&& meta_resp_matches(m, loaded_meta(final(store)@, m.page_uid@))
                &&& encode_utf8(loaded_html(final(store)@, m.page_uid@)) == spec_substitute_all(
                    template.spec_bytes(),
                    steps,
                    2,
                )
                &&& html_ok(spec_substitute_all(template.spec_bytes(), steps, 2))
            })
        }),
{
    let rendered = match render_markdown_page(req.markdown.as_str(), header_html, template) {
        Ok(b) => b,
        Err(_) => {
            return crate::dto::PushPageResponse {
                success: false,
                page_id: None,
                url: None,
                meta: None,
                error: Some(String::from_str("template missing placeholder")),
            };
        },
    };
    let html = match string_from_utf8(rendered) {
        Some(s) => s,
        None => {
            return crate::dto::PushPageResponse {
                success: false,
                page_id: None,
                url: None,
                meta: None,
                error: Some(String::from_str("rendered page is not valid text")),
            };
        },
    };
    match validate_html(html.as_str()) {
        Err(_) => {
            return crate::dto::PushPageResponse {
                success: false,
                page_id: None,
                url: None,
                meta: None,
                error: Some(String::from_str("html validation failed")),
            };
        },
        Ok(()) => {},
    }
    let meta = fresh_meta(req.seo_title, req.description, req.keywords);
    match store.create_page_auto_uid(&meta, html.as_str(), now_ts) {
        Ok(saved) => {
            let url = build_page_full_url(
                base_url,
                saved.page_uid.as_str(),
                saved.seo.seo_title.as_str(),
            );
            let page_id = saved.page_uid.clone();
            let resp_meta = meta_response_of(saved);
            crate::dto::PushPageResponse {
                success: true,
                page_id: Some(page_id),
                url: Some(url),
                meta: Some(resp_meta),
                error: None,
            }
        },
        Err(e) => {
            let text = e.describe();
            crate::dto::PushPageResponse {
                success: false,
                page_id: None,
                url: None,
                meta: None,
                error: Some(text),
            }
        },
    }
}

/// The metadata of the loadable indexed pages, in index order.
pub open spec fn listed_metas(s: StoreView, x: Seq<EntryView>, n: int) -> Seq<PageMetaView>
    decreases n,
{
    if n <= 0 {
        Seq::empty()
    } else {
        let rest = listed_metas(s, x, n - 1);
        if load_ok(s, x[n - 1].page_id) {
            rest.push(loaded_meta(s, x[n - 1].page_id))
        } else {
            rest
        }
    }
}

/// Lists every indexed page whose record can be loaded, with its public id
/// (the page uid), its URL and its metadata, in index order.
pub fn get_all_page(store: &PageStore, base_url: &str) -> (r: GetAllPageResponse)
    requires
        store.wf(),
    ensures
        r.success,
        r.error is None,
        ({
            let listed = listed_metas(store@, store@.index, store@.index.len() as int);
            &&& r.pages@.len() == listed.len()
            &&& forall|i: int|
                0 <= i < listed.len() ==> {
                    &&& meta_resp_matches(#[trigger] r.pages@[i].meta, listed[i])
                    &&& r.pages@[i].page_id@ == listed[i].page_uid
                    &&& r.pages@[i].url@ == full_url_spec(
                        base_url@,
                        listed[i].page_uid,
                        listed[i].seo.seo_title,
                    )
                }
        }),
{
    let ghost s = store@;
    let ghost x = store@.index;
    let mut pages: Vec<PageWithMeta> = Vec::new();
    let mut i: usize = 0;
    while i < store.index.pages.len()
        invariant
            store.wf(),
            0 <= i <= store.index.pages@.len(),
            s == store@,
            x == store@.index,
            pages@.len() == listed_metas(s, x, i as int).len(),
            forall|k: int|
                0 <= k < listed_metas(s, x, i as int).len() ==> {
                    &&& meta_resp_matches(
                        #[trigger] pages@[k].meta,
                        listed_metas(s, x, i as int)[k],
                    )
                    &&& pages@[k].page_id@ == listed_metas(s, x, i as int)[k].page_uid
                    &&& pages@[k].url@ == full_url_spec(
                        base_url@,
                        listed_metas(s, x, i as int)[k].page_uid,
                        listed_metas(s, x, i as int)[k].seo.seo_title,
                    )
                },
        decreases store.index.pages@.len() - i,
    {
        let entry = &store.index.pages[i];
        proof {
            assert(entry@ == x[i as int]);
        }
        match store.get_page_meta(entry.page_id.as_str()) {
            Ok(meta) => {
                proof {
                    assert(load_ok(s, x[i as int].page_id));
                    assert(meta@ == loaded_meta(s, x[i as int].page_id));
                }
                let url = build_page_full_url(
                    base_url,
                    meta.page_uid.as_str(),
                    meta.seo.seo_title.as_str(),
                );
                let page_id = meta.page_uid.clone();
                let resp_meta = meta_response_of(meta);
                pages.push(PageWithMeta { page_id, url, meta: resp_meta });
                proof {
                    assert(listed_metas(s, x, i + 1) =~= listed_metas(s, x, i as int).push(
                        loaded_meta(s, x[i as int].page_id),
                    ));
                }
            },
            Err(_) => {
                proof {
                    assert(!load_ok(s, x[i as int].page_id));
                    assert(listed_metas(s, x, i + 1) =~= listed_metas(s, x, i as int));
                }
            },
        }
        i = i + 1;
    }
    GetAllPageResponse { success: true, pages, error: None }
}

/// Deletes the page a public id resolves to.  On success the page's
/// directory and index entry are gone; on failure the store is untouched.
pub fn delete_page(store: &mut PageStore, req: PageIdRequest) -> (r: DeletePageResponse)
    requires
        old(store).wf(),
    ensures
        final(store).wf(),
        !r.success ==> *final(store) == *old(store) && r.error is Some,
        r.success <==> (match spec_resolve_page_id(old(store)@.index, req.page_id@) {
            Some(id) => exists_spec(old(store)@, id),
            None => false,
        }),
        r.success ==> ({
            let id = spec_resolve_page_id(old(store)@.index, req.page_id@).unwrap();
            &&& final(store)@.dirs == remove_dir(old(store)@.dirs, sanitize_spec(id))
            &&& final(store)@.index == remove_entry(old(store)@.index, sanitize_spec(id))
            &&& !exists_spec(final(store)@, id)
        }),
{
    let resolved = match store.resolve_page_id_by_uid(req.page_id.as_str()) {
        Some(id) => id,
        None => {
            return DeletePageResponse {
                success: false,
                error: Some(String::from_str("page not found")),
            };
        },
    };
    match store.delete_page(resolved.as_str()) {
        Ok(()) => DeletePageResponse { success: true, error: None },
        Err(e) => {
            let text = e.describe();
            DeletePageResponse { success: false, error: Some(text) }
        },
    }
}

/// The metadata the caller of an update supplies: the stored fields with the
/// requested overrides applied.
pub open spec fn merged_meta_view(
    m: PageMetaView,
    seo_title: Option<Seq<char>>,
    description: Option<Seq<char>>,
    keywords: Option<Seq<Seq<char>>>,
) -> PageMetaView {
    PageMetaView {
        seo: SeoMetaView {
            title: m.seo.title,
            seo_title: match seo_title {
                Some(t) => t,
                None => m.seo.seo_title,
            },
            description: match description {
                Some(d) => d,
                None => m.seo.description,
            },
            keywords: match keywords {
                Some(k) => Some(k),
                None => m.seo.keywords,
            },
            extra: m.seo.extra,
        },
        page_uid: m.page_uid,
        created_at: m.created_at,
        updated_at: m.updated_at,
        view_count: m.view_count,
        extra: m.extra,
    }
}

/// The store after a successful update: the merged metadata and the chosen
/// HTML persisted over the resolved id.
#[verifier::opaque]
pub open spec fn update_applied(
    s0: StoreView,
    s1: StoreView,
    resolved: Seq<char>,
    merged: PageMetaView,
    new_html: Seq<char>,
    now: int,
) -> bool {
    exists|fresh: Seq<char>|
        s1 == #[trigger] save_transition(s0, resolved, merged, new_html, now, fresh)
}

/// Updates the page a public id resolves to: absent request fields keep
/// their stored values, a new HTML body is validated before anything is
/// written, and the response reports the re-read metadata.  On any failure
/// the store is untouched.
#[verifier::rlimit(100)]
#[verifier::spinoff_prover]
pub fn update_page(
    store: &mut PageStore,
    req: UpdatePageRequest,
    base_url: &str,
    now_ts: i64,
) -> (r: UpdatePageResponse)
    requires
        old(store).wf(),
        now_ts > 0,
    ensures
        final(store).wf(),
        !r.success ==> *final(store) == *old(store) && r.meta is None && r.url is None
            && r.error is Some,
        r.success ==> spec_resolve_page_id(old(store)@.index, req.page_id@) is Some,
        r.success ==> load_ok(
            old(store)@,
            spec_resolve_page_id(old(store)@.index, req.page_id@).unwrap(),
        ),
        r.success ==> (match req.html {
            Some(h) => html_ok(encode_utf8(h@)),
            None => true,
        }),
        r.success ==> update_applied(
            old(store)@,
            final(store)@,
            spec_resolve_page_id(old(store)@.index, req.page_id@).unwrap(),
            merged_meta_view(
                loaded_meta(
                    old(store)@,
                    spec_resolve_page_id(old(store)@.index, req.page_id@).unwrap(),
                ),
                match req.seo_title {
                    Some(t) => Some(t@),
                    None => None,
                },
                match req.description {
                    Some(d) => Some(d@),
                    None => None,
                },
                match req.keywords {
                    Some(k) => Some(crate::store::string_seq_view(k)),
                    None => None,
                },
            ),
            match req.html {
                Some(h) => h@,
                None => loaded_html(
                    old(store)@,
                    spec_resolve_page_id(old(store)@.index, req.page_id@).unwrap(),
                ),
            },
            now_ts as int,
        ),
        r.success ==> r.meta is Some && meta_resp_matches(
            r.meta.unwrap(),
            loaded_meta(
                final(store)@,
                spec_resolve_page_id(old(store)@.index, req.page_id@).unwrap(),
            ),
        ),
        r.success ==> r.url is Some && r.url.unwrap()@ == full_url_spec(
            base_url@,
            loaded_meta(
                final(store)@,
                spec_resolve_page_id(old(store)@.index, req.page_id@).unwrap(),
            ).page_uid,
            loaded_meta(
                final(store)@,
                spec_resolve_page_id(old(store)@.index, req.page_id@).unwrap(),
            ).seo.seo_title,
        ),
{
    let ghost sv = store@;
    let resolved = match store.resolve_page_id_by_uid(req.page_id.as_str()) {
        Some(id) => id,
        None => {
            return UpdatePageResponse {
                success: false,
                url: None,
                meta: None,
                error: Some(String::from_str("page not found")),
            };
        },
    };
    let (mut meta, html) = match store.load_page(resolved.as_str()) {
        Ok(p) => p,
        Err(e) => {
            let text = e.describe();
            return UpdatePageResponse { success: false, url: None, meta: None, error: Some(text) };
        },
    };
    let ghost stored_v = meta@;
    let ghost html_v = html@;
    match &req.seo_title {
        Some(t) => {
            meta.seo.seo_title = t.clone();
        },
        None => {},
    }
    match &req.description {
        Some(d) => {
            meta.seo.description = d.clone();
        },
        None => {},
    }
    match &req.keywords {
        Some(k) => {
            meta.seo.keywords = Some(crate::store::clone_string_vec(k));
        },
        None => {},
    }
    let new_html: String = match &req.html {
        Some(h) => {
            match validate_html(h.as_str()) {
                Err(_) => {
                    return UpdatePageResponse {
                        success: false,
                        url: None,
                        meta: None,
                        error: Some(String::from_str("html validation failed")),
                    };
                },
                Ok(()) => {},
            }
            h.clone()
        },
        None => html,
    };
    proof {
        assert(meta@.seo.keywords == (match req.keywords {
            Some(k) => Some(crate::store::string_seq_view(k)),
            None => stored_v.seo.keywords,
        }));
        assert(meta@ == merged_meta_view(
            stored_v,
            match req.seo_title {
                Some(t) => Some(t@),
                None => None,
            },
            match req.description {
                Some(d) => Some(d@),
                None => None,
            },
            match req.keywords {
                Some(k) => Some(crate::store::string_seq_view(k)),
                None => None,
            },
        ));
        assert(new_html@ == (match req.html {
            Some(h) => h@,
            None => loaded_html(sv, resolved@),
        }));
    }
    match store.update_page(resolved.as_str(), &meta, new_html.as_str(), now_ts) {
        Ok(()) => {},
        Err(e) => {
            let text = e.describe();
            return UpdatePageResponse { success: false, url: None, meta: None, error: Some(text) };
        },
    }
    proof {
        let safe = sanitize_spec(resolved@);
        let fresh = choose|fresh: Seq<char>|
            {
                &&& (crate::store::save_needs_fresh(sv, resolved@, meta@.page_uid) ==> (
                uid_seq_ok(fresh) && !crate::store::uid_taken(sv.index, fresh)))
                &&& store@ == #[trigger] save_transition(
                    sv,
                    resolved@,
                    meta@,
                    new_html@,
                    now_ts as int,
                    fresh,
                )
            };
        assert(store@ == save_transition(sv, resolved@, meta@, new_html@, now_ts as int, fresh));
        let resolved_spec = spec_resolve_page_id(sv.index, req.page_id@).unwrap();
        assert(loaded_meta(sv, resolved_spec) == stored_v);
        let merged = merged_meta_view(
            loaded_meta(sv, resolved_spec),
            match req.seo_title {
                Some(t) => Some(t@),
                None => None,
            },
            match req.description {
                Some(d) => Some(d@),
                None => None,
            },
            match req.keywords {
                Some(k) => Some(crate::store::string_seq_view(k)),
                None => None,
            },
        );
        let nh = (match req.html {
            Some(h) => h@,
            None => loaded_html(sv, resolved_spec),
        });
        assert(resolved_spec == resolved@);
        assert(merged == meta@);
        assert(nh == new_html@);
        assert(store@ == save_transition(sv, resolved_spec, merged, nh, now_ts as int, fresh));
        assert(store@ == save_transition(
            sv,
            spec_resolve_page_id(sv.index, req.page_id@).unwrap(),
            merged_meta_view(
                loaded_meta(sv, spec_resolve_page_id(sv.index, req.page_id@).unwrap()),
                match req.seo_title {
                    Some(t) => Some(t@),
                    None => None,
                },
                match req.description {
                    Some(d) => Some(d@),
                    None => None,
                },
                match req.keywords {
                    Some(k) => Some(crate::store::string_seq_view(k)),
                    None => None,
                },
            ),
            match req.html {
                Some(h) => h@,
                None => loaded_html(sv, spec_resolve_page_id(sv.index, req.page_id@).unwrap()),
            },
            now_ts as int,
            fresh,
        ));
        assert(update_applied(sv, store@, resolved_spec, merged, nh, now_ts as int)) by {
            reveal(update_applied);
        }
        let existing = crate::store::readable_meta_at(sv.dirs, safe);
        let idx = crate::store::idx_entry_of(sv, safe);
        let uid = match crate::store::resolved_uid_opt(existing, idx, meta@.page_uid) {
            Some(u) => u,
            None => fresh,
        };
        let created = crate::store::resolve_created_spec(existing, meta@.created_at, now_ts as int);
        let m2 = crate::store::saved_meta_view(meta@, uid, created, now_ts as int);
        let dir2 = crate::store::PageDirView {
            meta: Some(crate::store::MetaDocumentView::Readable(m2)),
            html: Some(new_html@),
        };
        crate::store::lemma_upsert_dir_props(sv.dirs, safe, dir2);
        assert(store@.dirs == crate::store::upsert_dir(sv.dirs, safe, dir2));
        assert(load_ok(store@, resolved@));
    }
    match store.load_page(resolved.as_str()) {
        Ok((saved, _h)) => {
            let url = build_page_full_url(
                base_url,
                saved.page_uid.as_str(),
                saved.seo.seo_title.as_str(),
            );
            let resp_meta = meta_response_of(saved);
            UpdatePageResponse { success: true, url: Some(url), meta: Some(resp_meta), error: None }
        },
        Err(_) => {
            proof {
                assert(false);
            }
            UpdatePageResponse {
                success: false,
                url: None,
                meta: None,
                error: Some(String::from_str("page not found")),
            }
        },
    }
}

} // verus!

verus! {

/// ASCII whitespace, as a character.
pub open spec fn is_ws_char(c: char) -> bool {
    c == ' ' || c == '\t' || c == '\n' || c == '\r' || c == '\u{000C}'
}

/// A string that trims (by ASCII whitespace) to nothing.
pub open spec fn spec_blank(s: Seq<char>) -> bool {
    forall|i: int| 0 <= i < s.len() ==> is_ws_char(s[i])
}

/// Whether a string trims (by ASCII whitespace) to nothing.
fn is_blank(s: &str) -> (r: bool)
    ensures
        r == spec_blank(s@),
{
    let n = s.unicode_len();
    let mut i: usize = 0;
    while i < n && (s.get_char(i) == ' ' || s.get_char(i) == '\t' || s.get_char(i) == '\n'
        || s.get_char(i) == '\r' || s.get_char(i) == '\u{000C}')
        invariant
            0 <= i <= n,
            n == s@.len(),
            forall|j: int| 0 <= j < i ==> is_ws_char(s@[j]),
        decreases n - i,
    {
        i = i + 1;
    }
    if i >= n {
        true
    } else {
        false
    }
}

/// A fetched page is real: some uid resolves to a loadable record whose
/// metadata, HTML and URL the response reproduces.
pub open spec fn fetched_page_real(p: PageWithHtml, s: StoreView, base: Seq<char>) -> bool {
    exists|rid: Seq<char>|
        {
            &&& #[trigger] load_ok(s, rid)
            &&& meta_resp_matches(p.meta, loaded_meta(s, rid))
            &&& p.html@ == loaded_html(s, rid)
            &&& p.page_id@ == loaded_meta(s, rid).page_uid
            &&& p.url@ == full_url_spec(
                base,
                loaded_meta(s, rid).page_uid,
                loaded_meta(s, rid).seo.seo_title,
            )
        }
}

/// Fetches pages by their public ids (one id, a list, or both; blank ids are
/// ignored).  Succeeds when every id resolves and loads; every returned page
/// reproduces a stored record exactly.
pub fn get_page_by_id(store: &PageStore, req: GetPageByIdRequest, base_url: &str) -> (r:
    GetPageByIdResponse)
    requires
        store.wf(),
    ensures
        r.success <==> r.error is None,
        forall|i: int|
            0 <= i < r.pages@.len() ==> #[trigger] fetched_page_real(
                r.pages@[i],
                store@,
                base_url@,
            ),
{
    let mut ids: Vec<String> = Vec::new();
    match &req.page_id {
        Some(s) => {
            if !is_blank(s.as_str()) {
                ids.push(s.clone());
            }
        },
        None => {},
    }
    match &req.ids {
        Some(more) => {
            let mut k: usize = 0;
            while k < more.len()
                invariant
                    0 <= k <= more@.len(),
                decreases more@.len() - k,
            {
                if !is_blank(more[k].as_str()) {
                    ids.push(more[k].clone());
                }
                k = k + 1;
            }
        },
        None => {},
    }
    if ids.len() == 0 {
        return GetPageByIdResponse {
            success: false,
            pages: Vec::new(),
            error: Some(String::from_str("ids is empty")),
        };
    }
    let mut pages: Vec<PageWithHtml> = Vec::new();
    let mut errors = String::new();
    let mut failed = false;
    let mut k: usize = 0;
    while k < ids.len()
        invariant
            store.wf(),
            0 <= k <= ids@.len(),
            forall|i: int|
                0 <= i < pages@.len() ==> #[trigger] fetched_page_real(
                    pages@[i],
                    store@,
                    base_url@,
                ),
        decreases ids@.len() - k,
    {
        let id = &ids[k];
        let resolved = match store.resolve_page_id_by_uid(id.as_str()) {
            Some(rid) => rid,
            None => {
                if !errors.as_str().is_empty() {
                    errors.append("; ");
                }
                errors.append("page not found: ");
                errors.append(id.as_str());
                failed = true;
                k = k + 1;
                continue;
            },
        };
        match store.load_page(resolved.as_str()) {
            Ok((meta, html)) => {
                let url = build_page_full_url(
                    base_url,
                    meta.page_uid.as_str(),
                    meta.seo.seo_title.as_str(),
                );
                let page_id = meta.page_uid.clone();
                let ghost rid = resolved@;
                let resp_meta = meta_response_of(meta);
                let page = PageWithHtml { page_id, url, meta: resp_meta, html };
                proof {
                    assert(load_ok(store@, rid));
                    assert(fetched_page_real(page, store@, base_url@));
                }
                pages.push(page);
            },
            Err(e) => {
                if !errors.as_str().is_empty() {
                    errors.append("; ");
                }
                let text = e.describe();
                errors.append("load page failed: ");
                errors.append(id.as_str());
                errors.append(": ");
                errors.append(text.as_str());
                failed = true;
            },
        }
        k = k + 1;
    }
    if failed {
        GetPageByIdResponse { success: false, pages, error: Some(errors) }
    } else {
        GetPageByIdResponse { success: true, pages, error: None }
    }
}

/// Updates a Markdown page: absent request fields keep their stored values;
/// a new markdown body is rendered into the site template, validated, and
/// stored as the page's HTML.  On any failure the store is untouched.
#[verifier::rlimit(100)]
#[verifier::spinoff_prover]
pub fn update_markdown_page(
    store: &mut PageStore,
    req: UpdateMarkdownPageRequest,
    base_url: &str,
    header_html: &str,
    template: &str,
    now_ts: i64,
) -> (r: UpdatePageResponse)
    requires
        old(store).wf(),
        now_ts > 0,
    ensures
        final(store).wf(),
        !r.success ==> *final(store) == *old(store) && r.meta is None && r.url is None
            && r.error is Some,
        r.success ==> spec_resolve_page_id(old(store)@.index, req.page_id@) is Some,
        r.success ==> load_ok(
            old(store)@,
            spec_resolve_page_id(old(store)@.index, req.page_id@).unwrap(),
        ),
        r.success ==> exists|nh: Seq<char>|
            {
                &&& (match req.markdown {
                    Some(md) => #[trigger] encode_utf8(nh) == spec_substitute_all(
                        template.spec_bytes(),
                        seq![
                            (placeholder_spec("site_header"@), header_html.spec_bytes()),
                            (placeholder_spec("markdown_html"@), encode_utf8(markdown_html_of(md@))),
                        ],
                        2,
                    ) && html_ok(encode_utf8(nh)),
                    None => nh == loaded_html(
                        old(store)@,
                        spec_resolve_page_id(old(store)@.index, req.page_id@).unwrap(),
                    ),
                })
                &&& update_applied(
                    old(store)@,
                    final(store)@,
                    spec_resolve_page_id(old(store)@.index, req.page_id@).unwrap(),
                    merged_meta_view(
                        loaded_meta(
                            old(store)@,
                            spec_resolve_page_id(old(store)@.index, req.page_id@).unwrap(),
                        ),
                        match req.seo_title {
                            Some(t) => Some(t@),
                            None => None,
                        },
                        match req.description {
                            Some(d) => Some(d@),
                            None => None,
                        },
                        match req.keywords {
                            Some(k) => Some(crate::store::string_seq_view(k)),
                            None => None,
                        },
                    ),
                    nh,
                    now_ts as int,
                )
            },
        r.success ==> r.meta is Some && r.url is Some,
{
    let ghost sv = store@;
    let resolved = match store.resolve_page_id_by_uid(req.page_id.as_str()) {
        Some(id) => id,
        None => {
            return UpdatePageResponse {
                success: false,
                url: None,
                meta: None,
                error: Some(String::from_str("page not found")),
            };
        },
    };
    let (mut meta, html) = match store.load_page(resolved.as_str()) {
        Ok(p) => p,
        Err(e) => {
            let text = e.describe();
            return UpdatePageResponse { success: false, url: None, meta: None, error: Some(text) };
        },
    };
    let ghost stored_v = meta@;
    match &req.seo_title {
        Some(t) => {
            meta.seo.seo_title = t.clone();
        },
        None => {},
    }
    match &req.description {
        Some(d) => {
            meta.seo.description = d.clone();
        },
        None => {},
    }
    match &req.keywords {
        Some(k) => {
            meta.seo.keywords = Some(crate::store::clone_string_vec(k));
        },
        None => {},
    }
    let new_html: String = match &req.markdown {
        Some(md) => {
            let rendered = match render_markdown_page(md.as_str(), header_html, template) {
                Ok(b) => b,
                Err(_) => {
                    return UpdatePageResponse {
                        success: false,
                        url: None,
                        meta: None,
                        error: Some(String::from_str("template missing placeholder")),
                    };
                },
            };
            let s = match string_from_utf8(rendered) {
                Some(s) => s,
                None => {
                    return UpdatePageResponse {
                        success: false,
                        url: None,
                        meta: None,
                        error: Some(String::from_str("rendered page is not valid text")),
                    };
                },
            };
            match validate_html(s.as_str()) {
                Err(_) => {
                    return UpdatePageResponse {
                        success: false,
                        url: None,
                        meta: None,
                        error: Some(String::from_str("html validation failed")),
                    };
                },
                Ok(()) => {},
            }
            s
        },
        None => html,
    };
    proof {
        assert(meta@ == merged_meta_view(
            stored_v,
            match req.seo_title {
                Some(t) => Some(t@),
                None => None,
            },
            match req.description {
                Some(d) => Some(d@),
                None => None,
            },
            match req.keywords {
                Some(k) => Some(crate::store::string_seq_view(k)),
                None => None,
            },
        ));
    }
    match store.update_page(resolved.as_str(), &meta, new_html.as_str(), now_ts) {
        Ok(()) => {},
        Err(e) => {
            let text = e.describe();
            return UpdatePageResponse { success: false, url: None, meta: None, error: Some(text) };
        },
    }
    proof {
        let safe = sanitize_spec(resolved@);
        let fresh = choose|fresh: Seq<char>|
            {
                &&& (crate::store::save_needs_fresh(sv, resolved@, meta@.page_uid) ==> (
                uid_seq_ok(fresh) && !crate::store::uid_taken(sv.index, fresh)))
                &&& store@ == #[trigger] save_transition(
                    sv,
                    resolved@,
                    meta@,
                    new_html@,
                    now_ts as int,
                    fresh,
                )
            };
        assert(store@ == save_transition(sv, resolved@, meta@, new_html@, now_ts as int, fresh));
        let resolved_spec = spec_resolve_page_id(sv.index, req.page_id@).unwrap();
        assert(loaded_meta(sv, resolved_spec) == stored_v);
        let merged = merged_meta_view(
            loaded_meta(sv, resolved_spec),
            match req.seo_title {
                Some(t) => Some(t@),
                None => None,
            },
            match req.description {
                Some(d) => Some(d@),
                None => None,
            },
            match req.keywords {
                Some(k) => Some(crate::store::string_seq_view(k)),
                None => None,
            },
        );
        assert(merged == meta@);
        assert(store@ == save_transition(
            sv,
            resolved_spec,
            merged,
            new_html@,
            now_ts as int,
            fresh,
        ));
        assert(update_applied(sv, store@, resolved_spec, merged, new_html@, now_ts as int)) by {
            reveal(update_applied);
        }
        let existing = crate::store::readable_meta_at(sv.dirs, safe);
        let idx = crate::store::idx_entry_of(sv, safe);
        let uid = match crate::store::resolved_uid_opt(existing, idx, meta@.page_uid) {
            Some(u) => u,
            None => fresh,
        };
        let created = crate::store::resolve_created_spec(existing, meta@.created_at, now_ts as int);
        let m2 = crate::store::saved_meta_view(meta@, uid, created, now_ts as int);
        let dir2 = crate::store::PageDirView {
            meta: Some(crate::store::MetaDocumentView::Readable(m2)),
            html: Some(new_html@),
        };
        crate::store::lemma_upsert_dir_props(sv.dirs, safe, dir2);
        assert(store@.dirs == crate::store::upsert_dir(sv.dirs, safe, dir2));
        assert(load_ok(store@, resolved@));
    }
    match store.load_page(resolved.as_str()) {
        Ok((saved, _h)) => {
            let url = build_page_full_url(
                base_url,
                saved.page_uid.as_str(),
                saved.seo.seo_title.as_str(),
            );
            let resp_meta = meta_response_of(saved);
            UpdatePageResponse { success: true, url: Some(url), meta: Some(resp_meta), error: None }
        },
        Err(_) => {
            proof {
                assert(false);
            }
            UpdatePageResponse {
                success: false,
                url: None,
                meta: None,
                error: Some(String::from_str("page not found")),
            }
        },
    }
}

} // verus!
