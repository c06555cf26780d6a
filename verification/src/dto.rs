//! Request and response shapes of the page-management operations.
//!
//! These are plain data carriers; the shell around the crate derives its own
//! serializable copies of them.

use vstd::prelude::*;

use crate::store::PageMeta;

verus! {

/// A request to publish a new HTML page.
pub struct PushPageRequest {
    pub seo_title: String,
    pub description: String,
    pub keywords: Option<Vec<String>>,
    pub html: String,
}

/// A request to publish a new Markdown page.
pub struct PushMarkdownRequest {
    pub seo_title: String,
    pub description: String,
    pub keywords: Option<Vec<String>>,
    pub markdown: String,
}

/// The SEO metadata echoed back by the operations.
pub struct SeoMetaResponse {
    pub seo_title: String,
    pub description: String,
    pub keywords: Option<Vec<String>>,
}

/// The page metadata echoed back by the operations.
pub struct PageMetaResponse {
    pub seo: SeoMetaResponse,
    pub page_uid: String,
    pub created_at: i64,
    pub updated_at: i64,
    pub view_count: u64,
}

impl From<PageMeta> for PageMetaResponse {
    /// Projects stored metadata onto its response shape.
    fn from(meta: PageMeta) -> (r: Self) {
        PageMetaResponse {
            seo: SeoMetaResponse {
                seo_title: meta.seo.seo_title,
                description: meta.seo.description,
                keywords: meta.seo.keywords,
            },
            page_uid: meta.page_uid,
            created_at: meta.created_at,
            updated_at: meta.updated_at,
            view_count: meta.view_count,
        }
    }
}

impl vstd::std_specs::convert::FromSpecImpl<PageMeta> for PageMetaResponse {
    open spec fn obeys_from_spec() -> bool {
        true
    }

    open spec fn from_spec(meta: PageMeta) -> Self {
        PageMetaResponse {
            seo: SeoMetaResponse {
                seo_title: meta.seo.seo_title,
                description: meta.seo.description,
                keywords: meta.seo.keywords,
            },
            page_uid: meta.page_uid,
            created_at: meta.created_at,
            updated_at: meta.updated_at,
            view_count: meta.view_count,
        }
    }
}

/// The outcome of publishing a page.
pub struct PushPageResponse {
    pub success: bool,
    pub page_id: Option<String>,
    pub url: Option<String>,
    pub meta: Option<PageMetaResponse>,
    pub error: Option<String>,
}

/// The listing of every page's metadata.
pub struct GetAllPageResponse {
    pub success: bool,
    pub pages: Vec<PageWithMeta>,
    pub error: Option<String>,
}

/// The (empty) request for the full listing.
pub struct GetAllPageRequest {
    pub reserved: Option<bool>,
}

/// One listed page: its public id, its URL and its metadata.
pub struct PageWithMeta {
    pub page_id: String,
    pub url: String,
    pub meta: PageMetaResponse,
}

/// A request addressing one page by its public id.
pub struct PageIdRequest {
    pub page_id: String,
}

/// A request for one or more pages by public id.
pub struct GetPageByIdRequest {
    pub page_id: Option<String>,
    pub ids: Option<Vec<String>>,
}

/// The pages fetched by id, with their HTML.
pub struct GetPageByIdResponse {
    pub success: bool,
    pub pages: Vec<PageWithHtml>,
    pub error: Option<String>,
}

/// One fetched page: its public id, URL, metadata and HTML text.
pub struct PageWithHtml {
    pub page_id: String,
    pub url: String,
    pub meta: PageMetaResponse,
    pub html: String,
}

/// The outcome of deleting a page.
pub struct DeletePageResponse {
    pub success: bool,
    pub error: Option<String>,
}

/// A request to update a page; absent fields keep their stored values.
pub struct UpdatePageRequest {
    pub page_id: String,
    pub seo_title: Option<String>,
    pub description: Option<String>,
    pub keywords: Option<Vec<String>>,
    pub html: Option<String>,
}

/// A request to update a Markdown page; absent fields keep their stored
/// values.
pub struct UpdateMarkdownPageRequest {
    pub page_id: String,
    pub seo_title: Option<String>,
    pub description: Option<String>,
    pub keywords: Option<Vec<String>>,
    pub markdown: Option<String>,
}

/// The outcome of updating a page.
pub struct UpdatePageResponse {
    pub success: bool,
    pub url: Option<String>,
    pub meta: Option<PageMetaResponse>,
    pub error: Option<String>,
}

/// The selectable writing-style guides.
pub enum BlogStyle {
    PplxStyle,
}

/// The selectable HTML style references.
pub enum HtmlStyleType {
    Default,
}

/// A request for a writing-style guide.
pub struct GetBlogStyleRequest {
    pub style: BlogStyle,
}

/// A request for an HTML style reference.
pub struct GetHtmlStyleRequest {
    pub style: HtmlStyleType,
}

} // verus!
