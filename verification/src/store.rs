//! The page store and its data model.
//!
//! A page is a directory under the storage root holding a metadata document
//! and an HTML document; beside the page directories lives a secondary index,
//! a derived cache that is always reconstructible from the records.  The store
//! here works on an explicit in-memory model of that root: a sequence of
//! named directories (whose metadata documents may be missing or unreadable,
//! as files on disk can be) and the index.  The unverified shell mirrors every
//! change of this model to disk and loads it back at startup.

use vstd::prelude::*;
use vstd::string::StringSliceAdditionalSpecFns;
use vstd::string::StrSliceExecFns;
use vstd::string::StringExecFns;

use crate::strutil::string_push_char;
use crate::validate::SpecValidationError;
use crate::validate::ValidationError;

verus! {

// ---------------------------------------------------------------------------
// Data model
// ---------------------------------------------------------------------------

/// SEO metadata of a page.  `title` is the display title and `seo_title` its
/// legacy near-synonym; `extra` preserves unknown metadata fields (as raw
/// document text per field) across read-modify-write cycles.
pub struct SeoMeta {
    pub title: String,
    pub seo_title: String,
    pub description: String,
    pub keywords: Option<Vec<String>>,
    pub extra: Vec<(String, String)>,
}

/// Full metadata of a page.  Once persisted, `created_at > 0`,
/// `updated_at >= created_at`, and `page_uid` is a fixed-length alphanumeric
/// identifier that never changes again.
pub struct PageMeta {
    pub seo: SeoMeta,
    pub page_uid: String,
    pub created_at: i64,
    pub updated_at: i64,
    pub view_count: u64,
    pub extra: Vec<(String, String)>,
}

/// One record of the secondary index: a snapshot of the page's SEO metadata
/// keyed by its sanitized directory id.  `original_id` keeps the
/// caller-supplied identifier when sanitization altered it.
pub struct PageIndexEntry {
    pub page_id: String,
    pub seo: SeoMeta,
    pub page_uid: String,
    pub original_id: Option<String>,
}

/// The secondary index: entries with pairwise distinct `page_id`s, in
/// insertion order.
pub struct StoreIndex {
    pub pages: Vec<PageIndexEntry>,
}

/// A metadata document found in a page directory: either it parses to a
/// `PageMeta` or it does not.
pub enum MetaDocument {
    Readable(PageMeta),
    Unreadable,
}

/// One page directory: its metadata document and its HTML document, either of
/// which may be missing.
pub struct PageDir {
    pub meta: Option<MetaDocument>,
    pub html: Option<String>,
}

/// A named directory under the storage root.
pub struct DirEntry {
    pub name: String,
    pub dir: PageDir,
}

/// The page store: the model of the storage root (its page directories) and
/// the secondary index.
pub struct PageStore {
    pub dirs: Vec<DirEntry>,
    pub index: StoreIndex,
}

// ---------------------------------------------------------------------------
// Views
// ---------------------------------------------------------------------------

pub ghost struct SeoMetaView {
    pub title: Seq<char>,
    pub seo_title: Seq<char>,
    pub description: Seq<char>,
    pub keywords: Option<Seq<Seq<char>>>,
    pub extra: Seq<(Seq<char>, Seq<char>)>,
}

pub ghost struct PageMetaView {
    pub seo: SeoMetaView,
    pub page_uid: Seq<char>,
    pub created_at: int,
    pub updated_at: int,
    pub view_count: int,
    pub extra: Seq<(Seq<char>, Seq<char>)>,
}

pub ghost struct EntryView {
    pub page_id: Seq<char>,
    pub seo: SeoMetaView,
    pub page_uid: Seq<char>,
    pub original_id: Option<Seq<char>>,
}

pub ghost enum MetaDocumentView {
    Readable(PageMetaView),
    Unreadable,
}

pub ghost struct PageDirView {
    pub meta: Option<MetaDocumentView>,
    pub html: Option<Seq<char>>,
}

pub ghost struct StoreView {
    pub dirs: Seq<(Seq<char>, PageDirView)>,
    pub index: Seq<EntryView>,
}

impl View for SeoMeta {
    type V = SeoMetaView;

    open spec fn view(&self) -> SeoMetaView {
        SeoMetaView {
            title: self.title@,
            seo_title: self.seo_title@,
            description: self.description@,
            keywords: match self.keywords {
                Some(v) => Some(v@.map_values(|s: String| s@)),
                None => None,
            },
            extra: self.extra@.map_values(|p: (String, String)| (p.0@, p.1@)),
        }
    }
}

impl View for PageMeta {
    type V = PageMetaView;

    open spec fn view(&self) -> PageMetaView {
        PageMetaView {
            seo: self.seo@,
            page_uid: self.page_uid@,
            created_at: self.created_at as int,
            updated_at: self.updated_at as int,
            view_count: self.view_count as int,
            extra: self.extra@.map_values(|p: (String, String)| (p.0@, p.1@)),
        }
    }
}

impl View for PageIndexEntry {
    type V = EntryView;

    open spec fn view(&self) -> EntryView {
        EntryView {
            page_id: self.page_id@,
            seo: self.seo@,
            page_uid: self.page_uid@,
            original_id: match self.original_id {
                Some(ref s) => Some(s@),
                None => None,
            },
        }
    }
}

impl View for MetaDocument {
    type V = MetaDocumentView;

    open spec fn view(&self) -> MetaDocumentView {
        match self {
            MetaDocument::Readable(m) => MetaDocumentView::Readable(m@),
            MetaDocument::Unreadable => MetaDocumentView::Unreadable,
        }
    }
}

impl View for PageDir {
    type V = PageDirView;

    open spec fn view(&self) -> PageDirView {
        PageDirView {
            meta: match self.meta {
                Some(ref d) => Some(d@),
                None => None,
            },
            html: match self.html {
                Some(ref s) => Some(s@),
                None => None,
            },
        }
    }
}

impl View for StoreIndex {
    type V = Seq<EntryView>;

    open spec fn view(&self) -> Seq<EntryView> {
        self.pages@.map_values(|e: PageIndexEntry| e@)
    }
}

impl View for PageStore {
    type V = StoreView;

    open spec fn view(&self) -> StoreView {
        StoreView {
            dirs: self.dirs@.map_values(|e: DirEntry| (e.name@, e.dir@)),
            index: self.index@,
        }
    }
}

// ---------------------------------------------------------------------------
// Errors
// ---------------------------------------------------------------------------

/// The ways a store operation can fail, at the specification level.
pub ghost enum SpecStoreError {
    /// A record for the id already exists.
    AlreadyExists,
    /// No record for the id exists, or a document of it is missing.
    NotFound,
    /// A metadata document exists but does not parse.
    Corrupt,
    /// The identifier generator ran out of collision-free attempts.
    UidExhausted,
    /// The HTML failed structural validation; no document was written.
    Validation(SpecValidationError),
    /// An underlying storage failure, described in words.
    Io(Seq<char>),
}

/// The errors a store operation can return.
#[derive(Debug, Clone, PartialEq, Eq)]
pub enum StoreError {
    AlreadyExists,
    NotFound,
    Corrupt,
    UidExhausted,
    Validation(ValidationError),
    Io(String),
}

impl View for StoreError {
    type V = SpecStoreError;

    open spec fn view(&self) -> SpecStoreError {
        match self {
            StoreError::AlreadyExists => SpecStoreError::AlreadyExists,
            StoreError::NotFound => SpecStoreError::NotFound,
            StoreError::Corrupt => SpecStoreError::Corrupt,
            StoreError::UidExhausted => SpecStoreError::UidExhausted,
            StoreError::Validation(e) => SpecStoreError::Validation(e@),
            StoreError::Io(s) => SpecStoreError::Io(s@),
        }
    }
}

// ---------------------------------------------------------------------------
// Cloning (hand-written so that contracts can rely on view equality)
// ---------------------------------------------------------------------------

/// Clones a vector of strings, keeping every element's characters.
pub fn clone_string_vec(v: &Vec<String>) -> (r: Vec<String>)
    ensures
        r@.map_values(|s: String| s@) =~= v@.map_values(|s: String| s@),
{
    let mut out: Vec<String> = Vec::new();
    let mut i: usize = 0;
    while i < v.len()
        invariant
            0 <= i <= v@.len(),
            out@.len() == i,
            forall|j: int| 0 <= j < i ==> out@[j]@ == v@[j]@,
        decreases v@.len() - i,
    {
        out.push(v[i].clone());
        i = i + 1;
    }
    out
}

/// Clones a vector of string pairs, keeping every element's characters.
pub fn clone_string_pairs(v: &Vec<(String, String)>) -> (r: Vec<(String, String)>)
    ensures
        r@.map_values(|p: (String, String)| (p.0@, p.1@)) =~= v@.map_values(
            |p: (String, String)| (p.0@, p.1@),
        ),
{
    let mut out: Vec<(String, String)> = Vec::new();
    let mut i: usize = 0;
    while i < v.len()
        invariant
            0 <= i <= v@.len(),
            out@.len() == i,
            forall|j: int| 0 <= j < i ==> out@[j].0@ == v@[j].0@ && out@[j].1@ == v@[j].1@,
        decreases v@.len() - i,
    {
        let a = v[i].0.clone();
        let b = v[i].1.clone();
        out.push((a, b));
        i = i + 1;
    }
    out
}

impl Clone for SeoMeta {
    /// Clones the metadata, keeping its view.
    fn clone(&self) -> (r: Self)
        ensures
            r@ == self@,
    {
        let keywords = match &self.keywords {
            Some(v) => Some(clone_string_vec(v)),
            None => None,
        };
        let r = SeoMeta {
            title: self.title.clone(),
            seo_title: self.seo_title.clone(),
            description: self.description.clone(),
            keywords,
            extra: clone_string_pairs(&self.extra),
        };
        proof {
            assert(match r.keywords {
                Some(v) => Some(v@.map_values(|s: String| s@)),
                None => None::<Seq<Seq<char>>>,
            } == match self.keywords {
                Some(v) => Some(v@.map_values(|s: String| s@)),
                None => None::<Seq<Seq<char>>>,
            });
        }
        r
    }
}

impl Clone for PageMeta {
    /// Clones the metadata, keeping its view.
    fn clone(&self) -> (r: Self)
        ensures
            r@ == self@,
    {
        PageMeta {
            seo: self.seo.clone(),
            page_uid: self.page_uid.clone(),
            created_at: self.created_at,
            updated_at: self.updated_at,
            view_count: self.view_count,
            extra: clone_string_pairs(&self.extra),
        }
    }
}

impl Clone for PageIndexEntry {
    /// Clones the entry, keeping its view.
    fn clone(&self) -> (r: Self)
        ensures
            r@ == self@,
    {
        let original_id = match &self.original_id {
            Some(s) => Some(s.clone()),
            None => None,
        };
        let r = PageIndexEntry {
            page_id: self.page_id.clone(),
            seo: self.seo.clone(),
            page_uid: self.page_uid.clone(),
            original_id,
        };
        proof {
            assert(r@.original_id == self@.original_id);
        }
        r
    }
}

// ---------------------------------------------------------------------------
// Identifier sanitization
// ---------------------------------------------------------------------------

/// A character that survives sanitization: ASCII alphanumerics, `-` and `_`.
pub open spec fn keep_char(c: char) -> bool {
    ('a' <= c && c <= 'z') || ('A' <= c && c <= 'Z') || ('0' <= c && c <= '9') || c == '-' || c
        == '_'
}

/// Character-by-character sanitization: kept characters stay, everything else
/// becomes `_`.
pub open spec fn sanitize_chars(s: Seq<char>) -> Seq<char> {
    s.map_values(|c: char| if keep_char(c) { c } else { '_' })
}

/// Full sanitization: an empty input becomes the literal placeholder id.
pub open spec fn sanitize_spec(s: Seq<char>) -> Seq<char> {
    if s.len() == 0 {
        "page"@
    } else {
        sanitize_chars(s)
    }
}

/// Maps a caller-supplied id to a directory-safe one: ASCII alphanumerics,
/// `-` and `_` are kept, every other character becomes `_`, and an empty id
/// becomes the placeholder `"page"`.
pub fn sanitize_page_id(page_id: &str) -> (r: String)
    ensures
        r@ == sanitize_spec(page_id@),
        r@.len() > 0,
{
    let n = page_id.unicode_len();
    if n == 0 {
        let out = String::from_str("page");
        proof {
            reveal_strlit("page");
        }
        return out;
    }
    let mut out = String::new();
    let mut i: usize = 0;
    while i < n
        invariant
            0 <= i <= n,
            n == page_id@.len(),
            out@ =~= sanitize_chars(page_id@.take(i as int)),
        decreases n - i,
    {
        let c = page_id.get_char(i);
        let kept = ('a' <= c && c <= 'z') || ('A' <= c && c <= 'Z') || ('0' <= c && c <= '9') || c
            == '-' || c == '_';
        if kept {
            string_push_char(&mut out, c);
        } else {
            string_push_char(&mut out, '_');
        }
        proof {
            assert(page_id@.take(i + 1) =~= page_id@.take(i as int).push(page_id@[i as int]));
            assert(out@ =~= sanitize_chars(page_id@.take(i + 1)));
        }
        i = i + 1;
    }
    proof {
        assert(page_id@.take(n as int) =~= page_id@);
    }
    out
}

/// Sanitization is idempotent: sanitizing a sanitized id changes nothing.
pub proof fn lemma_sanitize_idempotent(s: Seq<char>)
    ensures
        sanitize_spec(sanitize_spec(s)) == sanitize_spec(s),
{
    reveal_strlit("page");
    if s.len() == 0 {
        assert(keep_char('p') && keep_char('a') && keep_char('g') && keep_char('e'));
        assert(sanitize_chars("page"@) =~= "page"@);
    } else {
        assert(sanitize_chars(sanitize_chars(s)) =~= sanitize_chars(s));
    }
}

// ---------------------------------------------------------------------------
// Unique identifier generation
// ---------------------------------------------------------------------------

/// The length of every generated page identifier.
pub const PAGE_UID_LEN: usize = 16;

/// A character of the identifier alphabet: ASCII alphanumerics.
pub open spec fn is_uid_char(c: char) -> bool {
    ('A' <= c && c <= 'Z') || ('a' <= c && c <= 'z') || ('0' <= c && c <= '9')
}

/// A well-formed generated identifier: fixed length, alphabet characters
/// only.
pub open spec fn uid_seq_ok(u: Seq<char>) -> bool {
    u.len() == PAGE_UID_LEN && forall|i: int| 0 <= i < u.len() ==> is_uid_char(u[i])
}

/// Some index entry already carries this page uid.
pub open spec fn uid_taken(x: Seq<EntryView>, u: Seq<char>) -> bool {
    exists|i: int| 0 <= i < x.len() && x[i].page_uid == u
}

/// Relies on getrandom::getrandom: fills the buffer with bytes from the
/// system's cryptographically strong random source, or reports failure.
#[verifier::external_body]
fn fill_random(buf: &mut Vec<u8>) -> (ok: bool)
    ensures
        final(buf)@.len() == old(buf)@.len(),
{
    getrandom::getrandom(buf.as_mut_slice()).is_ok()
}

/// The alphabet character a random byte selects: `A`-`Z`, then `a`-`z`, then
/// `0`-`9`, by the byte's residue modulo 62.
pub open spec fn uid_char_of(b: u8) -> char {
    let r = b % 62;
    if r < 26 {
        ((65 + r) as u8) as char
    } else if r < 52 {
        ((97 + (r - 26)) as u8) as char
    } else {
        ((48 + (r - 52)) as u8) as char
    }
}

/// Every selected alphabet character is alphanumeric.
pub proof fn lemma_uid_char_of_ok(b: u8)
    ensures
        is_uid_char(uid_char_of(b)),
{
}

/// Draws one candidate identifier from the random source: a fixed-length
/// string over the alphanumeric alphabet, or `None` when the random source
/// fails.
pub fn generate_page_uid() -> (r: Option<String>)
    ensures
        r is Some ==> uid_seq_ok(r.unwrap()@),
{
    let mut buf: Vec<u8> = Vec::new();
    let mut i: usize = 0;
    while i < PAGE_UID_LEN
        invariant
            buf@.len() == i,
            0 <= i <= PAGE_UID_LEN,
        decreases PAGE_UID_LEN - i,
    {
        buf.push(0);
        i = i + 1;
    }
    if !fill_random(&mut buf) {
        return None;
    }
    let mut out = String::new();
    let mut i: usize = 0;
    while i < PAGE_UID_LEN
        invariant
            buf@.len() == PAGE_UID_LEN,
            0 <= i <= PAGE_UID_LEN,
            out@.len() == i,
            forall|j: int| 0 <= j < i ==> is_uid_char(out@[j]),
        decreases PAGE_UID_LEN - i,
    {
        let b = buf[i];
        let r = b % 62;
        let c = if r < 26 {
            (65 + r) as char
        } else if r < 52 {
            (97 + (r - 26)) as char
        } else {
            (48 + (r - 52)) as char
        };
        proof {
            lemma_uid_char_of_ok(b);
            assert(c == uid_char_of(b));
        }
        string_push_char(&mut out, c);
        i = i + 1;
    }
    Some(out)
}

/// Produces an identifier that no entry of the given index carries yet,
/// resampling up to eight times.  Fails with `UidExhausted` when every
/// attempt collides, or with `Io` when the random source fails.
pub fn generate_unique_page_uid(index: &StoreIndex) -> (r: Result<String, StoreError>)
    ensures
        match r {
            Ok(u) => uid_seq_ok(u@) && !uid_taken(index@, u@),
            Err(e) => e is UidExhausted || e is Io,
        },
{
    let mut attempt: usize = 0;
    while attempt < 8
        invariant
            0 <= attempt <= 8,
        decreases 8 - attempt,
    {
        let uid = match generate_page_uid() {
            Some(u) => u,
            None => {
                return Err(StoreError::Io(String::from_str("random source failed")));
            },
        };
        let mut taken = false;
        let mut i: usize = 0;
        while i < index.pages.len()
            invariant
                0 <= i <= index.pages@.len(),
                !taken ==> forall|j: int| 0 <= j < i ==> index.pages@[j]@.page_uid != uid@,
                taken ==> uid_taken(index@, uid@),
            decreases index.pages@.len() - i,
        {
            if index.pages[i].page_uid == uid {
                proof {
                    assert(index@[i as int].page_uid == uid@);
                }
                taken = true;
            }
            i = i + 1;
        }
        if !taken {
            proof {
                assert(forall|j: int|
                    0 <= j < index@.len() ==> index@[j] == index.pages@[j]@ && index@[j].page_uid
                        != uid@);
            }
            return Ok(uid);
        }
        attempt = attempt + 1;
    }
    Err(StoreError::UidExhausted)
}

} // verus!

verus! {

// ---------------------------------------------------------------------------
// Well-formedness and view-level lookups
// ---------------------------------------------------------------------------

/// Directory names under the root are pairwise distinct.
pub open spec fn dirs_wf(d: Seq<(Seq<char>, PageDirView)>) -> bool {
    forall|i: int, j: int| 0 <= i < j < d.len() ==> d[i].0 != d[j].0
}

/// Index entries carry pairwise distinct page ids.
pub open spec fn index_wf(x: Seq<EntryView>) -> bool {
    forall|i: int, j: int| 0 <= i < j < x.len() ==> x[i].page_id != x[j].page_id
}

/// A directory of this name exists.
pub open spec fn has_key(d: Seq<(Seq<char>, PageDirView)>, name: Seq<char>) -> bool {
    exists|k: int| 0 <= k < d.len() && d[k].0 == name
}

/// The position of the directory of this name.
pub open spec fn key_at(d: Seq<(Seq<char>, PageDirView)>, name: Seq<char>) -> int {
    choose|k: int| 0 <= k < d.len() && d[k].0 == name
}

/// The directory of this name.
pub open spec fn dir_at(d: Seq<(Seq<char>, PageDirView)>, name: Seq<char>) -> PageDirView {
    d[key_at(d, name)].1
}

/// An index entry with this page id exists.
pub open spec fn index_has(x: Seq<EntryView>, id: Seq<char>) -> bool {
    exists|k: int| 0 <= k < x.len() && x[k].page_id == id
}

/// The position of the entry with this page id.
pub open spec fn entry_idx(x: Seq<EntryView>, id: Seq<char>) -> int {
    choose|k: int| 0 <= k < x.len() && x[k].page_id == id
}

/// The entry with this page id.
pub open spec fn entry_at(x: Seq<EntryView>, id: Seq<char>) -> EntryView {
    x[entry_idx(x, id)]
}

/// With distinct names, a matching position is the looked-up position.
pub proof fn lemma_key_at_unique(d: Seq<(Seq<char>, PageDirView)>, name: Seq<char>, i: int)
    requires
        dirs_wf(d),
        0 <= i < d.len(),
        d[i].0 == name,
    ensures
        has_key(d, name),
        key_at(d, name) == i,
{
    assert(has_key(d, name));
    let k = key_at(d, name);
    if k != i {
        assert(d[k].0 == d[i].0);
        assert(false);
    }
}

/// With distinct ids, a matching position is the looked-up position.
pub proof fn lemma_entry_idx_unique(x: Seq<EntryView>, id: Seq<char>, i: int)
    requires
        index_wf(x),
        0 <= i < x.len(),
        x[i].page_id == id,
    ensures
        index_has(x, id),
        entry_idx(x, id) == i,
{
    assert(index_has(x, id));
    let k = entry_idx(x, id);
    if k != i {
        assert(x[k].page_id == x[i].page_id);
        assert(false);
    }
}

impl PageStore {
    /// Both halves of the store are well formed.
    pub open spec fn wf(&self) -> bool {
        dirs_wf(self@.dirs) && index_wf(self@.index)
    }
}

/// A record for this (raw) id exists: it is indexed or its directory exists.
pub open spec fn exists_spec(s: StoreView, raw_id: Seq<char>) -> bool {
    index_has(s.index, sanitize_spec(raw_id)) || has_key(s.dirs, sanitize_spec(raw_id))
}

/// The parsed metadata of the directory of this name, when the directory
/// exists and its metadata document is present and readable.
pub open spec fn readable_meta_at(d: Seq<(Seq<char>, PageDirView)>, name: Seq<char>) -> Option<
    PageMetaView,
> {
    if has_key(d, name) {
        match dir_at(d, name).meta {
            Some(MetaDocumentView::Readable(m)) => Some(m),
            _ => None,
        }
    } else {
        None
    }
}

/// The directory of this name exists and holds an unreadable metadata
/// document.
pub open spec fn meta_unreadable_at(d: Seq<(Seq<char>, PageDirView)>, name: Seq<char>) -> bool {
    has_key(d, name) && dir_at(d, name).meta == Some(MetaDocumentView::Unreadable)
}

/// The index entry for this sanitized id, if any.
pub open spec fn idx_entry_of(s: StoreView, safe: Seq<char>) -> Option<EntryView> {
    if index_has(s.index, safe) {
        Some(entry_at(s.index, safe))
    } else {
        None
    }
}

// ---------------------------------------------------------------------------
// Metadata priority resolution
// ---------------------------------------------------------------------------

pub open spec fn view_opt_meta(m: Option<&PageMeta>) -> Option<PageMetaView> {
    match m {
        Some(x) => Some(x@),
        None => None,
    }
}

pub open spec fn view_opt_entry(e: Option<&PageIndexEntry>) -> Option<EntryView> {
    match e {
        Some(x) => Some(x@),
        None => None,
    }
}

/// The permanent page uid by priority: the on-disk metadata's uid, else the
/// index entry's, else the caller's — each only when non-empty — else `None`
/// (a fresh uid must be generated).
pub open spec fn resolved_uid_opt(
    existing: Option<PageMetaView>,
    idx: Option<EntryView>,
    caller_uid: Seq<char>,
) -> Option<Seq<char>> {
    if existing is Some && existing.unwrap().page_uid.len() > 0 {
        Some(existing.unwrap().page_uid)
    } else if idx is Some && idx.unwrap().page_uid.len() > 0 {
        Some(idx.unwrap().page_uid)
    } else if caller_uid.len() > 0 {
        Some(caller_uid)
    } else {
        None
    }
}

/// `created_at` by priority: the on-disk value if positive, else the caller's
/// if positive, else the current time.
pub open spec fn resolve_created_spec(
    existing: Option<PageMetaView>,
    caller_created: int,
    now: int,
) -> int {
    if existing is Some && existing.unwrap().created_at > 0 {
        existing.unwrap().created_at
    } else if caller_created > 0 {
        caller_created
    } else {
        now
    }
}

/// The recorded original id: whatever the index already recorded, else the
/// raw id when sanitization altered it.
pub open spec fn resolve_original_id_spec(
    idx: Option<EntryView>,
    raw_id: Seq<char>,
    safe_id: Seq<char>,
) -> Option<Seq<char>> {
    if idx is Some && idx.unwrap().original_id is Some {
        idx.unwrap().original_id
    } else if safe_id != raw_id {
        Some(raw_id)
    } else {
        None
    }
}

/// Resolves the permanent page uid from the three candidates, in priority
/// order; `None` means a fresh uid must be generated.
pub fn resolve_page_uid(
    existing: Option<&PageMeta>,
    index_entry: Option<&PageIndexEntry>,
    caller_uid: &String,
) -> (r: Option<String>)
    ensures
        ({
            let spec_r = resolved_uid_opt(
                view_opt_meta(existing),
                view_opt_entry(index_entry),
                caller_uid@,
            );
            match r {
                Some(u) => spec_r == Some(u@),
                None => spec_r is None,
            }
        }),
{
    match existing {
        Some(m) => {
            if !m.page_uid.as_str().is_empty() {
                return Some(m.page_uid.clone());
            }
        },
        None => {},
    }
    match index_entry {
        Some(e) => {
            if !e.page_uid.as_str().is_empty() {
                return Some(e.page_uid.clone());
            }
        },
        None => {},
    }
    if !caller_uid.as_str().is_empty() {
        return Some(caller_uid.clone());
    }
    None
}

/// Resolves `created_at` from the on-disk value, the caller's value and the
/// current time, in priority order.
pub fn resolve_created_at(existing: Option<&PageMeta>, caller_created: i64, now_ts: i64) -> (r:
    i64)
    ensures
        r as int == resolve_created_spec(
            view_opt_meta(existing),
            caller_created as int,
            now_ts as int,
        ),
{
    match existing {
        Some(m) => {
            if m.created_at > 0 {
                return m.created_at;
            }
        },
        None => {},
    }
    if caller_created > 0 {
        caller_created
    } else {
        now_ts
    }
}

// ---------------------------------------------------------------------------
// Exec lookups
// ---------------------------------------------------------------------------

/// Finds the directory of this name.
fn find_dir_idx(dirs: &Vec<DirEntry>, name: &String) -> (r: Option<usize>)
    ensures
        match r {
            Some(i) => i < dirs@.len() && dirs@[i as int].name@ == name@,
            None => forall|k: int| 0 <= k < dirs@.len() ==> dirs@[k].name@ != name@,
        },
{
    let mut i: usize = 0;
    while i < dirs.len()
        invariant
            0 <= i <= dirs@.len(),
            forall|k: int| 0 <= k < i ==> dirs@[k].name@ != name@,
        decreases dirs@.len() - i,
    {
        if dirs[i].name == *name {
            return Some(i);
        }
        i = i + 1;
    }
    None
}

/// Finds the index entry with this page id.
fn find_entry_pos(pages: &Vec<PageIndexEntry>, id: &String) -> (r: Option<usize>)
    ensures
        match r {
            Some(i) => i < pages@.len() && pages@[i as int].page_id@ == id@,
            None => forall|k: int| 0 <= k < pages@.len() ==> pages@[k].page_id@ != id@,
        },
{
    let mut i: usize = 0;
    while i < pages.len()
        invariant
            0 <= i <= pages@.len(),
            forall|k: int| 0 <= k < i ==> pages@[k].page_id@ != id@,
        decreases pages@.len() - i,
    {
        if pages[i].page_id == *id {
            return Some(i);
        }
        i = i + 1;
    }
    None
}

} // verus!

verus! {

// ---------------------------------------------------------------------------
// View-level updates
// ---------------------------------------------------------------------------

/// Replaces the directory of this name, or appends it.
pub open spec fn upsert_dir(
    d: Seq<(Seq<char>, PageDirView)>,
    name: Seq<char>,
    dir: PageDirView,
) -> Seq<(Seq<char>, PageDirView)> {
    if has_key(d, name) {
        d.update(key_at(d, name), (name, dir))
    } else {
        d.push((name, dir))
    }
}

/// Replaces the entry with this entry's page id, or appends it.
pub open spec fn upsert_entry(x: Seq<EntryView>, e: EntryView) -> Seq<EntryView> {
    if index_has(x, e.page_id) {
        x.update(entry_idx(x, e.page_id), e)
    } else {
        x.push(e)
    }
}

/// Removes the directory of this name, if present.
pub open spec fn remove_dir(d: Seq<(Seq<char>, PageDirView)>, name: Seq<char>) -> Seq<
    (Seq<char>, PageDirView),
> {
    if has_key(d, name) {
        d.remove(key_at(d, name))
    } else {
        d
    }
}

/// Removes the entry with this page id, if present.
pub open spec fn remove_entry(x: Seq<EntryView>, id: Seq<char>) -> Seq<EntryView> {
    if index_has(x, id) {
        x.remove(entry_idx(x, id))
    } else {
        x
    }
}

/// An upsert keeps names distinct, puts the directory at its name, and leaves
/// every other name untouched.
pub proof fn lemma_upsert_dir_props(d: Seq<(Seq<char>, PageDirView)>, name: Seq<char>, dir: PageDirView)
    requires
        dirs_wf(d),
    ensures
        dirs_wf(upsert_dir(d, name, dir)),
        has_key(upsert_dir(d, name, dir), name),
        dir_at(upsert_dir(d, name, dir), name) == dir,
        forall|n2: Seq<char>|
            n2 != name ==> (has_key(upsert_dir(d, name, dir), n2) == has_key(d, n2)),
        forall|n2: Seq<char>|
            n2 != name && has_key(d, n2) ==> dir_at(upsert_dir(d, name, dir), n2) == dir_at(d, n2),
{
    let u = upsert_dir(d, name, dir);
    if has_key(d, name) {
        let k = key_at(d, name);
        assert(0 <= k < d.len() && d[k].0 == name);
        assert(forall|i: int| 0 <= i < u.len() ==> u[i].0 == d[i].0);
        assert(dirs_wf(u));
        lemma_key_at_unique(u, name, k);
        assert forall|n2: Seq<char>| n2 != name && has_key(d, n2) implies dir_at(u, n2) == dir_at(
            d,
            n2,
        ) by {
            let j = key_at(d, n2);
            assert(0 <= j < d.len() && d[j].0 == n2);
            assert(j != k);
            assert(u[j].0 == n2);
            lemma_key_at_unique(u, n2, j);
        }
    } else {
        assert(forall|i: int| 0 <= i < d.len() ==> d[i].0 != name);
        assert(u.len() == d.len() + 1);
        assert(u[d.len() as int].0 == name);
        assert(forall|i: int| 0 <= i < d.len() ==> u[i] == d[i]);
        assert(dirs_wf(u));
        lemma_key_at_unique(u, name, d.len() as int);
        assert forall|n2: Seq<char>| n2 != name && has_key(d, n2) implies has_key(u, n2)
            && dir_at(u, n2) == dir_at(d, n2) by {
            let j = key_at(d, n2);
            assert(u[j].0 == n2);
            lemma_key_at_unique(u, n2, j);
        }
        assert forall|n2: Seq<char>| n2 != name && has_key(u, n2) implies has_key(d, n2) by {
            let j = key_at(u, n2);
            assert(j != d.len());
            assert(d[j].0 == n2);
        }
    }
}

/// An upsert keeps page ids distinct, puts the entry at its id, and leaves
/// every other id untouched.
pub proof fn lemma_upsert_entry_props(x: Seq<EntryView>, e: EntryView)
    requires
        index_wf(x),
    ensures
        index_wf(upsert_entry(x, e)),
        index_has(upsert_entry(x, e), e.page_id),
        entry_at(upsert_entry(x, e), e.page_id) == e,
        forall|n2: Seq<char>|
            n2 != e.page_id ==> (index_has(upsert_entry(x, e), n2) == index_has(x, n2)),
        forall|n2: Seq<char>|
            n2 != e.page_id && index_has(x, n2) ==> entry_at(upsert_entry(x, e), n2) == entry_at(
                x,
                n2,
            ),
{
    let u = upsert_entry(x, e);
    if index_has(x, e.page_id) {
        let k = entry_idx(x, e.page_id);
        assert(0 <= k < x.len() && x[k].page_id == e.page_id);
        assert(forall|i: int| 0 <= i < u.len() ==> u[i].page_id == x[i].page_id);
        assert(index_wf(u));
        lemma_entry_idx_unique(u, e.page_id, k);
        assert forall|n2: Seq<char>| n2 != e.page_id && index_has(x, n2) implies entry_at(u, n2)
            == entry_at(x, n2) by {
            let j = entry_idx(x, n2);
            assert(j != k);
            assert(u[j].page_id == n2);
            lemma_entry_idx_unique(u, n2, j);
        }
    } else {
        assert(forall|i: int| 0 <= i < x.len() ==> x[i].page_id != e.page_id);
        assert(u.len() == x.len() + 1);
        assert(u[x.len() as int] == e);
        assert(forall|i: int| 0 <= i < x.len() ==> u[i] == x[i]);
        assert(index_wf(u));
        lemma_entry_idx_unique(u, e.page_id, x.len() as int);
        assert forall|n2: Seq<char>| n2 != e.page_id && index_has(x, n2) implies index_has(u, n2)
            && entry_at(u, n2) == entry_at(x, n2) by {
            let j = entry_idx(x, n2);
            assert(u[j].page_id == n2);
            lemma_entry_idx_unique(u, n2, j);
        }
        assert forall|n2: Seq<char>| n2 != e.page_id && index_has(u, n2) implies index_has(x, n2) by {
            let j = entry_idx(u, n2);
            assert(j != x.len());
            assert(x[j].page_id == n2);
        }
    }
}

/// Removing a name keeps names distinct, removes exactly that name, and
/// leaves every other name and directory untouched.
pub proof fn lemma_remove_dir_props(d: Seq<(Seq<char>, PageDirView)>, name: Seq<char>)
    requires
        dirs_wf(d),
    ensures
        dirs_wf(remove_dir(d, name)),
        !has_key(remove_dir(d, name), name),
        forall|n2: Seq<char>| n2 != name ==> (has_key(remove_dir(d, name), n2) == has_key(d, n2)),
        forall|n2: Seq<char>|
            n2 != name && has_key(d, n2) ==> dir_at(remove_dir(d, name), n2) == dir_at(d, n2),
{
    let u = remove_dir(d, name);
    if has_key(d, name) {
        let k = key_at(d, name);
        assert(0 <= k < d.len() && d[k].0 == name);
        assert(u.len() == d.len() - 1);
        assert(forall|i: int| 0 <= i < k ==> u[i] == d[i]);
        assert(forall|i: int| k <= i < u.len() ==> u[i] == d[i + 1]);
        assert(dirs_wf(u)) by {
            assert forall|i: int, j: int| 0 <= i < j < u.len() implies u[i].0 != u[j].0 by {
                let oi = if i < k { i } else { i + 1 };
                let oj = if j < k { j } else { j + 1 };
                assert(u[i] == d[oi] && u[j] == d[oj]);
            }
        }
        assert(!has_key(u, name)) by {
            if has_key(u, name) {
                let j = key_at(u, name);
                let oj = if j < k { j } else { j + 1 };
                assert(d[oj].0 == name);
                assert(oj != k);
                assert(false);
            }
        }
        assert forall|n2: Seq<char>| n2 != name && has_key(d, n2) implies has_key(u, n2) && dir_at(
            u,
            n2,
        ) == dir_at(d, n2) by {
            let j = key_at(d, n2);
            assert(j != k);
            let nj = if j < k { j } else { j - 1 };
            assert(u[nj] == d[j]);
            lemma_key_at_unique(u, n2, nj);
        }
        assert forall|n2: Seq<char>| n2 != name && has_key(u, n2) implies has_key(d, n2) by {
            let j = key_at(u, n2);
            let oj = if j < k { j } else { j + 1 };
            assert(d[oj].0 == n2);
        }
    }
}

/// Removing an id keeps ids distinct, removes exactly that id, and leaves
/// every other entry untouched.
pub proof fn lemma_remove_entry_props(x: Seq<EntryView>, id: Seq<char>)
    requires
        index_wf(x),
    ensures
        index_wf(remove_entry(x, id)),
        !index_has(remove_entry(x, id), id),
        forall|n2: Seq<char>| n2 != id ==> (index_has(remove_entry(x, id), n2) == index_has(x, n2)),
        forall|n2: Seq<char>|
            n2 != id && index_has(x, n2) ==> entry_at(remove_entry(x, id), n2) == entry_at(x, n2),
{
    let u = remove_entry(x, id);
    if index_has(x, id) {
        let k = entry_idx(x, id);
        assert(0 <= k < x.len() && x[k].page_id == id);
        assert(u.len() == x.len() - 1);
        assert(forall|i: int| 0 <= i < k ==> u[i] == x[i]);
        assert(forall|i: int| k <= i < u.len() ==> u[i] == x[i + 1]);
        assert(index_wf(u)) by {
            assert forall|i: int, j: int| 0 <= i < j < u.len() implies u[i].page_id
                != u[j].page_id by {
                let oi = if i < k { i } else { i + 1 };
                let oj = if j < k { j } else { j + 1 };
                assert(u[i] == x[oi] && u[j] == x[oj]);
            }
        }
        assert(!index_has(u, id)) by {
            if index_has(u, id) {
                let j = entry_idx(u, id);
                let oj = if j < k { j } else { j + 1 };
                assert(x[oj].page_id == id);
                assert(oj != k);
                assert(false);
            }
        }
        assert forall|n2: Seq<char>| n2 != id && index_has(x, n2) implies index_has(u, n2)
            && entry_at(u, n2) == entry_at(x, n2) by {
            let j = entry_idx(x, n2);
            assert(j != k);
            let nj = if j < k { j } else { j - 1 };
            assert(u[nj] == x[j]);
            lemma_entry_idx_unique(u, n2, nj);
        }
        assert forall|n2: Seq<char>| n2 != id && index_has(u, n2) implies index_has(x, n2) by {
            let j = entry_idx(u, n2);
            let oj = if j < k { j } else { j + 1 };
            assert(x[oj].page_id == n2);
        }
    }
}

// ---------------------------------------------------------------------------
// Persist transitions
// ---------------------------------------------------------------------------

/// The metadata that a persist writes: the caller's fields with the resolved
/// permanent uid, the resolved creation time, and the current time as
/// `updated_at`.
pub open spec fn saved_meta_view(caller: PageMetaView, uid: Seq<char>, created: int, now: int) -> PageMetaView {
    PageMetaView {
        seo: caller.seo,
        page_uid: uid,
        created_at: created,
        updated_at: now,
        view_count: caller.view_count,
        extra: caller.extra,
    }
}

/// The persist of a full record (metadata and HTML), given the fresh uid the
/// generator would hand out if one is needed.
pub open spec fn save_transition(
    s: StoreView,
    raw_id: Seq<char>,
    meta: PageMetaView,
    html: Seq<char>,
    now: int,
    fresh: Seq<char>,
) -> StoreView {
    let safe = sanitize_spec(raw_id);
    let existing = readable_meta_at(s.dirs, safe);
    let idx = idx_entry_of(s, safe);
    let uid = match resolved_uid_opt(existing, idx, meta.page_uid) {
        Some(u) => u,
        None => fresh,
    };
    let created = resolve_created_spec(existing, meta.created_at, now);
    let m2 = saved_meta_view(meta, uid, created, now);
    let dir2 = PageDirView { meta: Some(MetaDocumentView::Readable(m2)), html: Some(html) };
    let e2 = EntryView {
        page_id: safe,
        seo: m2.seo,
        page_uid: uid,
        original_id: resolve_original_id_spec(idx, raw_id, safe),
    };
    StoreView { dirs: upsert_dir(s.dirs, safe, dir2), index: upsert_entry(s.index, e2) }
}

/// The persist of metadata alone: the HTML document stays what it was.
pub open spec fn update_meta_transition(
    s: StoreView,
    raw_id: Seq<char>,
    meta: PageMetaView,
    now: int,
    fresh: Seq<char>,
) -> StoreView {
    let safe = sanitize_spec(raw_id);
    let existing = readable_meta_at(s.dirs, safe);
    let idx = idx_entry_of(s, safe);
    let uid = match resolved_uid_opt(existing, idx, meta.page_uid) {
        Some(u) => u,
        None => fresh,
    };
    let created = resolve_created_spec(existing, meta.created_at, now);
    let m2 = saved_meta_view(meta, uid, created, now);
    let old_html = if has_key(s.dirs, safe) {
        dir_at(s.dirs, safe).html
    } else {
        None
    };
    let dir2 = PageDirView { meta: Some(MetaDocumentView::Readable(m2)), html: old_html };
    let e2 = EntryView {
        page_id: safe,
        seo: m2.seo,
        page_uid: uid,
        original_id: resolve_original_id_spec(idx, raw_id, safe),
    };
    StoreView { dirs: upsert_dir(s.dirs, safe, dir2), index: upsert_entry(s.index, e2) }
}

/// The persist of the HTML document alone: the stored metadata keeps its
/// fields, with the uid and timestamps refreshed by the usual priorities.
pub open spec fn update_html_transition(
    s: StoreView,
    raw_id: Seq<char>,
    html: Seq<char>,
    now: int,
    fresh: Seq<char>,
) -> StoreView {
    let safe = sanitize_spec(raw_id);
    let m = readable_meta_at(s.dirs, safe).unwrap();
    let idx = idx_entry_of(s, safe);
    let uid = match resolved_uid_opt(readable_meta_at(s.dirs, safe), idx, Seq::empty()) {
        Some(u) => u,
        None => fresh,
    };
    let created = resolve_created_spec(readable_meta_at(s.dirs, safe), 0, now);
    let m2 = saved_meta_view(m, uid, created, now);
    let dir2 = PageDirView { meta: Some(MetaDocumentView::Readable(m2)), html: Some(html) };
    let e2 = EntryView {
        page_id: safe,
        seo: m2.seo,
        page_uid: uid,
        original_id: resolve_original_id_spec(idx, raw_id, safe),
    };
    StoreView { dirs: upsert_dir(s.dirs, safe, dir2), index: upsert_entry(s.index, e2) }
}

/// Whether a persist of this id must draw a fresh uid.
pub open spec fn save_needs_fresh(s: StoreView, raw_id: Seq<char>, caller_uid: Seq<char>) -> bool {
    resolved_uid_opt(
        readable_meta_at(s.dirs, sanitize_spec(raw_id)),
        idx_entry_of(s, sanitize_spec(raw_id)),
        caller_uid,
    ) is None
}

/// Whether a persist of this id is blocked by an unreadable metadata
/// document.
pub open spec fn save_corrupt(s: StoreView, raw_id: Seq<char>) -> bool {
    meta_unreadable_at(s.dirs, sanitize_spec(raw_id))
}

// ---------------------------------------------------------------------------
// Load results
// ---------------------------------------------------------------------------

/// A record for this (raw) id can be loaded: its directory exists, its
/// metadata document parses, and its HTML document exists.
pub open spec fn load_ok(s: StoreView, raw_id: Seq<char>) -> bool {
    &&& readable_meta_at(s.dirs, sanitize_spec(raw_id)) is Some
    &&& dir_at(s.dirs, sanitize_spec(raw_id)).html is Some
}

/// The metadata a load returns.
pub open spec fn loaded_meta(s: StoreView, raw_id: Seq<char>) -> PageMetaView {
    readable_meta_at(s.dirs, sanitize_spec(raw_id)).unwrap()
}

/// The HTML a load returns.
pub open spec fn loaded_html(s: StoreView, raw_id: Seq<char>) -> Seq<char> {
    dir_at(s.dirs, sanitize_spec(raw_id)).html.unwrap()
}

/// A generated uid sanitizes to itself, so it can serve directly as a
/// directory id.
pub proof fn lemma_sanitize_uid(u: Seq<char>)
    requires
        uid_seq_ok(u),
    ensures
        sanitize_spec(u) == u,
{
    assert(forall|i: int| 0 <= i < u.len() ==> keep_char(u[i]));
    assert(sanitize_chars(u) =~= u);
}

} // verus!

verus! {

// ---------------------------------------------------------------------------
// Index rebuilding and normalization
// ---------------------------------------------------------------------------

/// The index rebuilt from the directories: one entry per directory whose
/// metadata document parses, in directory order, with no recorded original
/// id.
pub open spec fn rebuilt_index(d: Seq<(Seq<char>, PageDirView)>) -> Seq<EntryView>
    decreases d.len(),
{
    if d.len() == 0 {
        Seq::empty()
    } else {
        let rest = rebuilt_index(d.drop_last());
        match d.last().1.meta {
            Some(MetaDocumentView::Readable(m)) => rest.push(
                EntryView {
                    page_id: d.last().0,
                    seo: m.seo,
                    page_uid: m.page_uid,
                    original_id: None,
                },
            ),
            _ => rest,
        }
    }
}

/// A rebuilt index has distinct ids (each is a directory name) and every id
/// names a directory.
pub proof fn lemma_rebuilt_index_wf(d: Seq<(Seq<char>, PageDirView)>)
    requires
        dirs_wf(d),
    ensures
        index_wf(rebuilt_index(d)),
        forall|k: int|
            0 <= k < rebuilt_index(d).len() ==> #[trigger] has_key(d, rebuilt_index(d)[k].page_id),
    decreases d.len(),
{
    if d.len() > 0 {
        let prefix = d.drop_last();
        assert(dirs_wf(prefix));
        lemma_rebuilt_index_wf(prefix);
        let rest = rebuilt_index(prefix);
        assert forall|k: int| 0 <= k < rest.len() implies has_key(d, rest[k].page_id) by {
            assert(has_key(prefix, rest[k].page_id));
            let j = key_at(prefix, rest[k].page_id);
            assert(d[j] == prefix[j]);
        }
        match d.last().1.meta {
            Some(MetaDocumentView::Readable(m)) => {
                let name = d.last().0;
                assert forall|k: int| 0 <= k < rest.len() implies rest[k].page_id != name by {
                    if rest[k].page_id == name {
                        assert(has_key(prefix, rest[k].page_id));
                        let j = key_at(prefix, name);
                        assert(0 <= j < prefix.len() && prefix[j].0 == name);
                        assert(prefix[j] == d[j]);
                        assert(d[j].0 == d[d.len() - 1].0);
                        assert(false);
                    }
                }
                assert(has_key(d, name)) by {
                    assert(d[d.len() - 1].0 == name);
                }
            },
            _ => {},
        }
    }
}

/// The entries kept by normalization: each entry whose page id has not
/// appeared earlier in the list.
pub open spec fn dedup_entries(x: Seq<EntryView>) -> Seq<EntryView>
    decreases x.len(),
{
    if x.len() == 0 {
        x
    } else {
        let rest = dedup_entries(x.drop_last());
        if index_has(x.drop_last(), x.last().page_id) {
            rest
        } else {
            rest.push(x.last())
        }
    }
}

/// Normalized entries have distinct ids, all drawn from the input.
pub proof fn lemma_dedup_entries_wf(x: Seq<EntryView>)
    ensures
        index_wf(dedup_entries(x)),
        forall|k: int|
            0 <= k < dedup_entries(x).len() ==> #[trigger] index_has(
                x,
                dedup_entries(x)[k].page_id,
            ),
    decreases x.len(),
{
    if x.len() > 0 {
        let prefix = x.drop_last();
        lemma_dedup_entries_wf(prefix);
        let rest = dedup_entries(prefix);
        assert forall|k: int| 0 <= k < rest.len() implies index_has(x, rest[k].page_id) by {
            assert(index_has(prefix, rest[k].page_id));
            let j = entry_idx(prefix, rest[k].page_id);
            assert(x[j] == prefix[j]);
        }
        if !index_has(prefix, x.last().page_id) {
            assert forall|k: int| 0 <= k < rest.len() implies rest[k].page_id
                != x.last().page_id by {
                assert(index_has(prefix, rest[k].page_id));
            }
            assert(index_has(x, x.last().page_id)) by {
                assert(x[x.len() - 1].page_id == x.last().page_id);
            }
        }
    }
}

/// Clones index entries, keeping their views.
fn clone_entries(pages: &Vec<PageIndexEntry>) -> (r: Vec<PageIndexEntry>)
    ensures
        r@.len() == pages@.len(),
        forall|i: int| 0 <= i < r@.len() ==> r@[i]@ == pages@[i]@,
{
    let mut out: Vec<PageIndexEntry> = Vec::new();
    let mut i: usize = 0;
    while i < pages.len()
        invariant
            0 <= i <= pages@.len(),
            out@.len() == i,
            forall|j: int| 0 <= j < i ==> out@[j]@ == pages@[j]@,
        decreases pages@.len() - i,
    {
        out.push(pages[i].clone());
        i = i + 1;
    }
    out
}

impl StoreIndex {
    /// The index is well formed: entry ids are pairwise distinct.
    pub open spec fn wf(&self) -> bool {
        index_wf(self@)
    }

    /// An empty index.
    pub fn new() -> (r: StoreIndex)
        ensures
            r@ =~= Seq::<EntryView>::empty(),
            r.wf(),
    {
        StoreIndex { pages: Vec::new() }
    }

    /// Builds an index from arbitrary entries, dropping every entry whose
    /// page id already appeared: the result is well formed whatever came in.
    pub fn from_entries(entries: Vec<PageIndexEntry>) -> (r: StoreIndex)
        ensures
            r@ == dedup_entries(entries@.map_values(|e: PageIndexEntry| e@)),
            r.wf(),
    {
        let ghost xs = entries@.map_values(|e: PageIndexEntry| e@);
        let mut pages: Vec<PageIndexEntry> = Vec::new();
        let mut i: usize = 0;
        while i < entries.len()
            invariant
                0 <= i <= entries@.len(),
                xs == entries@.map_values(|e: PageIndexEntry| e@),
                pages@.map_values(|e: PageIndexEntry| e@) == dedup_entries(xs.take(i as int)),
            decreases entries@.len() - i,
        {
            let ghost before = pages@.map_values(|e: PageIndexEntry| e@);
            let mut seen = false;
            let mut j: usize = 0;
            while j < pages.len()
                invariant
                    0 <= j <= pages@.len(),
                    i < entries@.len(),
                    !seen ==> forall|k: int|
                        0 <= k < j ==> pages@[k]@.page_id != entries@[i as int]@.page_id,
                    seen ==> exists|k: int|
                        0 <= k < pages@.len() && pages@[k]@.page_id == entries@[i as int]@.page_id,
                decreases pages@.len() - j,
            {
                if pages[j].page_id == entries[i].page_id {
                    seen = true;
                }
                j = j + 1;
            }
            proof {
                assert(xs[i as int] == entries@[i as int]@);
                assert(xs.take(i + 1).drop_last() =~= xs.take(i as int));
                assert(xs.take(i + 1).last() == xs[i as int]);
                // seen reflects whether the id already occurs in the kept prefix,
                // which (by the dedup invariant) matches occurrence in the raw prefix.
                lemma_dedup_entries_wf(xs.take(i as int));
                if seen {
                    let k = choose|k: int|
                        0 <= k < pages@.len() && pages@[k]@.page_id == entries@[i as int]@.page_id;
                    assert(before[k].page_id == xs[i as int].page_id);
                    assert(dedup_entries(xs.take(i as int))[k].page_id == xs[i as int].page_id);
                    assert(index_has(xs.take(i as int), xs[i as int].page_id));
                    assert(dedup_entries(xs.take(i + 1)) == dedup_entries(xs.take(i as int)));
                } else {
                    if index_has(xs.take(i as int), xs[i as int].page_id) {
                        // the first entry with this id survives into the dedup of the prefix
                        lemma_dedup_keeps_first(xs.take(i as int), xs[i as int].page_id);
                        let m = entry_idx(before, xs[i as int].page_id);
                        assert(0 <= m < before.len() && before[m].page_id == xs[i as int].page_id);
                        assert(pages@[m]@.page_id == entries@[i as int]@.page_id);
                        assert(false);
                    }
                    assert(dedup_entries(xs.take(i + 1)) == dedup_entries(
                        xs.take(i as int),
                    ).push(xs[i as int]));
                }
            }
            if !seen {
                pages.push(entries[i].clone());
                proof {
                    assert(pages@.map_values(|e: PageIndexEntry| e@) =~= before.push(
                        xs[i as int],
                    ));
                }
            }
            i = i + 1;
        }
        proof {
            assert(xs.take(xs.len() as int) =~= xs);
            lemma_dedup_entries_wf(xs);
        }
        StoreIndex { pages }
    }
}

/// If some entry of the list carries an id, the normalized list still carries
/// it.
pub proof fn lemma_dedup_keeps_first(x: Seq<EntryView>, id: Seq<char>)
    requires
        index_has(x, id),
    ensures
        index_has(dedup_entries(x), id),
    decreases x.len(),
{
    if x.len() > 0 {
        let prefix = x.drop_last();
        if index_has(prefix, id) {
            lemma_dedup_keeps_first(prefix, id);
            let k = entry_idx(dedup_entries(prefix), id);
            if index_has(prefix, x.last().page_id) {
                assert(dedup_entries(x)[k].page_id == id);
            } else {
                assert(dedup_entries(x)[k].page_id == id);
            }
        } else {
            let k = entry_idx(x, id);
            if k < x.len() - 1 {
                assert(prefix[k].page_id == id);
                assert(false);
            }
            assert(x.last().page_id == id);
            assert(!index_has(prefix, x.last().page_id));
            assert(dedup_entries(x).last() == x.last());
        }
    }
}

} // verus!

verus! {

impl PageStore {
    /// An empty store: no page directories, an empty index.
    pub fn new() -> (r: PageStore)
        ensures
            r@.dirs =~= Seq::<(Seq<char>, PageDirView)>::empty(),
            r@.index =~= Seq::<EntryView>::empty(),
            r.wf(),
    {
        PageStore { dirs: Vec::new(), index: StoreIndex { pages: Vec::new() } }
    }

    /// Puts a raw directory under the root, replacing one of the same name.
    /// This is how the shell loads what it finds on disk, and how a storage
    /// root with missing or unreadable documents is modelled.
    pub fn put_dir(&mut self, name: String, dir: PageDir)
        requires
            old(self).wf(),
        ensures
            final(self).wf(),
            final(self)@.dirs == upsert_dir(old(self)@.dirs, name@, dir@),
            final(self)@.index == old(self)@.index,
    {
        proof {
            lemma_upsert_dir_props(self@.dirs, name@, dir@);
        }
        let ghost old_dirs = self@.dirs;
        match find_dir_idx(&self.dirs, &name) {
            Some(i) => {
                proof {
                    lemma_key_at_unique(old_dirs, name@, i as int);
                }
                self.dirs.set(i, DirEntry { name, dir });
                proof {
                    assert(self@.dirs =~= old_dirs.update(key_at(old_dirs, name@), (name@, dir@)));
                }
            },
            None => {
                proof {
                    assert(!has_key(old_dirs, name@));
                }
                self.dirs.push(DirEntry { name, dir });
                proof {
                    assert(self@.dirs =~= old_dirs.push((name@, dir@)));
                }
            },
        }
    }

    /// Replaces the index wholesale.  This is how the shell installs an index
    /// file read from disk; entries with repeated ids were dropped by
    /// [`StoreIndex::from_entries`].
    pub fn set_index(&mut self, index: StoreIndex)
        requires
            old(self).wf(),
            index.wf(),
        ensures
            final(self).wf(),
            final(self)@.index == index@,
            final(self)@.dirs == old(self)@.dirs,
    {
        self.index = index;
    }

    /// Whether a record for this id exists: it is indexed, or its directory
    /// exists.
    pub fn page_exists(&self, page_id: &str) -> (r: bool)
        ensures
            r == exists_spec(self@, page_id@),
    {
        let safe = sanitize_page_id(page_id);
        match find_entry_pos(&self.index.pages, &safe) {
            Some(i) => {
                proof {
                    assert(self@.index[i as int].page_id == safe@);
                }
                return true;
            },
            None => {},
        }
        match find_dir_idx(&self.dirs, &safe) {
            Some(i) => {
                proof {
                    assert(self@.dirs[i as int].0 == safe@);
                }
                true
            },
            None => {
                proof {
                    assert(forall|k: int|
                        0 <= k < self@.index.len() ==> self@.index[k].page_id != safe@);
                    assert(forall|k: int| 0 <= k < self@.dirs.len() ==> self@.dirs[k].0 != safe@);
                }
                false
            },
        }
    }

    /// The ids of the indexed pages, in index order.
    pub fn list_pages(&self) -> (r: Vec<String>)
        ensures
            r@.len() == self@.index.len(),
            forall|i: int| 0 <= i < r@.len() ==> r@[i]@ == self@.index[i].page_id,
    {
        let mut out: Vec<String> = Vec::new();
        let mut i: usize = 0;
        while i < self.index.pages.len()
            invariant
                0 <= i <= self.index.pages@.len(),
                out@.len() == i,
                forall|j: int| 0 <= j < i ==> out@[j]@ == self.index.pages@[j]@.page_id,
            decreases self.index.pages@.len() - i,
        {
            out.push(self.index.pages[i].page_id.clone());
            i = i + 1;
        }
        out
    }

    /// A snapshot of the index entries, in index order.
    pub fn list_page_entries(&self) -> (r: Vec<PageIndexEntry>)
        ensures
            r@.len() == self@.index.len(),
            forall|i: int| 0 <= i < r@.len() ==> r@[i]@ == self@.index[i],
    {
        clone_entries(&self.index.pages)
    }

    /// Resolves a page uid to its directory id: the uid itself when it is an
    /// index key (fast path), else the id of the first indexed entry carrying
    /// the uid, else `None`.  An unknown uid is not an error.
    pub fn resolve_page_id_by_uid(&self, page_uid: &str) -> (r: Option<String>)
        ensures
            match r {
                Some(id) => spec_resolve_page_id(self@.index, page_uid@) == Some(id@),
                None => spec_resolve_page_id(self@.index, page_uid@) is None,
            },
    {
        proof {
            lemma_first_uid_idx_char(self@.index, page_uid@, 0);
        }
        let raw = page_uid.to_owned();
        match find_entry_pos(&self.index.pages, &raw) {
            Some(i) => {
                proof {
                    assert(self@.index[i as int].page_id == page_uid@);
                }
                return Some(raw);
            },
            None => {},
        }
        proof {
            assert(forall|k: int| 0 <= k < self@.index.len() ==> self@.index[k].page_id != page_uid@);
        }
        let mut i: usize = 0;
        while i < self.index.pages.len()
            invariant
                0 <= i <= self.index.pages@.len(),
                forall|j: int| 0 <= j < i ==> self.index.pages@[j]@.page_uid != page_uid@,
                forall|k: int| 0 <= k < self@.index.len() ==> self@.index[k].page_id != page_uid@,
                raw@ == page_uid@,
            decreases self.index.pages@.len() - i,
        {
            if self.index.pages[i].page_uid == raw {
                proof {
                    assert(!index_has(self@.index, page_uid@));
                    assert(self@.index[i as int].page_uid == page_uid@);
                    assert(forall|j: int| 0 <= j < i ==> self@.index[j].page_uid != page_uid@);
                    lemma_first_uid_idx_char(self@.index, page_uid@, 0);
                    match first_uid_idx(self@.index, page_uid@, 0) {
                        Some(k) => {
                            if k < i {
                                assert(self@.index[k].page_uid != page_uid@);
                            }
                            if k > i {
                                assert(self@.index[i as int].page_uid != page_uid@);
                            }
                        },
                        None => {
                            assert(self@.index[i as int].page_uid != page_uid@);
                        },
                    }
                }
                return Some(self.index.pages[i].page_id.clone());
            }
            i = i + 1;
        }
        proof {
            lemma_first_uid_idx_char(self@.index, page_uid@, 0);
            if first_uid_idx(self@.index, page_uid@, 0) is Some {
                let k = first_uid_idx(self@.index, page_uid@, 0).unwrap();
                assert(self@.index[k].page_uid != page_uid@);
            }
        }
        None
    }

    /// Loads a page: its parsed metadata and its HTML text.  Fails with
    /// `NotFound` when the directory or either document is missing, and with
    /// `Corrupt` when the metadata document does not parse.
    pub fn load_page(&self, page_id: &str) -> (r: Result<(PageMeta, String), StoreError>)
        requires
            self.wf(),
        ensures
            r is Ok <==> load_ok(self@, page_id@),
            match r {
                Ok(p) => p.0@ == loaded_meta(self@, page_id@) && p.1@ == loaded_html(
                    self@,
                    page_id@,
                ),
                Err(e) => match e@ {
                    SpecStoreError::Corrupt => save_corrupt(self@, page_id@),
                    SpecStoreError::NotFound => !save_corrupt(self@, page_id@) && !load_ok(
                        self@,
                        page_id@,
                    ),
                    _ => false,
                },
            },
    {
        let safe = sanitize_page_id(page_id);
        let ghost dirs = self@.dirs;
        match find_dir_idx(&self.dirs, &safe) {
            None => {
                proof {
                    assert(!has_key(dirs, safe@));
                }
                Err(StoreError::NotFound)
            },
            Some(i) => {
                proof {
                    lemma_key_at_unique(dirs, safe@, i as int);
                }
                match &self.dirs[i].dir.meta {
                    None => Err(StoreError::NotFound),
                    Some(MetaDocument::Unreadable) => Err(StoreError::Corrupt),
                    Some(MetaDocument::Readable(m)) => {
                        match &self.dirs[i].dir.html {
                            None => Err(StoreError::NotFound),
                            Some(html) => Ok((m.clone(), html.clone())),
                        }
                    },
                }
            },
        }
    }

    /// Loads a page's parsed metadata alone.
    pub fn get_page_meta(&self, page_id: &str) -> (r: Result<PageMeta, StoreError>)
        requires
            self.wf(),
        ensures
            r is Ok <==> load_ok(self@, page_id@),
            match r {
                Ok(m) => m@ == loaded_meta(self@, page_id@),
                Err(e) => match e@ {
                    SpecStoreError::Corrupt => save_corrupt(self@, page_id@),
                    SpecStoreError::NotFound => !save_corrupt(self@, page_id@) && !load_ok(
                        self@,
                        page_id@,
                    ),
                    _ => false,
                },
            },
    {
        match self.load_page(page_id) {
            Ok(p) => Ok(p.0),
            Err(e) => Err(e),
        }
    }

    /// Loads a page's HTML text alone.
    pub fn get_page_html(&self, page_id: &str) -> (r: Result<String, StoreError>)
        requires
            self.wf(),
        ensures
            r is Ok <==> load_ok(self@, page_id@),
            match r {
                Ok(h) => h@ == loaded_html(self@, page_id@),
                Err(e) => match e@ {
                    SpecStoreError::Corrupt => save_corrupt(self@, page_id@),
                    SpecStoreError::NotFound => !save_corrupt(self@, page_id@) && !load_ok(
                        self@,
                        page_id@,
                    ),
                    _ => false,
                },
            },
    {
        match self.load_page(page_id) {
            Ok(p) => Ok(p.1),
            Err(e) => Err(e),
        }
    }

    /// Deletes a page: removes its directory and its index entry together.
    /// Afterwards the page no longer exists and no index entry carries its
    /// id.
    pub fn delete_page(&mut self, page_id: &str) -> (r: Result<(), StoreError>)
        requires
            old(self).wf(),
        ensures
            final(self).wf(),
            r is Ok <==> exists_spec(old(self)@, page_id@),
            match r {
                Ok(()) => {
                    &&& final(self)@.dirs == remove_dir(old(self)@.dirs, sanitize_spec(page_id@))
                    &&& final(self)@.index == remove_entry(
                        old(self)@.index,
                        sanitize_spec(page_id@),
                    )
                    &&& !exists_spec(final(self)@, page_id@)
                    &&& forall|k: int|
                        0 <= k < final(self)@.index.len() ==> final(self)@.index[k].page_id
                            != sanitize_spec(page_id@)
                },
                Err(e) => *final(self) == *old(self) && e@ == SpecStoreError::NotFound
                    && !exists_spec(old(self)@, page_id@),
            },
    {
        if !self.page_exists(page_id) {
            return Err(StoreError::NotFound);
        }
        let safe = sanitize_page_id(page_id);
        let ghost old_dirs = self@.dirs;
        let ghost old_index = self@.index;
        proof {
            lemma_remove_dir_props(old_dirs, safe@);
            lemma_remove_entry_props(old_index, safe@);
        }
        match find_dir_idx(&self.dirs, &safe) {
            Some(i) => {
                proof {
                    lemma_key_at_unique(old_dirs, safe@, i as int);
                }
                self.dirs.remove(i);
                proof {
                    assert(self@.dirs =~= old_dirs.remove(key_at(old_dirs, safe@)));
                }
            },
            None => {
                proof {
                    assert(!has_key(old_dirs, safe@));
                }
            },
        }
        match find_entry_pos(&self.index.pages, &safe) {
            Some(i) => {
                proof {
                    lemma_entry_idx_unique(old_index, safe@, i as int);
                }
                self.index.pages.remove(i);
                proof {
                    assert(self@.index =~= old_index.remove(entry_idx(old_index, safe@)));
                }
            },
            None => {
                proof {
                    assert(!index_has(old_index, safe@));
                }
            },
        }
        proof {
            assert forall|k: int| 0 <= k < self@.index.len() implies self@.index[k].page_id
                != safe@ by {
                if self@.index[k].page_id == safe@ {
                    assert(index_has(self@.index, safe@));
                }
            }
        }
        Ok(())
    }

    /// Rewrites the index from the directories on the root: one entry per
    /// directory whose metadata document parses, skipping (not failing on)
    /// everything unreadable.  Returns the new index.
    pub fn rebuild_index(&mut self) -> (r: StoreIndex)
        requires
            old(self).wf(),
        ensures
            final(self).wf(),
            final(self)@.dirs == old(self)@.dirs,
            final(self)@.index == rebuilt_index(old(self)@.dirs),
            r@ == rebuilt_index(old(self)@.dirs),
    {
        let ghost dirs = self@.dirs;
        let mut pages: Vec<PageIndexEntry> = Vec::new();
        let mut i: usize = 0;
        while i < self.dirs.len()
            invariant
                0 <= i <= self.dirs@.len(),
                dirs == self@.dirs,
                pages@.map_values(|e: PageIndexEntry| e@) == rebuilt_index(dirs.take(i as int)),
            decreases self.dirs@.len() - i,
        {
            let ghost before = pages@.map_values(|e: PageIndexEntry| e@);
            proof {
                assert(dirs.take(i + 1).drop_last() =~= dirs.take(i as int));
                assert(dirs.take(i + 1).last() == dirs[i as int]);
            }
            match &self.dirs[i].dir.meta {
                Some(MetaDocument::Readable(m)) => {
                    let entry = PageIndexEntry {
                        page_id: self.dirs[i].name.clone(),
                        seo: m.seo.clone(),
                        page_uid: m.page_uid.clone(),
                        original_id: None,
                    };
                    pages.push(entry);
                    proof {
                        assert(pages@.map_values(|e: PageIndexEntry| e@) =~= before.push(
                            EntryView {
                                page_id: dirs[i as int].0,
                                seo: dirs[i as int].1.meta.unwrap()->Readable_0.seo,
                                page_uid: dirs[i as int].1.meta.unwrap()->Readable_0.page_uid,
                                original_id: None,
                            },
                        ));
                    }
                },
                _ => {},
            }
            i = i + 1;
        }
        proof {
            assert(dirs.take(dirs.len() as int) =~= dirs);
            lemma_rebuilt_index_wf(dirs);
        }
        self.index = StoreIndex { pages };
        let out = clone_entries(&self.index.pages);
        proof {
            assert(out@.map_values(|e: PageIndexEntry| e@) =~= self@.index);
        }
        StoreIndex { pages: out }
    }
}

} // verus!

verus! {

impl PageStore {
    /// Persists a full record for this id: resolves the permanent uid and the
    /// creation time by their priority chains, stamps `updated_at` with the
    /// given time, validates the HTML, and only then writes the metadata
    /// document, the HTML document and the index entry.  On any error nothing
    /// changes.
    pub fn save_page(&mut self, page_id: &str, meta: &PageMeta, html: &str, now_ts: i64) -> (r:
        Result<(), StoreError>)
        requires
            old(self).wf(),
            now_ts > 0,
        ensures
            final(self).wf(),
            match r {
                Ok(()) => {
                    &&& !save_corrupt(old(self)@, page_id@)
                    &&& crate::validate::html_ok(html.spec_bytes())
                    &&& exists|fresh: Seq<char>|
                        {
                            &&& (save_needs_fresh(old(self)@, page_id@, meta@.page_uid) ==> (
                            uid_seq_ok(fresh) && !uid_taken(old(self)@.index, fresh)))
                            &&& final(self)@ == #[trigger] save_transition(
                                old(self)@,
                                page_id@,
                                meta@,
                                html@,
                                now_ts as int,
                                fresh,
                            )
                        }
                },
                Err(e) => *final(self) == *old(self) && match e@ {
                    SpecStoreError::Corrupt => save_corrupt(old(self)@, page_id@),
                    SpecStoreError::UidExhausted => !save_corrupt(old(self)@, page_id@)
                        && save_needs_fresh(old(self)@, page_id@, meta@.page_uid),
                    SpecStoreError::Io(_) => !save_corrupt(old(self)@, page_id@)
                        && save_needs_fresh(old(self)@, page_id@, meta@.page_uid),
                    SpecStoreError::Validation(ve) => !save_corrupt(old(self)@, page_id@)
                        && !crate::validate::html_ok(html.spec_bytes())
                        && crate::validate::validate_html_spec(html.spec_bytes()) == Err::<
                        (),
                        crate::validate::SpecValidationError,
                    >(ve),
                    _ => false,
                },
            },
            (!save_corrupt(old(self)@, page_id@) && !save_needs_fresh(
                old(self)@,
                page_id@,
                meta@.page_uid,
            ) && crate::validate::html_ok(html.spec_bytes())) ==> r is Ok,
    {
        let raw = page_id.to_owned();
        let safe = sanitize_page_id(page_id);
        let ghost sv = self@;
        let ghost safe_v = sanitize_spec(page_id@);

        // Read the existing metadata document, if any.
        let dir_pos = find_dir_idx(&self.dirs, &safe);
        let mut existing_meta: Option<PageMeta> = None;
        match dir_pos {
            Some(i) => {
                proof {
                    lemma_key_at_unique(sv.dirs, safe_v, i as int);
                }
                match &self.dirs[i].dir.meta {
                    Some(MetaDocument::Readable(m)) => {
                        existing_meta = Some(m.clone());
                    },
                    Some(MetaDocument::Unreadable) => {
                        return Err(StoreError::Corrupt);
                    },
                    None => {},
                }
            },
            None => {
                proof {
                    assert(!has_key(sv.dirs, safe_v));
                }
            },
        }
        let existing_ref = existing_meta.as_ref();
        proof {
            assert(view_opt_meta(existing_ref) == readable_meta_at(sv.dirs, safe_v));
            assert(!save_corrupt(sv, page_id@));
        }

        // Read the existing index entry, if any.
        let entry_pos = find_entry_pos(&self.index.pages, &safe);
        let existing_entry: Option<PageIndexEntry> = match entry_pos {
            Some(i) => {
                proof {
                    lemma_entry_idx_unique(sv.index, safe_v, i as int);
                }
                Some(self.index.pages[i].clone())
            },
            None => {
                proof {
                    assert(!index_has(sv.index, safe_v));
                }
                None
            },
        };
        let entry_ref = existing_entry.as_ref();
        proof {
            assert(view_opt_entry(entry_ref) == idx_entry_of(sv, safe_v));
        }

        // Resolve the permanent uid, drawing a fresh one when all candidates
        // are empty.
        let uid: String = match resolve_page_uid(existing_ref, entry_ref, &meta.page_uid) {
            Some(u) => u,
            None => {
                match generate_unique_page_uid(&self.index) {
                    Ok(u) => u,
                    Err(e) => {
                        return Err(e);
                    },
                }
            },
        };

        // Resolve the creation time, stamp the update time.
        let created = resolve_created_at(existing_ref, meta.created_at, now_ts);

        // Validate before anything is written.
        match crate::validate::validate_html(html) {
            Err(ve) => {
                return Err(StoreError::Validation(ve));
            },
            Ok(()) => {},
        }

        // Commit: metadata document, HTML document, index entry.
        let mut m2 = meta.clone();
        m2.page_uid = uid.clone();
        m2.created_at = created;
        m2.updated_at = now_ts;
        proof {
            assert(m2@ == saved_meta_view(
                meta@,
                uid@,
                created as int,
                now_ts as int,
            ));
        }
        let orig: Option<String> = match &existing_entry {
            Some(en) => match &en.original_id {
                Some(o) => Some(o.clone()),
                None => if safe == raw {
                    None
                } else {
                    Some(raw.clone())
                },
            },
            None => if safe == raw {
                None
            } else {
                Some(raw.clone())
            },
        };
        proof {
            assert(match orig {
                Some(ref o) => Some(o@),
                None => None::<Seq<char>>,
            } == resolve_original_id_spec(idx_entry_of(sv, safe_v), page_id@, safe_v));
        }
        let new_entry = PageIndexEntry {
            page_id: safe.clone(),
            seo: m2.seo.clone(),
            page_uid: uid.clone(),
            original_id: orig,
        };
        let new_dir = PageDir {
            meta: Some(MetaDocument::Readable(m2)),
            html: Some(html.to_owned()),
        };
        let ghost dir2 = new_dir@;
        let ghost e2 = new_entry@;
        proof {
            lemma_upsert_dir_props(sv.dirs, safe_v, dir2);
            lemma_upsert_entry_props(sv.index, e2);
        }
        match dir_pos {
            Some(i) => {
                self.dirs.set(i, DirEntry { name: safe.clone(), dir: new_dir });
                proof {
                    assert(self@.dirs =~= sv.dirs.update(key_at(sv.dirs, safe_v), (safe_v, dir2)));
                }
            },
            None => {
                self.dirs.push(DirEntry { name: safe.clone(), dir: new_dir });
                proof {
                    assert(self@.dirs =~= sv.dirs.push((safe_v, dir2)));
                }
            },
        }
        match entry_pos {
            Some(i) => {
                self.index.pages.set(i, new_entry);
                proof {
                    assert(self@.index =~= sv.index.update(entry_idx(sv.index, safe_v), e2));
                }
            },
            None => {
                self.index.pages.push(new_entry);
                proof {
                    assert(self@.index =~= sv.index.push(e2));
                }
            },
        }
        proof {
            assert(self@.dirs == upsert_dir(sv.dirs, safe_v, dir2));
            assert(self@.index == upsert_entry(sv.index, e2));
            assert(self@ == save_transition(sv, page_id@, meta@, html@, now_ts as int, uid@));
            assert(save_needs_fresh(sv, page_id@, meta@.page_uid) ==> (uid_seq_ok(uid@)
                && !uid_taken(sv.index, uid@)));
            assert(exists|fresh: Seq<char>|
                {
                    &&& (save_needs_fresh(sv, page_id@, meta@.page_uid) ==> (uid_seq_ok(fresh)
                    && !uid_taken(sv.index, fresh)))
                    &&& self@ == #[trigger] save_transition(sv, page_id@, meta@, html@, now_ts as int, fresh)
                });
        }
        Ok(())
    }

    /// Creates a page: fails with `AlreadyExists` when a record for the id is
    /// already indexed or its directory exists, otherwise persists as
    /// [`Self::save_page`] does.
    pub fn create_page(&mut self, page_id: &str, meta: &PageMeta, html: &str, now_ts: i64) -> (r:
        Result<(), StoreError>)
        requires
            old(self).wf(),
            now_ts > 0,
        ensures
            final(self).wf(),
            match r {
                Ok(()) => {
                    &&& !exists_spec(old(self)@, page_id@)
                    &&& !save_corrupt(old(self)@, page_id@)
                    &&& crate::validate::html_ok(html.spec_bytes())
                    &&& exists|fresh: Seq<char>|
                        {
                            &&& (save_needs_fresh(old(self)@, page_id@, meta@.page_uid) ==> (
                            uid_seq_ok(fresh) && !uid_taken(old(self)@.index, fresh)))
                            &&& final(self)@ == #[trigger] save_transition(
                                old(self)@,
                                page_id@,
                                meta@,
                                html@,
                                now_ts as int,
                                fresh,
                            )
                        }
                },
                Err(e) => *final(self) == *old(self) && match e@ {
                    SpecStoreError::AlreadyExists => exists_spec(old(self)@, page_id@),
                    SpecStoreError::Corrupt => save_corrupt(old(self)@, page_id@),
                    SpecStoreError::UidExhausted => !save_corrupt(old(self)@, page_id@)
                        && save_needs_fresh(old(self)@, page_id@, meta@.page_uid),
                    SpecStoreError::Io(_) => !save_corrupt(old(self)@, page_id@)
                        && save_needs_fresh(old(self)@, page_id@, meta@.page_uid),
                    SpecStoreError::Validation(ve) => !save_corrupt(old(self)@, page_id@)
                        && !crate::validate::html_ok(html.spec_bytes())
                        && crate::validate::validate_html_spec(html.spec_bytes()) == Err::<
                        (),
                        crate::validate::SpecValidationError,
                    >(ve),
                    _ => false,
                },
            },
            r is Err && r->Err_0 is AlreadyExists <==> exists_spec(old(self)@, page_id@),
            (!exists_spec(old(self)@, page_id@) && !save_corrupt(old(self)@, page_id@)
                && !save_needs_fresh(old(self)@, page_id@, meta@.page_uid)
                && crate::validate::html_ok(html.spec_bytes())) ==> r is Ok,
    {
        if self.page_exists(page_id) {
            return Err(StoreError::AlreadyExists);
        }
        self.save_page(page_id, meta, html, now_ts)
    }

    /// Re-persists an existing page: fails with `NotFound` when no record for
    /// the id exists, otherwise persists as [`Self::save_page`] does, which
    /// keeps the stored `page_uid` and `created_at` and refreshes
    /// `updated_at`.
    pub fn update_page(&mut self, page_id: &str, meta: &PageMeta, html: &str, now_ts: i64) -> (r:
        Result<(), StoreError>)
        requires
            old(self).wf(),
            now_ts > 0,
        ensures
            final(self).wf(),
            match r {
                Ok(()) => {
                    &&& exists_spec(old(self)@, page_id@)
                    &&& !save_corrupt(old(self)@, page_id@)
                    &&& crate::validate::html_ok(html.spec_bytes())
                    &&& exists|fresh: Seq<char>|
                        {
                            &&& (save_needs_fresh(old(self)@, page_id@, meta@.page_uid) ==> (
                            uid_seq_ok(fresh) && !uid_taken(old(self)@.index, fresh)))
                            &&& final(self)@ == #[trigger] save_transition(
                                old(self)@,
                                page_id@,
                                meta@,
                                html@,
                                now_ts as int,
                                fresh,
                            )
                        }
                },
                Err(e) => *final(self) == *old(self) && match e@ {
                    SpecStoreError::NotFound => !exists_spec(old(self)@, page_id@),
                    SpecStoreError::Corrupt => save_corrupt(old(self)@, page_id@),
                    SpecStoreError::UidExhausted => !save_corrupt(old(self)@, page_id@)
                        && save_needs_fresh(old(self)@, page_id@, meta@.page_uid),
                    SpecStoreError::Io(_) => !save_corrupt(old(self)@, page_id@)
                        && save_needs_fresh(old(self)@, page_id@, meta@.page_uid),
                    SpecStoreError::Validation(ve) => !save_corrupt(old(self)@, page_id@)
                        && !crate::validate::html_ok(html.spec_bytes())
                        && crate::validate::validate_html_spec(html.spec_bytes()) == Err::<
                        (),
                        crate::validate::SpecValidationError,
                    >(ve),
                    _ => false,
                },
            },
            r is Err && r->Err_0 is NotFound <==> !exists_spec(old(self)@, page_id@),
            (exists_spec(old(self)@, page_id@) && !save_corrupt(old(self)@, page_id@)
                && !save_needs_fresh(old(self)@, page_id@, meta@.page_uid)
                && crate::validate::html_ok(html.spec_bytes())) ==> r is Ok,
    {
        if !self.page_exists(page_id) {
            return Err(StoreError::NotFound);
        }
        self.save_page(page_id, meta, html, now_ts)
    }
}

} // verus!

verus! {

/// The bump of a page's view counter: the stored metadata with `view_count`
/// one higher (saturating), everything else untouched.
pub open spec fn increment_transition(s: StoreView, raw_id: Seq<char>) -> StoreView {
    let safe = sanitize_spec(raw_id);
    let m = readable_meta_at(s.dirs, safe).unwrap();
    let vc2 = if m.view_count < u64::MAX {
        m.view_count + 1
    } else {
        m.view_count
    };
    let m2 = PageMetaView {
        seo: m.seo,
        page_uid: m.page_uid,
        created_at: m.created_at,
        updated_at: m.updated_at,
        view_count: vc2,
        extra: m.extra,
    };
    let dir2 = PageDirView {
        meta: Some(MetaDocumentView::Readable(m2)),
        html: dir_at(s.dirs, safe).html,
    };
    StoreView { dirs: upsert_dir(s.dirs, safe, dir2), index: s.index }
}

impl PageStore {
    /// Creates a page under a freshly generated uid, used directly as its
    /// directory id, and returns the metadata as persisted: the caller's SEO
    /// fields, the fresh uid, the resolved `created_at` and the given time as
    /// `updated_at`.  Loading the returned `page_uid` afterwards yields
    /// exactly this metadata and exactly the given HTML text.
    pub fn create_page_auto_uid(&mut self, meta: &PageMeta, html: &str, now_ts: i64) -> (r: Result<
        PageMeta,
        StoreError,
    >)
        requires
            old(self).wf(),
            now_ts > 0,
        ensures
            final(self).wf(),
            match r {
                Ok(saved) => {
                    &&& uid_seq_ok(saved@.page_uid)
                    &&& !uid_taken(old(self)@.index, saved@.page_uid)
                    &&& !exists_spec(old(self)@, saved@.page_uid)
                    &&& saved@.seo == meta@.seo
                    &&& saved@.view_count == meta@.view_count
                    &&& saved@.extra == meta@.extra
                    &&& saved@.created_at == (if meta@.created_at > 0 {
                        meta@.created_at
                    } else {
                        now_ts as int
                    })
                    &&& saved@.updated_at == now_ts as int
                    &&& crate::validate::html_ok(html.spec_bytes())
                    &&& load_ok(final(self)@, saved@.page_uid)
                    &&& loaded_meta(final(self)@, saved@.page_uid) == saved@
                    &&& loaded_html(final(self)@, saved@.page_uid) == html@
                },
                Err(e) => *final(self) == *old(self) && match e@ {
                    SpecStoreError::AlreadyExists => true,
                    SpecStoreError::UidExhausted => true,
                    SpecStoreError::Io(_) => true,
                    SpecStoreError::Validation(ve) => !crate::validate::html_ok(html.spec_bytes())
                        && crate::validate::validate_html_spec(html.spec_bytes()) == Err::<
                        (),
                        crate::validate::SpecValidationError,
                    >(ve),
                    _ => false,
                },
            },
    {
        let ghost sv = self@;
        let uid = match generate_unique_page_uid(&self.index) {
            Ok(u) => u,
            Err(e) => {
                return Err(e);
            },
        };
        let mut meta_with_uid = meta.clone();
        meta_with_uid.page_uid = uid.clone();
        proof {
            lemma_sanitize_uid(uid@);
        }
        match self.create_page(uid.as_str(), &meta_with_uid, html, now_ts) {
            Ok(()) => {},
            Err(e) => {
                return Err(e);
            },
        }
        proof {
            let safe = sanitize_spec(uid@);
            assert(safe == uid@);
            let fresh = choose|fresh: Seq<char>|
                {
                    &&& (save_needs_fresh(sv, uid@, meta_with_uid@.page_uid) ==> (uid_seq_ok(fresh)
                    && !uid_taken(sv.index, fresh)))
                    &&& self@ == #[trigger] save_transition(
                        sv,
                        uid@,
                        meta_with_uid@,
                        html@,
                        now_ts as int,
                        fresh,
                    )
                };
            assert(!has_key(sv.dirs, uid@) && !index_has(sv.index, uid@));
            assert(readable_meta_at(sv.dirs, safe) is None);
            assert(idx_entry_of(sv, safe) is None);
            lemma_upsert_dir_props(
                sv.dirs,
                safe,
                PageDirView {
                    meta: Some(
                        MetaDocumentView::Readable(
                            saved_meta_view(
                                meta_with_uid@,
                                uid@,
                                resolve_created_spec(None, meta@.created_at, now_ts as int),
                                now_ts as int,
                            ),
                        ),
                    ),
                    html: Some(html@),
                },
            );
        }
        match self.load_page(uid.as_str()) {
            Ok((saved, _stored_html)) => Ok(saved),
            Err(_) => {
                proof {
                    assert(false);
                }
                Err(StoreError::NotFound)
            },
        }
    }

    /// Re-persists a page's metadata alone: the HTML document stays exactly
    /// what it was.  The permanent uid and `created_at` are preserved by the
    /// usual priorities, and `updated_at` is stamped with the given time.
    pub fn update_page_meta(&mut self, page_id: &str, meta: &PageMeta, now_ts: i64) -> (r: Result<
        (),
        StoreError,
    >)
        requires
            old(self).wf(),
            now_ts > 0,
        ensures
            final(self).wf(),
            match r {
                Ok(()) => {
                    &&& exists_spec(old(self)@, page_id@)
                    &&& !save_corrupt(old(self)@, page_id@)
                    &&& exists|fresh: Seq<char>|
                        {
                            &&& (save_needs_fresh(old(self)@, page_id@, meta@.page_uid) ==> (
                            uid_seq_ok(fresh) && !uid_taken(old(self)@.index, fresh)))
                            &&& final(self)@ == #[trigger] update_meta_transition(
                                old(self)@,
                                page_id@,
                                meta@,
                                now_ts as int,
                                fresh,
                            )
                        }
                },
                Err(e) => *final(self) == *old(self) && match e@ {
                    SpecStoreError::NotFound => !exists_spec(old(self)@, page_id@),
                    SpecStoreError::Corrupt => save_corrupt(old(self)@, page_id@),
                    SpecStoreError::UidExhausted => !save_corrupt(old(self)@, page_id@)
                        && save_needs_fresh(old(self)@, page_id@, meta@.page_uid),
                    SpecStoreError::Io(_) => !save_corrupt(old(self)@, page_id@)
                        && save_needs_fresh(old(self)@, page_id@, meta@.page_uid),
                    _ => false,
                },
            },
            r is Err && r->Err_0 is NotFound <==> !exists_spec(old(self)@, page_id@),
            (exists_spec(old(self)@, page_id@) && !save_corrupt(old(self)@, page_id@)
                && !save_needs_fresh(old(self)@, page_id@, meta@.page_uid)) ==> r is Ok,
    {
        if !self.page_exists(page_id) {
            return Err(StoreError::NotFound);
        }
        let raw = page_id.to_owned();
        let safe = sanitize_page_id(page_id);
        let ghost sv = self@;
        let ghost safe_v = sanitize_spec(page_id@);

        let dir_pos = find_dir_idx(&self.dirs, &safe);
        let mut existing_meta: Option<PageMeta> = None;
        let mut old_html: Option<String> = None;
        match dir_pos {
            Some(i) => {
                proof {
                    lemma_key_at_unique(sv.dirs, safe_v, i as int);
                }
                match &self.dirs[i].dir.meta {
                    Some(MetaDocument::Readable(m)) => {
                        existing_meta = Some(m.clone());
                    },
                    Some(MetaDocument::Unreadable) => {
                        return Err(StoreError::Corrupt);
                    },
                    None => {},
                }
                match &self.dirs[i].dir.html {
                    Some(h) => {
                        old_html = Some(h.clone());
                    },
                    None => {},
                }
            },
            None => {
                proof {
                    assert(!has_key(sv.dirs, safe_v));
                }
            },
        }
        let existing_ref = existing_meta.as_ref();
        proof {
            assert(view_opt_meta(existing_ref) == readable_meta_at(sv.dirs, safe_v));
            assert(!save_corrupt(sv, page_id@));
            assert(match old_html {
                Some(ref h) => Some(h@),
                None => None::<Seq<char>>,
            } == if has_key(sv.dirs, safe_v) {
                dir_at(sv.dirs, safe_v).html
            } else {
                None::<Seq<char>>
            });
        }

        let entry_pos = find_entry_pos(&self.index.pages, &safe);
        let existing_entry: Option<PageIndexEntry> = match entry_pos {
            Some(i) => {
                proof {
                    lemma_entry_idx_unique(sv.index, safe_v, i as int);
                }
                Some(self.index.pages[i].clone())
            },
            None => {
                proof {
                    assert(!index_has(sv.index, safe_v));
                }
                None
            },
        };
        let entry_ref = existing_entry.as_ref();
        proof {
            assert(view_opt_entry(entry_ref) == idx_entry_of(sv, safe_v));
        }

        let uid: String = match resolve_page_uid(existing_ref, entry_ref, &meta.page_uid) {
            Some(u) => u,
            None => {
                match generate_unique_page_uid(&self.index) {
                    Ok(u) => u,
                    Err(e) => {
                        return Err(e);
                    },
                }
            },
        };
        let created = resolve_created_at(existing_ref, meta.created_at, now_ts);

        let mut m2 = meta.clone();
        m2.page_uid = uid.clone();
        m2.created_at = created;
        m2.updated_at = now_ts;
        proof {
            assert(m2@ == saved_meta_view(meta@, uid@, created as int, now_ts as int));
        }
        let orig: Option<String> = match &existing_entry {
            Some(en) => match &en.original_id {
                Some(o) => Some(o.clone()),
                None => if safe == raw {
                    None
                } else {
                    Some(raw.clone())
                },
            },
            None => if safe == raw {
                None
            } else {
                Some(raw.clone())
            },
        };
        proof {
            assert(match orig {
                Some(ref o) => Some(o@),
                None => None::<Seq<char>>,
            } == resolve_original_id_spec(idx_entry_of(sv, safe_v), page_id@, safe_v));
        }
        let new_entry = PageIndexEntry {
            page_id: safe.clone(),
            seo: m2.seo.clone(),
            page_uid: uid.clone(),
            original_id: orig,
        };
        let new_dir = PageDir { meta: Some(MetaDocument::Readable(m2)), html: old_html };
        let ghost dir2 = new_dir@;
        let ghost e2 = new_entry@;
        proof {
            lemma_upsert_dir_props(sv.dirs, safe_v, dir2);
            lemma_upsert_entry_props(sv.index, e2);
        }
        match dir_pos {
            Some(i) => {
                self.dirs.set(i, DirEntry { name: safe.clone(), dir: new_dir });
                proof {
                    assert(self@.dirs =~= sv.dirs.update(key_at(sv.dirs, safe_v), (safe_v, dir2)));
                }
            },
            None => {
                self.dirs.push(DirEntry { name: safe.clone(), dir: new_dir });
                proof {
                    assert(self@.dirs =~= sv.dirs.push((safe_v, dir2)));
                }
            },
        }
        match entry_pos {
            Some(i) => {
                self.index.pages.set(i, new_entry);
                proof {
                    assert(self@.index =~= sv.index.update(entry_idx(sv.index, safe_v), e2));
                }
            },
            None => {
                self.index.pages.push(new_entry);
                proof {
                    assert(self@.index =~= sv.index.push(e2));
                }
            },
        }
        proof {
            assert(self@.dirs == upsert_dir(sv.dirs, safe_v, dir2));
            assert(self@.index == upsert_entry(sv.index, e2));
            assert(self@ == update_meta_transition(sv, page_id@, meta@, now_ts as int, uid@));
            assert(save_needs_fresh(sv, page_id@, meta@.page_uid) ==> (uid_seq_ok(uid@)
                && !uid_taken(sv.index, uid@)));
            assert(exists|fresh: Seq<char>|
                {
                    &&& (save_needs_fresh(sv, page_id@, meta@.page_uid) ==> (uid_seq_ok(fresh)
                    && !uid_taken(sv.index, fresh)))
                    &&& self@ == #[trigger] update_meta_transition(
                        sv,
                        page_id@,
                        meta@,
                        now_ts as int,
                        fresh,
                    )
                });
        }
        Ok(())
    }

    /// Re-persists a page's HTML document alone: the stored metadata keeps
    /// its fields, with the uid preserved, `created_at` repaired if it was
    /// not positive, and `updated_at` stamped with the given time.  The new
    /// HTML is validated before anything is written.
    pub fn update_page_html(&mut self, page_id: &str, html: &str, now_ts: i64) -> (r: Result<
        (),
        StoreError,
    >)
        requires
            old(self).wf(),
            now_ts > 0,
        ensures
            final(self).wf(),
            match r {
                Ok(()) => {
                    &&& exists_spec(old(self)@, page_id@)
                    &&& readable_meta_at(old(self)@.dirs, sanitize_spec(page_id@)) is Some
                    &&& crate::validate::html_ok(html.spec_bytes())
                    &&& exists|fresh: Seq<char>|
                        {
                            &&& (save_needs_fresh(old(self)@, page_id@, Seq::empty()) ==> (
                            uid_seq_ok(fresh) && !uid_taken(old(self)@.index, fresh)))
                            &&& final(self)@ == #[trigger] update_html_transition(
                                old(self)@,
                                page_id@,
                                html@,
                                now_ts as int,
                                fresh,
                            )
                        }
                },
                Err(e) => *final(self) == *old(self) && match e@ {
                    SpecStoreError::NotFound => !exists_spec(old(self)@, page_id@) || (
                    !save_corrupt(old(self)@, page_id@) && readable_meta_at(
                        old(self)@.dirs,
                        sanitize_spec(page_id@),
                    ) is None),
                    SpecStoreError::Corrupt => save_corrupt(old(self)@, page_id@),
                    SpecStoreError::UidExhausted => save_needs_fresh(
                        old(self)@,
                        page_id@,
                        Seq::empty(),
                    ),
                    SpecStoreError::Io(_) => save_needs_fresh(old(self)@, page_id@, Seq::empty()),
                    SpecStoreError::Validation(ve) => !crate::validate::html_ok(html.spec_bytes())
                        && crate::validate::validate_html_spec(html.spec_bytes()) == Err::<
                        (),
                        crate::validate::SpecValidationError,
                    >(ve),
                    _ => false,
                },
            },
            (exists_spec(old(self)@, page_id@) && readable_meta_at(
                old(self)@.dirs,
                sanitize_spec(page_id@),
            ) is Some && !save_needs_fresh(old(self)@, page_id@, Seq::empty())
                && crate::validate::html_ok(html.spec_bytes())) ==> r is Ok,
    {
        if !self.page_exists(page_id) {
            return Err(StoreError::NotFound);
        }
        let raw = page_id.to_owned();
        let safe = sanitize_page_id(page_id);
        let ghost sv = self@;
        let ghost safe_v = sanitize_spec(page_id@);

        let dir_pos = find_dir_idx(&self.dirs, &safe);
        let stored: PageMeta = match dir_pos {
            Some(i) => {
                proof {
                    lemma_key_at_unique(sv.dirs, safe_v, i as int);
                }
                match &self.dirs[i].dir.meta {
                    Some(MetaDocument::Readable(m)) => m.clone(),
                    Some(MetaDocument::Unreadable) => {
                        return Err(StoreError::Corrupt);
                    },
                    None => {
                        return Err(StoreError::NotFound);
                    },
                }
            },
            None => {
                proof {
                    assert(!has_key(sv.dirs, safe_v));
                }
                return Err(StoreError::NotFound);
            },
        };
        proof {
            assert(readable_meta_at(sv.dirs, safe_v) == Some(stored@));
        }

        let entry_pos = find_entry_pos(&self.index.pages, &safe);
        let existing_entry: Option<PageIndexEntry> = match entry_pos {
            Some(i) => {
                proof {
                    lemma_entry_idx_unique(sv.index, safe_v, i as int);
                }
                Some(self.index.pages[i].clone())
            },
            None => {
                proof {
                    assert(!index_has(sv.index, safe_v));
                }
                None
            },
        };
        let entry_ref = existing_entry.as_ref();
        proof {
            assert(view_opt_entry(entry_ref) == idx_entry_of(sv, safe_v));
        }

        let empty_uid = String::new();
        let uid: String = match resolve_page_uid(Some(&stored), entry_ref, &empty_uid) {
            Some(u) => u,
            None => {
                match generate_unique_page_uid(&self.index) {
                    Ok(u) => u,
                    Err(e) => {
                        return Err(e);
                    },
                }
            },
        };
        let created = resolve_created_at(Some(&stored), 0, now_ts);

        match crate::validate::validate_html(html) {
            Err(ve) => {
                return Err(StoreError::Validation(ve));
            },
            Ok(()) => {},
        }

        let mut m2 = stored.clone();
        m2.page_uid = uid.clone();
        m2.created_at = created;
        m2.updated_at = now_ts;
        proof {
            assert(m2@ == saved_meta_view(stored@, uid@, created as int, now_ts as int));
        }
        let orig: Option<String> = match &existing_entry {
            Some(en) => match &en.original_id {
                Some(o) => Some(o.clone()),
                None => if safe == raw {
                    None
                } else {
                    Some(raw.clone())
                },
            },
            None => if safe == raw {
                None
            } else {
                Some(raw.clone())
            },
        };
        proof {
            assert(match orig {
                Some(ref o) => Some(o@),
                None => None::<Seq<char>>,
            } == resolve_original_id_spec(idx_entry_of(sv, safe_v), page_id@, safe_v));
        }
        let new_entry = PageIndexEntry {
            page_id: safe.clone(),
            seo: m2.seo.clone(),
            page_uid: uid.clone(),
            original_id: orig,
        };
        let new_dir = PageDir {
            meta: Some(MetaDocument::Readable(m2)),
            html: Some(html.to_owned()),
        };
        let ghost dir2 = new_dir@;
        let ghost e2 = new_entry@;
        proof {
            lemma_upsert_dir_props(sv.dirs, safe_v, dir2);
            lemma_upsert_entry_props(sv.index, e2);
        }
        match dir_pos {
            Some(i) => {
                self.dirs.set(i, DirEntry { name: safe.clone(), dir: new_dir });
                proof {
                    assert(self@.dirs =~= sv.dirs.update(key_at(sv.dirs, safe_v), (safe_v, dir2)));
                }
            },
            None => {
                self.dirs.push(DirEntry { name: safe.clone(), dir: new_dir });
                proof {
                    assert(self@.dirs =~= sv.dirs.push((safe_v, dir2)));
                }
            },
        }
        match entry_pos {
            Some(i) => {
                self.index.pages.set(i, new_entry);
                proof {
                    assert(self@.index =~= sv.index.update(entry_idx(sv.index, safe_v), e2));
                }
            },
            None => {
                self.index.pages.push(new_entry);
                proof {
                    assert(self@.index =~= sv.index.push(e2));
                }
            },
        }
        proof {
            assert(self@.dirs == upsert_dir(sv.dirs, safe_v, dir2));
            assert(self@.index == upsert_entry(sv.index, e2));
            assert(self@ == update_html_transition(sv, page_id@, html@, now_ts as int, uid@));
            assert(save_needs_fresh(sv, page_id@, Seq::empty()) ==> (uid_seq_ok(uid@)
                && !uid_taken(sv.index, uid@)));
            assert(exists|fresh: Seq<char>|
                {
                    &&& (save_needs_fresh(sv, page_id@, Seq::empty()) ==> (uid_seq_ok(fresh)
                    && !uid_taken(sv.index, fresh)))
                    &&& self@ == #[trigger] update_html_transition(
                        sv,
                        page_id@,
                        html@,
                        now_ts as int,
                        fresh,
                    )
                });
        }
        Ok(())
    }

    /// Bumps a page's view counter by one (saturating), touching nothing
    /// else: the other metadata fields, the HTML document and the index all
    /// stay as they were.
    pub fn increment_view_count(&mut self, page_id: &str) -> (r: Result<(), StoreError>)
        requires
            old(self).wf(),
        ensures
            final(self).wf(),
            r is Ok <==> readable_meta_at(old(self)@.dirs, sanitize_spec(page_id@)) is Some,
            match r {
                Ok(()) => final(self)@ == increment_transition(old(self)@, page_id@),
                Err(e) => *final(self) == *old(self) && match e@ {
                    SpecStoreError::Corrupt => save_corrupt(old(self)@, page_id@),
                    SpecStoreError::NotFound => !save_corrupt(old(self)@, page_id@)
                        && readable_meta_at(old(self)@.dirs, sanitize_spec(page_id@)) is None,
                    _ => false,
                },
            },
    {
        let safe = sanitize_page_id(page_id);
        let ghost sv = self@;
        let ghost safe_v = sanitize_spec(page_id@);
        let dir_pos = find_dir_idx(&self.dirs, &safe);
        let (mut m2, old_html): (PageMeta, Option<String>) = match dir_pos {
            Some(i) => {
                proof {
                    lemma_key_at_unique(sv.dirs, safe_v, i as int);
                }
                match &self.dirs[i].dir.meta {
                    Some(MetaDocument::Readable(m)) => {
                        let h = match &self.dirs[i].dir.html {
                            Some(h) => Some(h.clone()),
                            None => None,
                        };
                        (m.clone(), h)
                    },
                    Some(MetaDocument::Unreadable) => {
                        return Err(StoreError::Corrupt);
                    },
                    None => {
                        return Err(StoreError::NotFound);
                    },
                }
            },
            None => {
                proof {
                    assert(!has_key(sv.dirs, safe_v));
                }
                return Err(StoreError::NotFound);
            },
        };
        proof {
            assert(readable_meta_at(sv.dirs, safe_v) == Some(m2@));
            assert(match old_html {
                Some(ref h) => Some(h@),
                None => None::<Seq<char>>,
            } == dir_at(sv.dirs, safe_v).html);
        }
        if m2.view_count < u64::MAX {
            m2.view_count = m2.view_count + 1;
        }
        let new_dir = PageDir { meta: Some(MetaDocument::Readable(m2)), html: old_html };
        let ghost dir2 = new_dir@;
        proof {
            lemma_upsert_dir_props(sv.dirs, safe_v, dir2);
        }
        match dir_pos {
            Some(i) => {
                self.dirs.set(i, DirEntry { name: safe, dir: new_dir });
                proof {
                    assert(self@.dirs =~= sv.dirs.update(key_at(sv.dirs, safe_v), (safe_v, dir2)));
                }
            },
            None => {
                proof {
                    assert(false);
                }
            },
        }
        proof {
            assert(self@.dirs == upsert_dir(sv.dirs, safe_v, dir2));
            assert(self@ == increment_transition(sv, page_id@));
        }
        Ok(())
    }
}

/// Once persisted, a page's `created_at` never changes across further
/// persists of the same id, and each persist stamps `updated_at` with its own
/// timestamp, so `updated_at` never decreases while timestamps do not.
pub proof fn lemma_timestamps_across_saves(
    s: StoreView,
    raw: Seq<char>,
    m1: PageMetaView,
    h1: Seq<char>,
    now1: int,
    f1: Seq<char>,
    m2: PageMetaView,
    h2: Seq<char>,
    now2: int,
    f2: Seq<char>,
)
    requires
        dirs_wf(s.dirs),
        index_wf(s.index),
        0 < now1 <= now2,
    ensures
        ({
            let s1 = save_transition(s, raw, m1, h1, now1, f1);
            let s2 = save_transition(s1, raw, m2, h2, now2, f2);
            &&& load_ok(s1, raw)
            &&& load_ok(s2, raw)
            &&& loaded_meta(s2, raw).created_at == loaded_meta(s1, raw).created_at
            &&& loaded_meta(s1, raw).updated_at == now1
            &&& loaded_meta(s2, raw).updated_at == now2
            &&& loaded_meta(s1, raw).updated_at <= loaded_meta(s2, raw).updated_at
        }),
{
    let safe = sanitize_spec(raw);
    let s1 = save_transition(s, raw, m1, h1, now1, f1);
    let existing1 = readable_meta_at(s.dirs, safe);
    let idx1 = idx_entry_of(s, safe);
    let uid1 = match resolved_uid_opt(existing1, idx1, m1.page_uid) {
        Some(u) => u,
        None => f1,
    };
    let created1 = resolve_created_spec(existing1, m1.created_at, now1);
    let m1s = saved_meta_view(m1, uid1, created1, now1);
    let dir1 = PageDirView { meta: Some(MetaDocumentView::Readable(m1s)), html: Some(h1) };
    lemma_upsert_dir_props(s.dirs, safe, dir1);
    assert(readable_meta_at(s1.dirs, safe) == Some(m1s));
    assert(created1 > 0);
    assert(load_ok(s1, raw));
    assert(loaded_meta(s1, raw) == m1s);

    let s2 = save_transition(s1, raw, m2, h2, now2, f2);
    let existing2 = readable_meta_at(s1.dirs, safe);
    assert(existing2 == Some(m1s));
    let idx2 = idx_entry_of(s1, safe);
    let uid2 = match resolved_uid_opt(existing2, idx2, m2.page_uid) {
        Some(u) => u,
        None => f2,
    };
    let created2 = resolve_created_spec(existing2, m2.created_at, now2);
    assert(created2 == created1);
    let m2s = saved_meta_view(m2, uid2, created2, now2);
    let dir2 = PageDirView { meta: Some(MetaDocumentView::Readable(m2s)), html: Some(h2) };
    lemma_upsert_dir_props(s1.dirs, safe, dir2);
    assert(readable_meta_at(s2.dirs, safe) == Some(m2s));
    assert(load_ok(s2, raw));
    assert(loaded_meta(s2, raw) == m2s);
}

} // verus!

verus! {

/// The first index entry carrying this uid, scanning from `i`.
pub open spec fn first_uid_idx(x: Seq<EntryView>, uid: Seq<char>, i: int) -> Option<int>
    decreases x.len() - i,
{
    if i < 0 || i >= x.len() {
        None
    } else if x[i].page_uid == uid {
        Some(i)
    } else {
        first_uid_idx(x, uid, i + 1)
    }
}

/// `first_uid_idx` returns the first carrier and nothing earlier.
pub proof fn lemma_first_uid_idx_char(x: Seq<EntryView>, uid: Seq<char>, start: int)
    requires
        start >= 0,
    ensures
        match first_uid_idx(x, uid, start) {
            Some(k) => start <= k < x.len() && x[k].page_uid == uid && forall|j: int|
                start <= j < k ==> x[j].page_uid != uid,
            None => forall|j: int| start <= j < x.len() ==> x[j].page_uid != uid,
        },
    decreases x.len() - start,
{
    if 0 <= start && start < x.len() && x[start].page_uid != uid {
        lemma_first_uid_idx_char(x, uid, start + 1);
    }
}

/// The directory id a page uid resolves to: the uid itself when it is an
/// index key, else the id of the first entry carrying the uid.
pub open spec fn spec_resolve_page_id(x: Seq<EntryView>, uid: Seq<char>) -> Option<Seq<char>> {
    if index_has(x, uid) {
        Some(uid)
    } else {
        match first_uid_idx(x, uid, 0) {
            Some(k) => Some(x[k].page_id),
            None => None,
        }
    }
}

} // verus!

verus! {

/// The views of a vector of strings.
pub open spec fn string_seq_view(v: Vec<String>) -> Seq<Seq<char>> {
    v@.map_values(|s: String| s@)
}

} // verus!
