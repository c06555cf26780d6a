//! Structural HTML validation.
//!
//! The validator walks the byte stream with the shared tokenizer and keeps a
//! stack of open tags: every non-void, non-self-closing opening tag is pushed,
//! every closing tag must match the top of the stack, raw-text elements
//! (`script`, `style`) are consumed as a single step, and anything left open
//! at the end of the input is an error.  It is a structural linter, not a full
//! parser: attribute syntax is only understood far enough (quote balance) to
//! find the end of a tag.

use vstd::prelude::*;
use vstd::string::StringSliceAdditionalSpecFns;

use crate::scan::find_bytes;
use crate::scan::find_bytes_case_insensitive;
use crate::scan::find_tag_end;
use crate::scan::find_tag_end_spec;
use crate::scan::is_ascii_ws;
use crate::scan::is_self_closing;
use crate::scan::is_void_element;
use crate::scan::is_void_name;
use crate::scan::is_ws_byte;
use crate::scan::lemma_find_tag_end_spec_bounds;
use crate::scan::lowercase_bytes;
use crate::scan::match_at;
use crate::scan::match_at_ci;
use crate::scan::name_end_idx;
use crate::scan::parse_tag_name;
use crate::scan::self_closing_spec;
use crate::scan::skip_ws_idx;
use crate::scan::to_lower_bytes;

verus! {

/// First literal occurrence of `n` in `h` at or after `i`.
pub open spec fn find_match_idx(h: Seq<u8>, n: Seq<u8>, i: int) -> Option<int>
    decreases h.len() - i,
{
    if i < 0 || i + n.len() > h.len() {
        None
    } else if match_at(h, n, i) {
        Some(i)
    } else {
        find_match_idx(h, n, i + 1)
    }
}

/// First occurrence of `n` in `h` at or after `i`, up to ASCII case.
pub open spec fn find_match_ci_idx(h: Seq<u8>, n: Seq<u8>, i: int) -> Option<int>
    decreases h.len() - i,
{
    if i < 0 || i + n.len() > h.len() {
        None
    } else if match_at_ci(h, n, i) {
        Some(i)
    } else {
        find_match_ci_idx(h, n, i + 1)
    }
}

/// `find_match_idx` returns the first match and nothing earlier.
pub proof fn lemma_find_match_idx_char(h: Seq<u8>, n: Seq<u8>, start: int)
    requires
        n.len() > 0,
        start >= 0,
    ensures
        match find_match_idx(h, n, start) {
            Some(i) => start <= i && match_at(h, n, i) && forall|j: int|
                start <= j < i ==> !match_at(h, n, j),
            None => forall|j: int| j >= start ==> !match_at(h, n, j),
        },
    decreases h.len() - start,
{
    if start + n.len() > h.len() {
    } else if match_at(h, n, start) {
    } else {
        lemma_find_match_idx_char(h, n, start + 1);
    }
}

/// `find_match_ci_idx` returns the first match and nothing earlier.
pub proof fn lemma_find_match_ci_idx_char(h: Seq<u8>, n: Seq<u8>, start: int)
    requires
        n.len() > 0,
        start >= 0,
    ensures
        match find_match_ci_idx(h, n, start) {
            Some(i) => start <= i && match_at_ci(h, n, i) && forall|j: int|
                start <= j < i ==> !match_at_ci(h, n, j),
            None => forall|j: int| j >= start ==> !match_at_ci(h, n, j),
        },
    decreases h.len() - start,
{
    if start + n.len() > h.len() {
    } else if match_at_ci(h, n, start) {
    } else {
        lemma_find_match_ci_idx_char(h, n, start + 1);
    }
}

/// Skipping whitespace stays inside the input.
pub proof fn lemma_skip_ws_bounds(h: Seq<u8>, i: int)
    requires
        0 <= i <= h.len(),
    ensures
        i <= skip_ws_idx(h, i) <= h.len(),
    decreases h.len() - i,
{
    if i < h.len() && is_ascii_ws(h[i]) {
        lemma_skip_ws_bounds(h, i + 1);
    }
}

/// The end of a tag name stays inside the input.
pub proof fn lemma_name_end_bounds(h: Seq<u8>, i: int)
    requires
        0 <= i <= h.len(),
    ensures
        i <= name_end_idx(h, i) <= h.len(),
    decreases h.len() - i,
{
    if i < h.len() && crate::scan::is_name_byte(h[i]) {
        lemma_name_end_bounds(h, i + 1);
    }
}

/// An open tag on the validator's stack: its lowercase name and the byte
/// offset of its `<`.
pub ghost struct OpenTag {
    pub name: Seq<u8>,
    pub offset: int,
}

/// The ways validation can fail, at the specification level.
pub ghost enum SpecValidationError {
    /// The input is empty once ASCII whitespace is ignored.
    Empty,
    /// The input holds a NUL byte at this offset.
    NulByte { offset: int },
    /// A `<!--` comment never reaches `-->`.
    UnterminatedComment { offset: int },
    /// A `<!` declaration never reaches an unquoted `>`.
    UnterminatedDeclaration { offset: int },
    /// A `<` is not followed by a tag name.
    MissingTagName { offset: int },
    /// A closing tag never reaches an unquoted `>`.
    UnterminatedClosingTag { offset: int },
    /// An opening tag never reaches an unquoted `>`.
    UnterminatedOpeningTag { offset: int },
    /// A closing tag appears while no tag is open.
    UnexpectedClosingTag { name: Seq<u8>, offset: int },
    /// A closing tag does not match the innermost open tag.
    MismatchedClosingTag { found: Seq<u8>, offset: int, expected: Seq<u8>, opened_at: int },
    /// A `script` or `style` element has no matching closing tag.
    UnterminatedRawText { name: Seq<u8>, offset: int },
    /// A tag is still open when the input ends.
    UnclosedTag { name: Seq<u8>, offset: int },
}

/// The ways validation can fail.  Offsets are byte offsets into the input;
/// names are lowercase tag names.
#[derive(Debug, Clone, PartialEq, Eq)]
pub enum ValidationError {
    Empty,
    NulByte { offset: usize },
    UnterminatedComment { offset: usize },
    UnterminatedDeclaration { offset: usize },
    MissingTagName { offset: usize },
    UnterminatedClosingTag { offset: usize },
    UnterminatedOpeningTag { offset: usize },
    UnexpectedClosingTag { name: Vec<u8>, offset: usize },
    MismatchedClosingTag { found: Vec<u8>, offset: usize, expected: Vec<u8>, opened_at: usize },
    UnterminatedRawText { name: Vec<u8>, offset: usize },
    UnclosedTag { name: Vec<u8>, offset: usize },
}

impl View for ValidationError {
    type V = SpecValidationError;

    open spec fn view(&self) -> SpecValidationError {
        match self {
            ValidationError::Empty => SpecValidationError::Empty,
            ValidationError::NulByte { offset } => SpecValidationError::NulByte {
                offset: *offset as int,
            },
            ValidationError::UnterminatedComment { offset } => SpecValidationError::UnterminatedComment {
                offset: *offset as int,
            },
            ValidationError::UnterminatedDeclaration { offset } => SpecValidationError::UnterminatedDeclaration {
                offset: *offset as int,
            },
            ValidationError::MissingTagName { offset } => SpecValidationError::MissingTagName {
                offset: *offset as int,
            },
            ValidationError::UnterminatedClosingTag { offset } => SpecValidationError::UnterminatedClosingTag {
                offset: *offset as int,
            },
            ValidationError::UnterminatedOpeningTag { offset } => SpecValidationError::UnterminatedOpeningTag {
                offset: *offset as int,
            },
            ValidationError::UnexpectedClosingTag { name, offset } => SpecValidationError::UnexpectedClosingTag {
                name: name@,
                offset: *offset as int,
            },
            ValidationError::MismatchedClosingTag { found, offset, expected, opened_at } => SpecValidationError::MismatchedClosingTag {
                found: found@,
                offset: *offset as int,
                expected: expected@,
                opened_at: *opened_at as int,
            },
            ValidationError::UnterminatedRawText { name, offset } => SpecValidationError::UnterminatedRawText {
                name: name@,
                offset: *offset as int,
            },
            ValidationError::UnclosedTag { name, offset } => SpecValidationError::UnclosedTag {
                name: name@,
                offset: *offset as int,
            },
        }
    }
}

/// The lowercase name of the `script` element.
pub open spec fn script_name() -> Seq<u8> {
    seq![115u8, 99, 114, 105, 112, 116]
}

/// The lowercase name of the `style` element.
pub open spec fn style_name() -> Seq<u8> {
    seq![116u8, 121, 108, 101] + seq![]
}

/// Whether a lowercase tag name marks a raw-text element.
pub open spec fn is_raw_text_name(n: Seq<u8>) -> bool {
    n =~= script_name() || n =~= seq![115u8, 116, 121, 108, 101]
}

/// First NUL byte at or after `i`.
pub open spec fn nul_idx(h: Seq<u8>, i: int) -> Option<int>
    decreases h.len() - i,
{
    if i < 0 || i >= h.len() {
        None
    } else if h[i] == 0 {
        Some(i)
    } else {
        nul_idx(h, i + 1)
    }
}

/// Every byte is ASCII whitespace (so the input trims to nothing).
pub open spec fn all_ws(h: Seq<u8>) -> bool {
    forall|j: int| 0 <= j < h.len() ==> is_ascii_ws(h[j])
}

/// One step of the validator, written as a recursive scan from byte `i` with
/// the given stack of open tags.
pub open spec fn scan_spec(h: Seq<u8>, i: int, stack: Seq<OpenTag>) -> Result<
    (),
    SpecValidationError,
>
    decreases h.len() - i,
    via scan_spec_dec
{
    if i < 0 || i >= h.len() {
        if stack.len() > 0 {
            Err(SpecValidationError::UnclosedTag {
                name: stack.last().name,
                offset: stack.last().offset,
            })
        } else {
            Ok(())
        }
    } else if h[i] != 60 {
        scan_spec(h, i + 1, stack)
    } else if i + 3 < h.len() && h[i + 1] == 33 && h[i + 2] == 45 && h[i + 3] == 45 {
        match find_match_idx(h, seq![45u8, 45, 62], i + 4) {
            Some(e) => scan_spec(h, e + 3, stack),
            None => Err(SpecValidationError::UnterminatedComment { offset: i }),
        }
    } else if i + 1 < h.len() && h[i + 1] == 33 {
        match find_tag_end_spec(h, i + 2, None) {
            Some(e) => scan_spec(h, e + 1, stack),
            None => Err(SpecValidationError::UnterminatedDeclaration { offset: i }),
        }
    } else if i + 1 < h.len() && h[i + 1] == 47 {
        let s = skip_ws_idx(h, i + 2);
        let e = name_end_idx(h, s);
        if s == e {
            Err(SpecValidationError::MissingTagName { offset: i })
        } else {
            let name = to_lower_bytes(h.subrange(s, e));
            match find_tag_end_spec(h, e, None) {
                None => Err(SpecValidationError::UnterminatedClosingTag { offset: i }),
                Some(end) => {
                    if stack.len() == 0 {
                        Err(SpecValidationError::UnexpectedClosingTag { name, offset: i })
                    } else if stack.last().name != name {
                        Err(SpecValidationError::MismatchedClosingTag {
                            found: name,
                            offset: i,
                            expected: stack.last().name,
                            opened_at: stack.last().offset,
                        })
                    } else {
                        scan_spec(h, end + 1, stack.drop_last())
                    }
                },
            }
        }
    } else {
        let s = skip_ws_idx(h, i + 1);
        let e = name_end_idx(h, s);
        if s == e {
            Err(SpecValidationError::MissingTagName { offset: i })
        } else {
            let name = to_lower_bytes(h.subrange(s, e));
            match find_tag_end_spec(h, e, None) {
                None => Err(SpecValidationError::UnterminatedOpeningTag { offset: i }),
                Some(end) => {
                    let selfclosing = self_closing_spec(h, i + 1, end);
                    if is_raw_text_name(name) {
                        if selfclosing {
                            scan_spec(h, end + 1, stack)
                        } else {
                            let closing = seq![60u8, 47] + name + seq![62u8];
                            match find_match_ci_idx(h, closing, end + 1) {
                                Some(cs) => scan_spec(h, cs + closing.len(), stack),
                                None => Err(SpecValidationError::UnterminatedRawText {
                                    name,
                                    offset: i,
                                }),
                            }
                        }
                    } else if !selfclosing && !is_void_name(name) {
                        scan_spec(h, end + 1, stack.push(OpenTag { name, offset: i }))
                    } else {
                        scan_spec(h, end + 1, stack)
                    }
                },
            }
        }
    }
}

#[via_fn]
proof fn scan_spec_dec(h: Seq<u8>, i: int, stack: Seq<OpenTag>) {
    if 0 <= i && i < h.len() {
        if h[i] != 60 {
        } else if i + 3 < h.len() && h[i + 1] == 33 && h[i + 2] == 45 && h[i + 3] == 45 {
            lemma_find_match_idx_char(h, seq![45u8, 45, 62], i + 4);
        } else if i + 1 < h.len() && h[i + 1] == 33 {
            if find_tag_end_spec(h, i + 2, None) is Some {
                lemma_find_tag_end_spec_bounds(h, i + 2, None);
            }
        } else if i + 1 < h.len() && h[i + 1] == 47 {
            lemma_skip_ws_bounds(h, i + 2);
            let s = skip_ws_idx(h, i + 2);
            lemma_name_end_bounds(h, s);
            let e = name_end_idx(h, s);
            if s != e && find_tag_end_spec(h, e, None) is Some {
                lemma_find_tag_end_spec_bounds(h, e, None);
            }
        } else {
            lemma_skip_ws_bounds(h, i + 1);
            let s = skip_ws_idx(h, i + 1);
            lemma_name_end_bounds(h, s);
            let e = name_end_idx(h, s);
            if s != e && find_tag_end_spec(h, e, None) is Some {
                lemma_find_tag_end_spec_bounds(h, e, None);
                let end = find_tag_end_spec(h, e, None).unwrap();
                let name = to_lower_bytes(h.subrange(s, e));
                if is_raw_text_name(name) && !self_closing_spec(h, i + 1, end) {
                    let closing = seq![60u8, 47] + name + seq![62u8];
                    lemma_find_match_ci_idx_char(h, closing, end + 1);
                }
            }
        }
    }
}

/// The full validation verdict for a byte sequence: empty and NUL checks,
/// then the structural scan with an empty stack.
pub open spec fn validate_html_spec(h: Seq<u8>) -> Result<(), SpecValidationError> {
    if all_ws(h) {
        Err(SpecValidationError::Empty)
    } else {
        match nul_idx(h, 0) {
            Some(p) => Err(SpecValidationError::NulByte { offset: p }),
            None => scan_spec(h, 0, Seq::empty()),
        }
    }
}

/// Whether a byte sequence passes validation.
pub open spec fn html_ok(h: Seq<u8>) -> bool {
    validate_html_spec(h) is Ok
}

/// The view of the validator's exec stack.
pub open spec fn stack_view(s: Seq<(Vec<u8>, usize)>) -> Seq<OpenTag> {
    s.map_values(|p: (Vec<u8>, usize)| OpenTag { name: p.0@, offset: p.1 as int })
}

/// Whether a lowercase tag name marks a raw-text element.
fn is_raw_text_name_exec(n: &[u8]) -> (r: bool)
    ensures
        r == is_raw_text_name(n@),
{
    let mut hit = false;
    if n.len() == 6 {
        hit = n[0] == 115 && n[1] == 99 && n[2] == 114 && n[3] == 105 && n[4] == 112 && n[5]
            == 116;
        if hit {
            assert(n@ =~= seq![n@[0], n@[1], n@[2], n@[3], n@[4], n@[5]]);
        }
    } else if n.len() == 5 {
        hit = n[0] == 115 && n[1] == 116 && n[2] == 121 && n[3] == 108 && n[4] == 101;
        if hit {
            assert(n@ =~= seq![n@[0], n@[1], n@[2], n@[3], n@[4]]);
        }
    }
    if !hit {
        assert(!is_raw_text_name(n@)) by {
            if is_raw_text_name(n@) {
                assert(false);
            }
        }
    }
    hit
}

/// Checks the structural well-formedness of an HTML document.
///
/// Fails when the input trims (by ASCII whitespace) to nothing, holds a NUL
/// byte, holds an unterminated comment, declaration or tag, closes a tag that
/// is not open, closes a tag other than the innermost open one, leaves a
/// raw-text element unterminated, or leaves any tag open at the end.
pub fn validate_html(html: &str) -> (r: Result<(), ValidationError>)
    ensures
        match r {
            Ok(()) => html_ok(html.spec_bytes()),
            Err(e) => validate_html_spec(html.spec_bytes()) == Err::<(), SpecValidationError>(e@),
        },
{
    let bytes = html.as_bytes();
    let ghost h = html.spec_bytes();

    // Empty check: every byte ASCII whitespace.
    let mut i: usize = 0;
    while i < bytes.len() && is_ws_byte(bytes[i])
        invariant
            0 <= i <= h.len(),
            bytes@ == h,
            forall|j: int| 0 <= j < i ==> is_ascii_ws(h[j]),
        decreases h.len() - i,
    {
        i = i + 1;
    }
    if i >= bytes.len() {
        assert(all_ws(h));
        return Err(ValidationError::Empty);
    }
    assert(!all_ws(h));

    // NUL check: report the first NUL byte.
    let mut i: usize = 0;
    while i < bytes.len()
        invariant
            0 <= i <= h.len(),
            bytes@ == h,
            h == html.spec_bytes(),
            !all_ws(h),
            nul_idx(h, 0) == nul_idx(h, i as int),
        decreases h.len() - i,
    {
        if bytes[i] == 0 {
            return Err(ValidationError::NulByte { offset: i });
        }
        i = i + 1;
    }
    assert(nul_idx(h, 0) is None);

    // Structural scan.
    let mut index: usize = 0;
    let mut stack: Vec<(Vec<u8>, usize)> = Vec::new();
    proof {
        assert(stack_view(stack@) =~= Seq::<OpenTag>::empty());
    }
    while index < bytes.len()
        invariant
            0 <= index <= h.len(),
            bytes@ == h,
            h == html.spec_bytes(),
            !all_ws(h),
            nul_idx(h, 0) is None,
            scan_spec(h, 0, Seq::empty()) == scan_spec(h, index as int, stack_view(stack@)),
        decreases h.len() - index,
    {
        let ghost sv = stack_view(stack@);
        if bytes[index] != 60 {
            index = index + 1;
            continue;
        }

        if bytes.len() - index > 3 && bytes[index + 1] == 33 && bytes[index + 2] == 45
            && bytes[index + 3] == 45 {
            let needle: [u8; 3] = [45, 45, 62];
            proof {
                assert(needle@ =~= seq![45u8, 45, 62]);
                lemma_find_match_idx_char(h, seq![45u8, 45, 62], index + 4);
            }
            match find_bytes(bytes, index + 4, needle.as_slice()) {
                Some(e) => {
                    proof {
                        let spec_e = find_match_idx(h, seq![45u8, 45, 62], index + 4);
                        assert(spec_e == Some(e as int)) by {
                            assert(match_at(h, seq![45u8, 45, 62], e as int));
                            if spec_e is Some && spec_e.unwrap() < e {
                                assert(match_at(h, seq![45u8, 45, 62], spec_e.unwrap()));
                            }
                            if spec_e is Some && spec_e.unwrap() > e {
                                assert(!match_at(h, seq![45u8, 45, 62], e as int));
                            }
                        }
                    }
                    index = e + 3;
                },
                None => {
                    proof {
                        let spec_e = find_match_idx(h, seq![45u8, 45, 62], index + 4);
                        assert(spec_e is None) by {
                            if spec_e is Some {
                                assert(match_at(h, seq![45u8, 45, 62], spec_e.unwrap()));
                            }
                        }
                    }
                    return Err(ValidationError::UnterminatedComment { offset: index });
                },
            }
            continue;
        }

        if bytes.len() - index > 1 && bytes[index + 1] == 33 {
            match find_tag_end(bytes, index + 2) {
                Some(e) => {
                    index = e + 1;
                },
                None => {
                    return Err(ValidationError::UnterminatedDeclaration { offset: index });
                },
            }
            continue;
        }

        if bytes.len() - index > 1 && bytes[index + 1] == 47 {
            // Closing tag.
            let ghost s = skip_ws_idx(h, index + 2);
            let ghost e = name_end_idx(h, s);
            match parse_tag_name(bytes, index + 2) {
                None => {
                    return Err(ValidationError::MissingTagName { offset: index });
                },
                Some((raw_name, after)) => {
                    let lname = lowercase_bytes(raw_name.as_slice());
                    assert(lname@ =~= to_lower_bytes(h.subrange(s, e)));
                    match find_tag_end(bytes, after) {
                        None => {
                            return Err(ValidationError::UnterminatedClosingTag { offset: index });
                        },
                        Some(end) => {
                            match stack.pop() {
                                None => {
                                    assert(stack_view(stack@) =~= sv);
                                    return Err(ValidationError::UnexpectedClosingTag {
                                        name: lname,
                                        offset: index,
                                    });
                                },
                                Some((top_name, top_off)) => {
                                    proof {
                                        assert(sv.last() == OpenTag {
                                            name: top_name@,
                                            offset: top_off as int,
                                        });
                                    }
                                    if !crate::scan::bytes_eq(
                                        top_name.as_slice(),
                                        lname.as_slice(),
                                    ) {
                                        return Err(ValidationError::MismatchedClosingTag {
                                            found: lname,
                                            offset: index,
                                            expected: top_name,
                                            opened_at: top_off,
                                        });
                                    }
                                    proof {
                                        assert(stack_view(stack@) =~= sv.drop_last());
                                    }
                                    index = end + 1;
                                },
                            }
                        },
                    }
                },
            }
            continue;
        }

        // Opening tag.
        let ghost s = skip_ws_idx(h, index + 1);
        let ghost e = name_end_idx(h, s);
        match parse_tag_name(bytes, index + 1) {
            None => {
                return Err(ValidationError::MissingTagName { offset: index });
            },
            Some((raw_name, after)) => {
                let lname = lowercase_bytes(raw_name.as_slice());
                assert(lname@ =~= to_lower_bytes(h.subrange(s, e)));
                match find_tag_end(bytes, after) {
                    None => {
                        return Err(ValidationError::UnterminatedOpeningTag { offset: index });
                    },
                    Some(end) => {
                        let selfclosing = is_self_closing(bytes, index + 1, end);
                        if is_raw_text_name_exec(lname.as_slice()) {
                            if selfclosing {
                                index = end + 1;
                            } else {
                                let mut closing: Vec<u8> = Vec::new();
                                closing.push(60);
                                closing.push(47);
                                closing.extend_from_slice(lname.as_slice());
                                closing.push(62);
                                assert(closing@ =~= seq![60u8, 47] + lname@ + seq![62u8]);
                                proof {
                                    lemma_find_match_ci_idx_char(h, closing@, end + 1);
                                }
                                match find_bytes_case_insensitive(
                                    bytes,
                                    end + 1,
                                    closing.as_slice(),
                                ) {
                                    Some(cs) => {
                                        proof {
                                            let spec_cs = find_match_ci_idx(h, closing@, end + 1);
                                            assert(spec_cs == Some(cs as int)) by {
                                                assert(match_at_ci(h, closing@, cs as int));
                                                if spec_cs is Some && spec_cs.unwrap() < cs {
                                                    assert(match_at_ci(
                                                        h,
                                                        closing@,
                                                        spec_cs.unwrap(),
                                                    ));
                                                }
                                                if spec_cs is Some && spec_cs.unwrap() > cs {
                                                    assert(!match_at_ci(h, closing@, cs as int));
                                                }
                                            }
                                        }
                                        index = cs + closing.len();
                                    },
                                    None => {
                                        proof {
                                            let spec_cs = find_match_ci_idx(h, closing@, end + 1);
                                            assert(spec_cs is None) by {
                                                if spec_cs is Some {
                                                    assert(match_at_ci(
                                                        h,
                                                        closing@,
                                                        spec_cs.unwrap(),
                                                    ));
                                                }
                                            }
                                        }
                                        return Err(ValidationError::UnterminatedRawText {
                                            name: lname,
                                            offset: index,
                                        });
                                    },
                                }
                            }
                        } else if !selfclosing && !is_void_element(lname.as_slice()) {
                            stack.push((lname, index));
                            proof {
                                assert(stack_view(stack@) =~= sv.push(
                                    OpenTag {
                                        name: stack@.last().0@,
                                        offset: stack@.last().1 as int,
                                    },
                                ));
                            }
                            index = end + 1;
                        } else {
                            index = end + 1;
                        }
                    },
                }
            },
        }
    }

    match stack.pop() {
        Some((nm, off)) => {
            assert(stack_view(stack@.push((nm, off))).last() == OpenTag {
                name: nm@,
                offset: off as int,
            });
            Err(ValidationError::UnclosedTag { name: nm, offset: off })
        },
        None => {
            assert(stack@.len() == 0);
            assert(stack_view(stack@).len() == 0);
            Ok(())
        },
    }
}

} // verus!
