//! Byte-level HTML scanning primitives.
//!
//! These are the shared tokenizer helpers: quote-aware search for the end of a
//! tag, literal and case-insensitive substring search, tag-name parsing, and
//! the classification of void elements.  Both the validator and the SEO
//! injector are built on top of them.

use vstd::prelude::*;

verus! {

/// ASCII whitespace, as `u8::is_ascii_whitespace` counts it.
pub open spec fn is_ascii_ws(b: u8) -> bool {
    b == 32 || b == 9 || b == 10 || b == 12 || b == 13
}

/// A byte that may appear in a tag name: ASCII alphanumerics, `-` and `:`.
pub open spec fn is_name_byte(b: u8) -> bool {
    (97 <= b && b <= 122) || (65 <= b && b <= 90) || (48 <= b && b <= 57) || b == 45 || b == 58
}

/// ASCII lowercasing of a single byte.
pub open spec fn to_lower_byte(b: u8) -> u8 {
    if 65 <= b && b <= 90 {
        (b + 32) as u8
    } else {
        b
    }
}

/// ASCII lowercasing of a byte sequence.
pub open spec fn to_lower_bytes(s: Seq<u8>) -> Seq<u8> {
    s.map_values(|b: u8| to_lower_byte(b))
}

/// The needle matches the haystack literally at position `i`.
pub open spec fn match_at(h: Seq<u8>, n: Seq<u8>, i: int) -> bool {
    0 <= i && i + n.len() <= h.len() && h.subrange(i, i + n.len() as int) =~= n
}

/// The needle matches the haystack at position `i` up to ASCII case.
pub open spec fn match_at_ci(h: Seq<u8>, n: Seq<u8>, i: int) -> bool {
    0 <= i && i + n.len() <= h.len() && to_lower_bytes(h.subrange(i, i + n.len() as int)) =~= to_lower_bytes(n)
}

/// First index at or after `i` holding a byte that is not ASCII whitespace
/// (or the end of the sequence).
pub open spec fn skip_ws_idx(h: Seq<u8>, i: int) -> int
    decreases h.len() - i,
{
    if i < 0 || i >= h.len() {
        i
    } else if is_ascii_ws(h[i]) {
        skip_ws_idx(h, i + 1)
    } else {
        i
    }
}

/// First index at or after `i` holding a byte that cannot belong to a tag
/// name (or the end of the sequence).
pub open spec fn name_end_idx(h: Seq<u8>, i: int) -> int
    decreases h.len() - i,
{
    if i < 0 || i >= h.len() {
        i
    } else if is_name_byte(h[i]) {
        name_end_idx(h, i + 1)
    } else {
        i
    }
}

/// Quote-aware scan for the `>` that ends a tag: a `>` inside a single- or
/// double-quoted attribute value does not count.
pub open spec fn find_tag_end_spec(h: Seq<u8>, i: int, quote: Option<u8>) -> Option<int>
    decreases h.len() - i,
{
    if i < 0 || i >= h.len() {
        None
    } else {
        match quote {
            None => {
                if h[i] == 39 || h[i] == 34 {
                    find_tag_end_spec(h, i + 1, Some(h[i]))
                } else if h[i] == 62 {
                    Some(i)
                } else {
                    find_tag_end_spec(h, i + 1, None)
                }
            },
            Some(q) => {
                if h[i] == q {
                    find_tag_end_spec(h, i + 1, None)
                } else {
                    find_tag_end_spec(h, i + 1, Some(q))
                }
            },
        }
    }
}

/// A found tag end lies between the start of the scan and the end of the
/// input.
pub proof fn lemma_find_tag_end_spec_bounds(h: Seq<u8>, i: int, quote: Option<u8>)
    requires
        find_tag_end_spec(h, i, quote) is Some,
    ensures
        i <= find_tag_end_spec(h, i, quote).unwrap() < h.len(),
    decreases h.len() - i,
{
    if 0 <= i && i < h.len() {
        match quote {
            None => {
                if h[i] == 39 || h[i] == 34 {
                    lemma_find_tag_end_spec_bounds(h, i + 1, Some(h[i]));
                } else if h[i] == 62 {
                } else {
                    lemma_find_tag_end_spec_bounds(h, i + 1, None);
                }
            },
            Some(q) => {
                if h[i] == q {
                    lemma_find_tag_end_spec_bounds(h, i + 1, None);
                } else {
                    lemma_find_tag_end_spec_bounds(h, i + 1, Some(q));
                }
            },
        }
    }
}

/// Whether the tag whose bytes run over `[start, end)` ends in `/` once
/// trailing whitespace is ignored, i.e. whether it is written self-closing.
pub open spec fn self_closing_spec(h: Seq<u8>, start: int, i: int) -> bool
    decreases i,
{
    if i <= start || i > h.len() || i <= 0 {
        false
    } else if is_ascii_ws(h[i - 1]) {
        self_closing_spec(h, start, i - 1)
    } else {
        h[i - 1] == 47
    }
}

/// The 14 HTML void elements, by lowercase name.
pub open spec fn is_void_name(n: Seq<u8>) -> bool {
    ||| n =~= seq![97u8, 114, 101, 97]  // area
    ||| n =~= seq![98u8, 97, 115, 101]  // base
    ||| n =~= seq![98u8, 114]  // br
    ||| n =~= seq![99u8, 111, 108]  // col
    ||| n =~= seq![101u8, 109, 98, 101, 100]  // embed
    ||| n =~= seq![104u8, 114]  // hr
    ||| n =~= seq![105u8, 109, 103]  // img
    ||| n =~= seq![105u8, 110, 112, 117, 116]  // input
    ||| n =~= seq![108u8, 105, 110, 107]  // link
    ||| n =~= seq![109u8, 101, 116, 97]  // meta
    ||| n =~= seq![112u8, 97, 114, 97, 109]  // param
    ||| n =~= seq![115u8, 111, 117, 114, 99, 101]  // source
    ||| n =~= seq![116u8, 114, 97, 99, 107]  // track
    ||| n =~= seq![119u8, 98, 114]  // wbr
}

/// Compares two byte slices for equality.
pub fn bytes_eq(a: &[u8], b: &[u8]) -> (r: bool)
    ensures
        r == (a@ =~= b@),
{
    if a.len() != b.len() {
        return false;
    }
    let mut i: usize = 0;
    while i < a.len()
        invariant
            0 <= i <= a@.len(),
            a@.len() == b@.len(),
            forall|j: int| 0 <= j < i ==> a@[j] == b@[j],
        decreases a@.len() - i,
    {
        if a[i] != b[i] {
            return false;
        }
        i = i + 1;
    }
    true
}

/// ASCII-lowercases a byte sequence.
pub fn lowercase_bytes(s: &[u8]) -> (r: Vec<u8>)
    ensures
        r@ =~= to_lower_bytes(s@),
{
    let mut out: Vec<u8> = Vec::new();
    let mut i: usize = 0;
    while i < s.len()
        invariant
            0 <= i <= s@.len(),
            out@.len() == i,
            forall|j: int| 0 <= j < i ==> out@[j] == to_lower_byte(s@[j]),
        decreases s@.len() - i,
    {
        let b = s[i];
        if 65 <= b && b <= 90 {
            out.push(b + 32);
        } else {
            out.push(b);
        }
        i = i + 1;
    }
    out
}

/// Whether the needle matches the haystack literally at position `i`.
pub fn match_at_exec(haystack: &[u8], needle: &[u8], i: usize) -> (r: bool)
    requires
        i + needle@.len() <= haystack@.len(),
    ensures
        r == match_at(haystack@, needle@, i as int),
{
    let hlen = haystack.len();
    let mut k: usize = 0;
    while k < needle.len()
        invariant
            0 <= k <= needle@.len(),
            i + needle@.len() <= haystack@.len(),
            hlen == haystack@.len(),
            forall|t: int| 0 <= t < k ==> haystack@[i + t] == needle@[t],
        decreases needle@.len() - k,
    {
        if haystack[i + k] != needle[k] {
            assert(match_at(haystack@, needle@, i as int) ==> haystack@.subrange(
                i as int,
                i + needle@.len() as int,
            )[k as int] == needle@[k as int]);
            return false;
        }
        k = k + 1;
    }
    assert(haystack@.subrange(i as int, i + needle@.len() as int) =~= needle@);
    true
}

/// Whether the needle matches the haystack at position `i` up to ASCII case.
pub fn match_at_ci_exec(haystack: &[u8], needle: &[u8], i: usize) -> (r: bool)
    requires
        i + needle@.len() <= haystack@.len(),
    ensures
        r == match_at_ci(haystack@, needle@, i as int),
{
    let hlen = haystack.len();
    let mut k: usize = 0;
    while k < needle.len()
        invariant
            0 <= k <= needle@.len(),
            i + needle@.len() <= haystack@.len(),
            hlen == haystack@.len(),
            forall|t: int| 0 <= t < k ==> to_lower_byte(haystack@[i + t]) == to_lower_byte(
                needle@[t],
            ),
        decreases needle@.len() - k,
    {
        let hb = haystack[i + k];
        let nb = needle[k];
        let hl = if 65 <= hb && hb <= 90 {
            hb + 32
        } else {
            hb
        };
        let nl = if 65 <= nb && nb <= 90 {
            nb + 32
        } else {
            nb
        };
        if hl != nl {
            assert(match_at_ci(haystack@, needle@, i as int) ==> to_lower_bytes(
                haystack@.subrange(i as int, i + needle@.len() as int),
            )[k as int] == to_lower_bytes(needle@)[k as int]);
            return false;
        }
        k = k + 1;
    }
    assert(to_lower_bytes(haystack@.subrange(i as int, i + needle@.len() as int)) =~= to_lower_bytes(
        needle@,
    ));
    true
}

/// Finds the first literal occurrence of `needle` in `haystack` at or after
/// `start`.  An empty needle matches at `start` clamped to the input length.
pub fn find_bytes(haystack: &[u8], start: usize, needle: &[u8]) -> (r: Option<usize>)
    ensures
        match r {
            Some(i) => {
                &&& needle@.len() > 0 ==> start <= i && match_at(haystack@, needle@, i as int)
                    && (forall|j: int| start <= j < i ==> !match_at(haystack@, needle@, j))
                &&& needle@.len() == 0 ==> i == if start <= haystack@.len() {
                    start as int
                } else {
                    haystack@.len() as int
                }
            },
            None => needle@.len() > 0 && forall|j: int|
                j >= start ==> !match_at(haystack@, needle@, j),
        },
{
    if needle.len() == 0 {
        if start < haystack.len() {
            return Some(start);
        } else {
            return Some(haystack.len());
        }
    }
    if start >= haystack.len() || needle.len() > haystack.len() {
        return None;
    }
    let last = haystack.len() - needle.len();
    if start > last {
        return None;
    }
    let mut i: usize = start;
    while i <= last
        invariant
            start <= i <= last + 1,
            needle@.len() > 0,
            last == haystack@.len() - needle@.len(),
            last < usize::MAX,
            forall|j: int| start <= j < i ==> !match_at(haystack@, needle@, j),
        decreases last + 1 - i,
    {
        if match_at_exec(haystack, needle, i) {
            return Some(i);
        }
        i = i + 1;
    }
    assert(forall|j: int| j >= start && match_at(haystack@, needle@, j) ==> j <= last);
    None
}

/// Finds the first occurrence of `needle` in `haystack` at or after `start`,
/// comparing bytes up to ASCII case.  An empty needle matches at `start`
/// clamped to the input length.
pub fn find_bytes_case_insensitive(haystack: &[u8], start: usize, needle: &[u8]) -> (r: Option<
    usize,
>)
    ensures
        match r {
            Some(i) => {
                &&& needle@.len() > 0 ==> start <= i && match_at_ci(haystack@, needle@, i as int)
                    && (forall|j: int| start <= j < i ==> !match_at_ci(haystack@, needle@, j))
                &&& needle@.len() == 0 ==> i == if start <= haystack@.len() {
                    start as int
                } else {
                    haystack@.len() as int
                }
            },
            None => needle@.len() > 0 && forall|j: int|
                j >= start ==> !match_at_ci(haystack@, needle@, j),
        },
{
    if needle.len() == 0 {
        if start < haystack.len() {
            return Some(start);
        } else {
            return Some(haystack.len());
        }
    }
    if start >= haystack.len() || needle.len() > haystack.len() {
        return None;
    }
    let last = haystack.len() - needle.len();
    if start > last {
        return None;
    }
    let mut i: usize = start;
    while i <= last
        invariant
            start <= i <= last + 1,
            needle@.len() > 0,
            last == haystack@.len() - needle@.len(),
            last < usize::MAX,
            forall|j: int| start <= j < i ==> !match_at_ci(haystack@, needle@, j),
        decreases last + 1 - i,
    {
        if match_at_ci_exec(haystack, needle, i) {
            return Some(i);
        }
        i = i + 1;
    }
    assert(forall|j: int| j >= start && match_at_ci(haystack@, needle@, j) ==> j <= last);
    None
}

/// Scans for the unquoted `>` that closes a tag, starting at `start`.
pub fn find_tag_end(bytes: &[u8], start: usize) -> (r: Option<usize>)
    ensures
        r is Some <==> find_tag_end_spec(bytes@, start as int, None::<u8>) is Some,
        r is Some ==> r.unwrap() as int == find_tag_end_spec(bytes@, start as int, None::<u8>).unwrap()
            && start <= r.unwrap() < bytes@.len(),
{
    let mut i: usize = start;
    let mut quote: Option<u8> = None;
    while i < bytes.len()
        invariant
            start <= i,
            find_tag_end_spec(bytes@, start as int, None::<u8>) == find_tag_end_spec(
                bytes@,
                i as int,
                quote,
            ),
        decreases bytes@.len() - i,
    {
        let b = bytes[i];
        match quote {
            None => {
                if b == 39 || b == 34 {
                    quote = Some(b);
                } else if b == 62 {
                    return Some(i);
                }
            },
            Some(q) => {
                if b == q {
                    quote = None;
                }
            },
        }
        i = i + 1;
    }
    None
}

/// Parses a tag name after skipping ASCII whitespace: returns the raw name
/// bytes and the index just past them, or `None` when no name byte follows.
pub fn parse_tag_name(bytes: &[u8], index: usize) -> (r: Option<(Vec<u8>, usize)>)
    requires
        index <= bytes@.len(),
    ensures
        ({
            let s = skip_ws_idx(bytes@, index as int);
            let e = name_end_idx(bytes@, s);
            match r {
                Some(p) => s < e && p.0@ =~= bytes@.subrange(s, e) && p.1 == e && index <= s
                    && e <= bytes@.len(),
                None => s == e,
            }
        }),
{
    let mut i: usize = index;
    while i < bytes.len() && is_ws_byte(bytes[i])
        invariant
            index <= i <= bytes@.len(),
            skip_ws_idx(bytes@, index as int) == skip_ws_idx(bytes@, i as int),
        decreases bytes@.len() - i,
    {
        i = i + 1;
    }
    if i >= bytes.len() {
        return None;
    }
    let s = i;
    let mut name: Vec<u8> = Vec::new();
    while i < bytes.len() && is_name_byte_exec(bytes[i])
        invariant
            s <= i <= bytes@.len(),
            name_end_idx(bytes@, s as int) == name_end_idx(bytes@, i as int),
            name@ =~= bytes@.subrange(s as int, i as int),
        decreases bytes@.len() - i,
    {
        name.push(bytes[i]);
        i = i + 1;
    }
    if s == i {
        return None;
    }
    Some((name, i))
}

/// Like [`parse_tag_name`], but also skips one `/` between the whitespace and
/// the name, so that closing tags parse to their bare name.
pub fn parse_tag_name_ci(bytes: &[u8], index: usize) -> (r: Option<(Vec<u8>, usize)>)
    requires
        index <= bytes@.len(),
    ensures
        ({
            let s = skip_ws_idx(bytes@, index as int);
            let s2 = if 0 <= s < bytes@.len() && bytes@[s] == 47 {
                s + 1
            } else {
                s
            };
            let e = name_end_idx(bytes@, s2);
            match r {
                Some(p) => s2 < e && p.0@ =~= bytes@.subrange(s2, e) && p.1 == e && index <= s2
                    && e <= bytes@.len(),
                None => s2 == e,
            }
        }),
{
    let mut i: usize = index;
    while i < bytes.len() && is_ws_byte(bytes[i])
        invariant
            index <= i <= bytes@.len(),
            skip_ws_idx(bytes@, index as int) == skip_ws_idx(bytes@, i as int),
        decreases bytes@.len() - i,
    {
        i = i + 1;
    }
    if i < bytes.len() && bytes[i] == 47 {
        i = i + 1;
    }
    let s = i;
    let mut name: Vec<u8> = Vec::new();
    while i < bytes.len() && is_name_byte_exec(bytes[i])
        invariant
            s <= i <= bytes@.len(),
            name_end_idx(bytes@, s as int) == name_end_idx(bytes@, i as int),
            name@ =~= bytes@.subrange(s as int, i as int),
        decreases bytes@.len() - i,
    {
        name.push(bytes[i]);
        i = i + 1;
    }
    if s == i {
        return None;
    }
    Some((name, i))
}

/// Whether the tag written over `[start, end)` is self-closing: its last
/// non-whitespace byte is `/`.
pub fn is_self_closing(bytes: &[u8], start: usize, end: usize) -> (r: bool)
    requires
        end <= bytes@.len(),
    ensures
        r == self_closing_spec(bytes@, start as int, end as int),
{
    let mut i: usize = end;
    while i > start
        invariant
            i <= end <= bytes@.len(),
            self_closing_spec(bytes@, start as int, end as int) == self_closing_spec(
                bytes@,
                start as int,
                i as int,
            ),
        decreases i,
    {
        let b = bytes[i - 1];
        if is_ws_byte(b) {
            i = i - 1;
        } else {
            return b == 47;
        }
    }
    false
}

/// Whether the (lowercase) tag name is one of the HTML void elements.
pub fn is_void_element(name: &[u8]) -> (r: bool)
    ensures
        r == is_void_name(name@),
{
    let mut hit = false;
    if name.len() == 2 {
        hit = (name[0] == 98 && name[1] == 114) || (name[0] == 104 && name[1] == 114);
        if hit {
            assert(name@ =~= seq![name@[0], name@[1]]);
        }
    } else if name.len() == 3 {
        hit = (name[0] == 99 && name[1] == 111 && name[2] == 108) || (name[0] == 105 && name[1]
            == 109 && name[2] == 103) || (name[0] == 119 && name[1] == 98 && name[2] == 114);
        if hit {
            assert(name@ =~= seq![name@[0], name@[1], name@[2]]);
        }
    } else if name.len() == 4 {
        hit = (name[0] == 97 && name[1] == 114 && name[2] == 101 && name[3] == 97) || (name[0]
            == 98 && name[1] == 97 && name[2] == 115 && name[3] == 101) || (name[0] == 108
            && name[1] == 105 && name[2] == 110 && name[3] == 107) || (name[0] == 109 && name[1]
            == 101 && name[2] == 116 && name[3] == 97);
        if hit {
            assert(name@ =~= seq![name@[0], name@[1], name@[2], name@[3]]);
        }
    } else if name.len() == 5 {
        hit = (name[0] == 101 && name[1] == 109 && name[2] == 98 && name[3] == 101 && name[4]
            == 100) || (name[0] == 105 && name[1] == 110 && name[2] == 112 && name[3] == 117
            && name[4] == 116) || (name[0] == 112 && name[1] == 97 && name[2] == 114 && name[3]
            == 97 && name[4] == 109) || (name[0] == 116 && name[1] == 114 && name[2] == 97
            && name[3] == 99 && name[4] == 107);
        if hit {
            assert(name@ =~= seq![name@[0], name@[1], name@[2], name@[3], name@[4]]);
        }
    } else if name.len() == 6 {
        hit = name[0] == 115 && name[1] == 111 && name[2] == 117 && name[3] == 114 && name[4]
            == 99 && name[5] == 101;
        if hit {
            assert(name@ =~= seq![name@[0], name@[1], name@[2], name@[3], name@[4], name@[5]]);
        }
    }
    if !hit {
        assert(!is_void_name(name@)) by {
            if is_void_name(name@) {
                assert(false);
            }
        }
    }
    hit
}

/// Whether a byte is ASCII whitespace.
pub fn is_ws_byte(b: u8) -> (r: bool)
    ensures
        r == is_ascii_ws(b),
{
    b == 32 || b == 9 || b == 10 || b == 12 || b == 13
}

/// Whether a byte may appear in a tag name.
pub fn is_name_byte_exec(b: u8) -> (r: bool)
    ensures
        r == is_name_byte(b),
{
    (97 <= b && b <= 122) || (65 <= b && b <= 90) || (48 <= b && b <= 57) || b == 45 || b == 58
}

} // verus!
