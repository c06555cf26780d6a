//! Sanitization of public asset paths.
//!
//! A requested path is split on `/`; empty segments and `.` are dropped, any
//! `..` rejects the whole path, and a path with nothing left is rejected too.
//! The accepted segments are joined back with `/`, so the result can never
//! escape the asset root.

use vstd::prelude::*;
use vstd::string::StrSliceExecFns;
use vstd::string::StringExecFns;

use crate::strutil::string_push_char;

verus! {

/// Folds one segment into the kept list: empty and `.` are dropped, `..`
/// rejects, anything else is kept.
pub open spec fn fold_segment(kept: Option<Seq<Seq<char>>>, seg: Seq<char>) -> Option<
    Seq<Seq<char>>,
> {
    match kept {
        None => None,
        Some(ks) => {
            if seg.len() == 0 || seg =~= seq!['.'] {
                Some(ks)
            } else if seg =~= seq!['.', '.'] {
                None
            } else {
                Some(ks.push(seg))
            }
        },
    }
}

/// The left-to-right scan over the path: `cur` is the segment being read,
/// `kept` the segments accepted so far.
pub open spec fn clean_path_scan(
    s: Seq<char>,
    i: int,
    cur: Seq<char>,
    kept: Option<Seq<Seq<char>>>,
) -> Option<Seq<Seq<char>>>
    decreases s.len() - i,
{
    if i < 0 || i >= s.len() {
        fold_segment(kept, cur)
    } else if s[i] == '/' {
        clean_path_scan(s, i + 1, Seq::empty(), fold_segment(kept, cur))
    } else {
        clean_path_scan(s, i + 1, cur.push(s[i]), kept)
    }
}

/// Once a `..` has rejected the path, the rest of the scan cannot revive it.
pub proof fn lemma_clean_scan_none(s: Seq<char>, i: int, cur: Seq<char>)
    ensures
        clean_path_scan(s, i, cur, None) is None,
    decreases s.len() - i,
{
    if 0 <= i && i < s.len() {
        if s[i] == '/' {
            lemma_clean_scan_none(s, i + 1, Seq::empty());
        } else {
            lemma_clean_scan_none(s, i + 1, cur.push(s[i]));
        }
    }
}

/// Segments joined with `/`.
pub open spec fn join_segments(items: Seq<Seq<char>>) -> Seq<char>
    decreases items.len(),
{
    if items.len() == 0 {
        Seq::empty()
    } else if items.len() == 1 {
        items[0]
    } else {
        join_segments(items.drop_last()) + seq!['/'] + items.last()
    }
}

/// The sanitized path, when the request is acceptable: its kept segments
/// joined with `/`; `None` when a `..` occurs or nothing is left.
pub open spec fn sanitize_public_path_spec(s: Seq<char>) -> Option<Seq<char>> {
    match clean_path_scan(s, 0, Seq::empty(), Some(Seq::empty())) {
        None => None,
        Some(kept) => {
            if kept.len() == 0 {
                None
            } else {
                Some(join_segments(kept))
            }
        },
    }
}

/// Sanitizes a requested asset path: splits on `/`, drops empty segments and
/// `.`, rejects any `..` and rejects an empty result, then joins the kept
/// segments back with `/`.
pub fn sanitize_public_path(raw: &str) -> (r: Result<String, ()>)
    ensures
        match r {
            Ok(p) => sanitize_public_path_spec(raw@) == Some(p@),
            Err(()) => sanitize_public_path_spec(raw@) is None,
        },
{
    let n = raw.unicode_len();
    let mut kept: Vec<String> = Vec::new();
    let mut cur = String::new();
    let mut i: usize = 0;
    proof {
        assert(kept@.map_values(|s: String| s@) =~= Seq::<Seq<char>>::empty());
    }
    while i < n
        invariant
            0 <= i <= n,
            n == raw@.len(),
            clean_path_scan(raw@, 0, Seq::empty(), Some(Seq::empty())) == clean_path_scan(
                raw@,
                i as int,
                cur@,
                Some(kept@.map_values(|s: String| s@)),
            ),
        decreases n - i,
    {
        let ghost kv = kept@.map_values(|s: String| s@);
        let ghost cv = cur@;
        let c = raw.get_char(i);
        if c == '/' {
            if cur.as_str().unicode_len() == 0 {
                proof {
                    assert(cur@ =~= Seq::<char>::empty());
                    assert(fold_segment(Some(kv), cv) == Some(kv));
                }
            } else if cur.as_str().unicode_len() == 1 && cur.as_str().get_char(0) == '.' {
                proof {
                    assert(cv =~= seq!['.']);
                    assert(fold_segment(Some(kv), cv) == Some(kv));
                }
                cur = String::new();
            } else if cur.as_str().unicode_len() == 2 && cur.as_str().get_char(0) == '.'
                && cur.as_str().get_char(1) == '.' {
                proof {
                    assert(cv =~= seq!['.', '.']);
                    assert(fold_segment(Some(kv), cv) is None);
                    lemma_clean_scan_none(raw@, i + 1, Seq::empty());
                }
                return Err(());
            } else {
                proof {
                    assert(cv.len() > 0 && !(cv =~= seq!['.']) && !(cv =~= seq!['.', '.']));
                }
                kept.push(cur);
                cur = String::new();
                proof {
                    assert(kept@.map_values(|s: String| s@) =~= kv.push(cv));
                    assert(fold_segment(Some(kv), cv) == Some(kv.push(cv)));
                }
            }
        } else {
            string_push_char(&mut cur, c);
        }
        i = i + 1;
    }
    // Fold the final segment.
    let ghost kv = kept@.map_values(|s: String| s@);
    let ghost cv = cur@;
    if cur.as_str().unicode_len() == 0 {
        proof {
            assert(fold_segment(Some(kv), cv) == Some(kv));
        }
    } else if cur.as_str().unicode_len() == 1 && cur.as_str().get_char(0) == '.' {
        proof {
            assert(cv =~= seq!['.']);
            assert(fold_segment(Some(kv), cv) == Some(kv));
        }
    } else if cur.as_str().unicode_len() == 2 && cur.as_str().get_char(0) == '.'
        && cur.as_str().get_char(1) == '.' {
        proof {
            assert(cv =~= seq!['.', '.']);
            assert(fold_segment(Some(kv), cv) is None);
        }
        return Err(());
    } else {
        proof {
            assert(cv.len() > 0 && !(cv =~= seq!['.']) && !(cv =~= seq!['.', '.']));
        }
        kept.push(cur);
        proof {
            assert(kept@.map_values(|s: String| s@) =~= kv.push(cv));
            assert(fold_segment(Some(kv), cv) == Some(kv.push(cv)));
        }
    }
    if kept.len() == 0 {
        return Err(());
    }
    // Join the kept segments with '/'.
    let ghost ks = kept@.map_values(|s: String| s@);
    let mut out = String::new();
    let mut k: usize = 0;
    while k < kept.len()
        invariant
            0 <= k <= kept@.len(),
            ks == kept@.map_values(|s: String| s@),
            out@ == join_segments(ks.take(k as int)),
        decreases kept@.len() - k,
    {
        let ghost before = out@;
        if k > 0 {
            string_push_char(&mut out, '/');
        }
        out.append(kept[k].as_str());
        proof {
            assert(ks.take(k + 1).drop_last() =~= ks.take(k as int));
            assert(ks.take(k + 1).last() == ks[k as int]);
            if k == 0 {
                assert(out@ =~= ks[0]);
            } else {
                assert(out@ =~= before + seq!['/'] + ks[k as int]);
            }
        }
        k = k + 1;
    }
    proof {
        assert(ks.take(ks.len() as int) =~= ks);
    }
    Ok(out)
}

} // verus!
