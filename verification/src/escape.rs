//! Escaping of text for HTML bodies, HTML attribute values and XML.
//!
//! The escapes work byte by byte: only ASCII bytes are ever replaced, so
//! multi-byte characters pass through untouched and the result of escaping
//! valid UTF-8 text is again valid UTF-8.

use vstd::prelude::*;
use vstd::string::StringSliceAdditionalSpecFns;

verus! {

/// Expands every byte of `s` through `f`, in order.
pub open spec fn expand_bytes(s: Seq<u8>, f: spec_fn(u8) -> Seq<u8>) -> Seq<u8>
    decreases s.len(),
{
    if s.len() == 0 {
        Seq::empty()
    } else {
        expand_bytes(s.drop_last(), f) + f(s.last())
    }
}

/// `&` `<` `>` escaped; everything else kept.
pub open spec fn html_escape_byte(b: u8) -> Seq<u8> {
    if b == 38 {
        seq![38u8, 97, 109, 112, 59]  // &amp;
    } else if b == 60 {
        seq![38u8, 108, 116, 59]  // &lt;
    } else if b == 62 {
        seq![38u8, 103, 116, 59]  // &gt;
    } else {
        seq![b]
    }
}

/// `&` `<` `>` `"` `'` escaped for attribute values (`'` as a numeric
/// reference); everything else kept.
pub open spec fn attr_escape_byte(b: u8) -> Seq<u8> {
    if b == 38 {
        seq![38u8, 97, 109, 112, 59]  // &amp;
    } else if b == 60 {
        seq![38u8, 108, 116, 59]  // &lt;
    } else if b == 62 {
        seq![38u8, 103, 116, 59]  // &gt;
    } else if b == 34 {
        seq![38u8, 113, 117, 111, 116, 59]  // &quot;
    } else if b == 39 {
        seq![38u8, 35, 51, 57, 59]  // &#39;
    } else {
        seq![b]
    }
}

/// `&` `<` `>` `"` `'` escaped for XML text (`'` as `&apos;`); everything
/// else kept.
pub open spec fn xml_escape_byte(b: u8) -> Seq<u8> {
    if b == 38 {
        seq![38u8, 97, 109, 112, 59]  // &amp;
    } else if b == 60 {
        seq![38u8, 108, 116, 59]  // &lt;
    } else if b == 62 {
        seq![38u8, 103, 116, 59]  // &gt;
    } else if b == 34 {
        seq![38u8, 113, 117, 111, 116, 59]  // &quot;
    } else if b == 39 {
        seq![38u8, 97, 112, 111, 115, 59]  // &apos;
    } else {
        seq![b]
    }
}

/// The HTML-escaped bytes of a text.
pub open spec fn escape_html_spec(s: Seq<u8>) -> Seq<u8> {
    expand_bytes(s, |b: u8| html_escape_byte(b))
}

/// The attribute-escaped bytes of a text.
pub open spec fn escape_attr_spec(s: Seq<u8>) -> Seq<u8> {
    expand_bytes(s, |b: u8| attr_escape_byte(b))
}

/// The XML-escaped bytes of a text.
pub open spec fn escape_xml_spec(s: Seq<u8>) -> Seq<u8> {
    expand_bytes(s, |b: u8| xml_escape_byte(b))
}

/// Escapes text for an HTML body: `&`, `<` and `>` become entities.
pub fn escape_html(input: &str) -> (r: Vec<u8>)
    ensures
        r@ == escape_html_spec(input.spec_bytes()),
{
    let bytes = input.as_bytes();
    let ghost f = |b: u8| html_escape_byte(b);
    let mut out: Vec<u8> = Vec::new();
    let mut i: usize = 0;
    while i < bytes.len()
        invariant
            0 <= i <= bytes@.len(),
            f == (|b: u8| html_escape_byte(b)),
            out@ == expand_bytes(bytes@.take(i as int), f),
        decreases bytes@.len() - i,
    {
        let ghost before = out@;
        let b = bytes[i];
        if b == 38 {
            out.push(38);
            out.push(97);
            out.push(109);
            out.push(112);
            out.push(59);
        } else if b == 60 {
            out.push(38);
            out.push(108);
            out.push(116);
            out.push(59);
        } else if b == 62 {
            out.push(38);
            out.push(103);
            out.push(116);
            out.push(59);
        } else {
            out.push(b);
        }
        proof {
            assert(bytes@.take(i + 1).drop_last() =~= bytes@.take(i as int));
            assert(bytes@.take(i + 1).last() == bytes@[i as int]);
            assert(out@ =~= before + f(bytes@[i as int]));
        }
        i = i + 1;
    }
    proof {
        assert(bytes@.take(bytes@.len() as int) =~= bytes@);
    }
    out
}

/// Escapes text for an HTML attribute value: `&`, `<`, `>`, `"` and `'`
/// become entities.
pub fn escape_html_attr(input: &str) -> (r: Vec<u8>)
    ensures
        r@ == escape_attr_spec(input.spec_bytes()),
{
    escape_html_attr_bytes(input.as_bytes())
}

/// Escapes bytes of text for an HTML attribute value: `&`, `<`, `>`, `"` and
/// `'` become entities.
pub fn escape_html_attr_bytes(bytes: &[u8]) -> (r: Vec<u8>)
    ensures
        r@ == escape_attr_spec(bytes@),
{
    let ghost f = |b: u8| attr_escape_byte(b);
    let mut out: Vec<u8> = Vec::new();
    let mut i: usize = 0;
    while i < bytes.len()
        invariant
            0 <= i <= bytes@.len(),
            f == (|b: u8| attr_escape_byte(b)),
            out@ == expand_bytes(bytes@.take(i as int), f),
        decreases bytes@.len() - i,
    {
        let ghost before = out@;
        let b = bytes[i];
        if b == 38 {
            out.push(38);
            out.push(97);
            out.push(109);
            out.push(112);
            out.push(59);
        } else if b == 60 {
            out.push(38);
            out.push(108);
            out.push(116);
            out.push(59);
        } else if b == 62 {
            out.push(38);
            out.push(103);
            out.push(116);
            out.push(59);
        } else if b == 34 {
            out.push(38);
            out.push(113);
            out.push(117);
            out.push(111);
            out.push(116);
            out.push(59);
        } else if b == 39 {
            out.push(38);
            out.push(35);
            out.push(51);
            out.push(57);
            out.push(59);
        } else {
            out.push(b);
        }
        proof {
            assert(bytes@.take(i + 1).drop_last() =~= bytes@.take(i as int));
            assert(bytes@.take(i + 1).last() == bytes@[i as int]);
            assert(out@ =~= before + f(bytes@[i as int]));
        }
        i = i + 1;
    }
    proof {
        assert(bytes@.take(bytes@.len() as int) =~= bytes@);
    }
    out
}

/// Escapes text for XML: `&`, `<`, `>`, `"` and `'` become entities.
pub fn escape_xml(input: &str) -> (r: Vec<u8>)
    ensures
        r@ == escape_xml_spec(input.spec_bytes()),
{
    let bytes = input.as_bytes();
    let ghost f = |b: u8| xml_escape_byte(b);
    let mut out: Vec<u8> = Vec::new();
    let mut i: usize = 0;
    while i < bytes.len()
        invariant
            0 <= i <= bytes@.len(),
            f == (|b: u8| xml_escape_byte(b)),
            out@ == expand_bytes(bytes@.take(i as int), f),
        decreases bytes@.len() - i,
    {
        let ghost before = out@;
        let b = bytes[i];
        if b == 38 {
            out.push(38);
            out.push(97);
            out.push(109);
            out.push(112);
            out.push(59);
        } else if b == 60 {
            out.push(38);
            out.push(108);
            out.push(116);
            out.push(59);
        } else if b == 62 {
            out.push(38);
            out.push(103);
            out.push(116);
            out.push(59);
        } else if b == 34 {
            out.push(38);
            out.push(113);
            out.push(117);
            out.push(111);
            out.push(116);
            out.push(59);
        } else if b == 39 {
            out.push(38);
            out.push(97);
            out.push(112);
            out.push(111);
            out.push(115);
            out.push(59);
        } else {
            out.push(b);
        }
        proof {
            assert(bytes@.take(i + 1).drop_last() =~= bytes@.take(i as int));
            assert(bytes@.take(i + 1).last() == bytes@[i as int]);
            assert(out@ =~= before + f(bytes@[i as int]));
        }
        i = i + 1;
    }
    proof {
        assert(bytes@.take(bytes@.len() as int) =~= bytes@);
    }
    out
}

} // verus!
