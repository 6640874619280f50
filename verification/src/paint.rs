//! Link safety for painted hyperlinks, and the link a node belongs to.
#![verifier::loop_isolation(false)]

use vstd::prelude::*;

use crate::dom::{attr_lookup, node_ranges_ok, node_tag, Dom, Node, NodeId};
use crate::text::{
    chars_eq, chars_of, eq_ignore_case, find_char, index_of, lower, lower_chars, slice_chars, str_eq_ignore_case,
    string_from_chars, trim, trim_chars,
};

verus! {

/// `char::is_control`: the Unicode control characters U+0000–U+001F and
/// U+007F–U+009F.
pub open spec fn spec_is_control(c: char) -> bool {
    (c as u32) <= 0x1F || (0x7F <= (c as u32) <= 0x9F)
}

/// A character allowed in a URL scheme: ASCII letter, digit, `+`, `-`, `.`.
pub open spec fn spec_scheme_char(c: char) -> bool {
    ('a' <= c && c <= 'z') || ('A' <= c && c <= 'Z') || ('0' <= c && c <= '9') || c == '+' || c
        == '-' || c == '.'
}

/// A link is safe to follow when, after trimming whitespace, it is
/// non-empty, holds no control character, and either has no scheme (a
/// relative URL, or text before the first `:` that is not a valid scheme)
/// or has the scheme `http`, `https` or `file`, compared case-insensitively.
pub open spec fn spec_is_safe_link_url(raw: Seq<char>) -> bool {
    let t = trim(raw);
    if t.len() == 0 {
        false
    } else if exists|i: int| 0 <= i < t.len() && spec_is_control(#[trigger] t[i]) {
        false
    } else {
        match index_of(t, ':') {
            Some(p) => {
                let scheme = lower(t.take(p));
                if forall|i: int| 0 <= i < scheme.len() ==> spec_scheme_char(#[trigger] scheme[i]) {
                    scheme == "http"@ || scheme == "https"@ || scheme == "file"@
                } else {
                    true
                }
            },
            None => true,
        }
    }
}

fn is_control(c: char) -> (res: bool)
    ensures
        res == spec_is_control(c),
{
    let u = c as u32;
    u <= 0x1F || (0x7F <= u && u <= 0x9F)
}

fn is_scheme_char(c: char) -> (res: bool)
    ensures
        res == spec_scheme_char(c),
{
    ('a' <= c && c <= 'z') || ('A' <= c && c <= 'Z') || ('0' <= c && c <= '9') || c == '+' || c
        == '-' || c == '.'
}

/// Is the URL safe to follow as a link? Rejects empty and control-character
/// URLs and every scheme other than `http`, `https` and `file`.
pub fn is_safe_link_url(raw_url: &str) -> (res: bool)
    ensures
        res == spec_is_safe_link_url(raw_url@),
{
    let raw = chars_of(raw_url);
    let t = trim_chars(raw.as_slice());
    if t.len() == 0 {
        return false;
    }
    let mut i: usize = 0;
    while i < t.len()
        invariant
            i <= t@.len(),
            forall|j: int| 0 <= j < i ==> !spec_is_control(#[trigger] t@[j]),
        decreases t@.len() - i,
    {
        if is_control(t[i]) {
            return false;
        }
        i += 1;
    }
    match find_char(t.as_slice(), ':') {
        Some(p) => {
            let head = slice_chars(t.as_slice(), 0, p);
            let scheme = lower_chars(head.as_slice());
            assert(head@ =~= t@.take(p as int));
            let mut k: usize = 0;
            while k < scheme.len()
                invariant
                    k <= scheme@.len(),
                    forall|j: int| 0 <= j < k ==> spec_scheme_char(#[trigger] scheme@[j]),
                decreases scheme@.len() - k,
            {
                if !is_scheme_char(scheme[k]) {
                    return true;
                }
                k += 1;
            }
            let http = chars_of("http");
            let https = chars_of("https");
            let file = chars_of("file");
            chars_eq(scheme.as_slice(), http.as_slice()) || chars_eq(scheme.as_slice(), https.as_slice())
                || chars_eq(scheme.as_slice(), file.as_slice())
        },
        None => true,
    }
}

/// The link that node `x` belongs to: the nearest `<a>` with an `href`
/// among `x` and its ancestors decides; its trimmed `href` when that is
/// safe to follow, else none. No such `<a>`: none.
pub open spec fn link_target(n: Seq<Node>, x: int, src: Seq<u8>) -> Option<Seq<char>>
    decreases x,
{
    if 0 <= x < n.len() {
        if eq_ignore_case(node_tag(n[x], src), "a"@) && attr_lookup(src, n[x].attributes@, "href"@) is Some {
            let t = trim(attr_lookup(src, n[x].attributes@, "href"@).unwrap());
            if spec_is_safe_link_url(t) {
                Some(t)
            } else {
                None
            }
        } else {
            match n[x].parent {
                Some(p) => if p.0 < x {
                    link_target(n, p.0 as int, src)
                } else {
                    None
                },
                None => None,
            }
        }
    } else {
        None
    }
}

/// The link a node belongs to (see `link_target`); no node, no link.
pub fn find_link_url(dom: &Dom, source: &[u8], node_id: Option<NodeId>) -> (res: Option<String>)
    requires
        dom.wf(),
        dom.ranges_within(source@.len()),
        node_id matches Some(id) ==> (id.0 as int) < dom.nodes@.len(),
    ensures
        match node_id {
            Some(id) => match res {
                Some(s) => link_target(dom.nodes@, id.0 as int, source@) == Some(s@),
                None => link_target(dom.nodes@, id.0 as int, source@) is None,
            },
            None => res is None,
        },
{
    let ghost n = dom.nodes@;
    let start = match node_id {
        Some(id) => id,
        None => return None,
    };
    let ghost x0 = start.0 as int;
    let mut curr = start;
    loop
        invariant
            dom.wf(),
            dom.ranges_within(source@.len()),
            n == dom.nodes@,
            (curr.0 as int) < n.len(),
            link_target(n, x0, source@) == link_target(n, curr.0 as int, source@),
        decreases curr.0,
    {
        let node = dom.get(curr);
        assert(node_ranges_ok(n[curr.0 as int], source@.len()));
        if str_eq_ignore_case(node.tag_name(source), "a") {
            proof {
                reveal_strlit("a");
                let tag = node_tag(n[curr.0 as int], source@);
                assert(lower(tag).len() == tag.len());
                assert(node.kind is Element);
            }
            if let Some(href) = node.get_attribute("href", source) {
                let t = trim_chars(chars_of(href).as_slice());
                let trimmed = string_from_chars(t.as_slice());
                if is_safe_link_url(trimmed.as_str()) {
                    return Some(trimmed);
                } else {
                    return None;
                }
            }
        }
        match node.parent {
            Some(p) => {
                curr = p;
            },
            None => {
                return None;
            },
        }
    }
}

} // verus!
