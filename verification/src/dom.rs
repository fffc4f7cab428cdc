//! A plain model of the already-parsed, already-selected document elements.
//!
//! The page is fetched and parsed by the caller with whatever selector
//! engine it prefers; the extractors here only need the tag name, the CSS
//! classes, the `href` attribute and the child nodes of each selected
//! element, so that is all this model holds.

use vstd::prelude::*;
use vstd::string::StrSliceExecFns;

verus! {

/// A node of the document tree: an element or a text node.
#[derive(Debug)]
pub enum Node {
    Element(Elem),
    Text(String),
}

/// An element node, reduced to the parts the extractors inspect.
#[derive(Debug)]
pub struct Elem {
    /// The tag name, e.g. `"a"` or `"div"`.
    pub tag: String,
    /// The CSS classes carried by the element, in any order.
    pub classes: Vec<String>,
    /// The `href` attribute, if present.
    pub href: Option<String>,
    /// The child nodes, in document order.
    pub children: Vec<Node>,
}

/// Character-for-character string equality.
pub fn str_eq(a: &str, b: &str) -> (r: bool)
    ensures
        r == (a@ == b@),
{
    let la = a.unicode_len();
    let lb = b.unicode_len();
    if la != lb {
        return false;
    }
    let mut i: usize = 0;
    while i < la
        invariant
            la == a@.len(),
            la == b@.len(),
            i <= la,
            forall|k: int| 0 <= k < i ==> a@[k] == b@[k],
        decreases la - i,
    {
        if a.get_char(i) != b.get_char(i) {
            return false;
        }
        i = i + 1;
    }
    proof {
        assert(a@ =~= b@);
    }
    true
}

} // verus!
