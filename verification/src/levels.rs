//! The level list extractor: turns a document-ordered sequence of anchor
//! elements (one per achievement level) into an ordered `Levels`
//! collection, validating each anchor against the expected page shape.

use vstd::prelude::*;

use crate::dom::{str_eq, Elem, Node};
use crate::error::{errors_alike, ExtractError};
use crate::link::{
    digits_val, index_part, parse_from_relative_link, splits_in_two, valid_index, LinkError,
};

verus! {

/// One achievement level: a description and a completion flag.
#[derive(Debug)]
pub struct Level {
    pub description: String,
    pub completed: bool,
}

/// The ordered level collection; position `i` holds level number `i + 1`.
#[derive(Debug)]
pub struct Levels(pub Vec<Level>);

/// The anchor's first child is a recognized completion marker: an element
/// tagged `div` (incomplete) or `img` (complete), with exactly two
/// children under the anchor.
pub open spec fn marker_ok(e: Elem) -> bool {
    &&& e.children@.len() == 2
    &&& e.children@[0] matches Node::Element(m) && (m.tag@ == "div"@ || m.tag@ == "img"@)
}

/// The completion flag the marker denotes (meaningful when `marker_ok(e)`).
pub open spec fn marker_completed(e: Elem) -> bool {
    e.children@[0] matches Node::Element(m) && m.tag@ == "img"@
}

/// The anchor's second child has the expected description shape: an
/// element whose two children are an element tagged `div` followed by a
/// text node.
pub open spec fn description_ok(e: Elem) -> bool {
    e.children@[1] matches Node::Element(d) && {
        &&& d.children@.len() == 2
        &&& d.children@[0] matches Node::Element(t) && t.tag@ == "div"@
        &&& d.children@[1] is Text
    }
}

/// The description text (meaningful when `description_ok(e)`).
pub open spec fn description_text(e: Elem) -> Seq<char> {
    match e.children@[1] {
        Node::Element(d) => match d.children@[1] {
            Node::Text(t) => t@,
            Node::Element(_) => Seq::<char>::empty(),
        },
        Node::Text(_) => Seq::<char>::empty(),
    }
}

/// The anchor at 0-based position `pos` is a valid level element: its
/// `href` carries index `pos + 1` and both children have the expected
/// shape.
pub open spec fn level_elem_ok(e: Elem, pos: int) -> bool {
    &&& e.href is Some
    &&& splits_in_two(e.href.unwrap()@)
    &&& valid_index(index_part(e.href.unwrap()@))
    &&& digits_val(index_part(e.href.unwrap()@)) == pos + 1
    &&& marker_ok(e)
    &&& description_ok(e)
}

/// `err` is the error the anchor at 0-based position `pos` yields, under
/// the documented order of checks: missing `href`, then link format, then
/// numeric index, then sequence gap, then completion marker, then
/// description shape.
pub open spec fn level_elem_error(e: Elem, pos: int, err: ExtractError) -> bool {
    if e.href is None {
        err matches ExtractError::MissingAttribute { position } && position == pos
    } else {
        let h = e.href.unwrap()@;
        if !splits_in_two(h) {
            err matches ExtractError::Format { position, href } && position == pos && href@ == h
        } else if !valid_index(index_part(h)) {
            err matches ExtractError::Numeric { position, href } && position == pos && href@ == h
        } else if digits_val(index_part(h)) != pos + 1 {
            err matches ExtractError::SequenceGap { position, expected, found }
                && position == pos
                && expected == pos + 1
                && found == digits_val(index_part(h))
        } else if !marker_ok(e) {
            err matches ExtractError::UnrecognizedCompletionMarker { position } && position == pos
        } else {
            &&& !description_ok(e)
            &&& err matches ExtractError::UnrecognizedDescriptionFormat { position }
                && position == pos
        }
    }
}

/// `levels` is exactly what extraction yields from `elements`: one level
/// per element, in document order, each element valid for its position.
pub open spec fn levels_match(elements: Seq<Elem>, levels: Seq<Level>) -> bool {
    &&& levels.len() == elements.len()
    &&& forall|i: int| 0 <= i < elements.len() ==> level_elem_ok(#[trigger] elements[i], i)
    &&& forall|i: int|
        0 <= i < elements.len() ==> (#[trigger] levels[i]).description@ == description_text(
            elements[i],
        ) && levels[i].completed == marker_completed(elements[i])
}

/// `i` is the position of the first invalid element, and `err` the error
/// it yields.
pub open spec fn levels_abort_at(elements: Seq<Elem>, err: ExtractError, i: int) -> bool {
    &&& 0 <= i < elements.len()
    &&& forall|j: int| 0 <= j < i ==> level_elem_ok(#[trigger] elements[j], j)
    &&& level_elem_error(elements[i], i, err)
}

/// Extraction from `elements` aborts with `err`.
pub open spec fn levels_abort(elements: Seq<Elem>, err: ExtractError) -> bool {
    exists|i: int| #[trigger] levels_abort_at(elements, err, i)
}

/// The full meaning of level extraction: either every element validates
/// and the collection lists them all in order, or the first invalid
/// element aborts the whole extraction with its error.
pub open spec fn levels_extraction(elements: Seq<Elem>, r: Result<Levels, ExtractError>) -> bool {
    match r {
        Ok(levels) => levels_match(elements, levels.0@),
        Err(err) => levels_abort(elements, err),
    }
}

impl Levels {
    /// Transforms a document-ordered sequence of anchor elements into the
    /// ordered level collection, failing fast on the first anchor that
    /// deviates from the expected shape.
    pub fn from_elements(elements: &Vec<Elem>) -> (r: Result<Levels, ExtractError>)
        ensures
            levels_extraction(elements@, r),
    {
        let mut levels: Vec<Level> = Vec::new();
        let mut i: usize = 0;
        while i < elements.len()
            invariant
                i <= elements@.len(),
                levels@.len() == i,
                forall|k: int| 0 <= k < i ==> level_elem_ok(#[trigger] elements@[k], k),
                forall|k: int|
                    0 <= k < i ==> (#[trigger] levels@[k]).description@ == description_text(
                        elements@[k],
                    ) && levels@[k].completed == marker_completed(elements@[k]),
            decreases elements@.len() - i,
        {
            let e = &elements[i];
            let href = match &e.href {
                Some(h) => h,
                None => {
                    let err = ExtractError::MissingAttribute { position: i };
                    proof {
                        assert(levels_abort_at(elements@, err, i as int));
                    }
                    return Err(err);
                },
            };
            let found = match parse_from_relative_link("level", href.as_str()) {
                Ok(n) => n,
                Err(LinkError::Format) => {
                    let err = ExtractError::Format { position: i, href: href.clone() };
                    proof {
                        assert(levels_abort_at(elements@, err, i as int));
                    }
                    return Err(err);
                },
                Err(LinkError::Numeric) => {
                    let err = ExtractError::Numeric { position: i, href: href.clone() };
                    proof {
                        assert(levels_abort_at(elements@, err, i as int));
                    }
                    return Err(err);
                },
            };
            let expected = i + 1;
            if found != expected {
                let err = ExtractError::SequenceGap { position: i, expected, found };
                proof {
                    assert(levels_abort_at(elements@, err, i as int));
                }
                return Err(err);
            }
            if e.children.len() != 2 {
                let err = ExtractError::UnrecognizedCompletionMarker { position: i };
                proof {
                    assert(levels_abort_at(elements@, err, i as int));
                }
                return Err(err);
            }
            proof {
                reveal_strlit("div");
                reveal_strlit("img");
            }
            let completed = match &e.children[0] {
                Node::Element(m) => {
                    if str_eq(m.tag.as_str(), "div") {
                        proof {
                            assert(m.tag@ != "img"@) by {
                                if "div"@ == "img"@ {
                                    assert("div"@[0] == "img"@[0]);
                                }
                            }
                        }
                        false
                    } else if str_eq(m.tag.as_str(), "img") {
                        true
                    } else {
                        let err = ExtractError::UnrecognizedCompletionMarker { position: i };
                        proof {
                            assert(levels_abort_at(elements@, err, i as int));
                        }
                        return Err(err);
                    }
                },
                Node::Text(_) => {
                    let err = ExtractError::UnrecognizedCompletionMarker { position: i };
                    proof {
                        assert(levels_abort_at(elements@, err, i as int));
                    }
                    return Err(err);
                },
            };
            let description = match &e.children[1] {
                Node::Element(d) => {
                    if d.children.len() != 2 {
                        let err = ExtractError::UnrecognizedDescriptionFormat { position: i };
                        proof {
                            assert(levels_abort_at(elements@, err, i as int));
                        }
                        return Err(err);
                    }
                    let title_ok = match &d.children[0] {
                        Node::Element(t) => str_eq(t.tag.as_str(), "div"),
                        Node::Text(_) => false,
                    };
                    match &d.children[1] {
                        Node::Text(text) if title_ok => text.clone(),
                        _ => {
                            let err = ExtractError::UnrecognizedDescriptionFormat { position: i };
                            proof {
                                assert(levels_abort_at(elements@, err, i as int));
                            }
                            return Err(err);
                        },
                    }
                },
                Node::Text(_) => {
                    let err = ExtractError::UnrecognizedDescriptionFormat { position: i };
                    proof {
                        assert(levels_abort_at(elements@, err, i as int));
                    }
                    return Err(err);
                },
            };
            levels.push(Level { description, completed });
            i = i + 1;
        }
        Ok(Levels(levels))
    }
}

/// An element that yields an error is not a valid element for that
/// position.
proof fn lemma_level_error_excludes_ok(e: Elem, pos: int, err: ExtractError)
    requires
        level_elem_error(e, pos, err),
    ensures
        !level_elem_ok(e, pos),
{
}

/// Validity is decisive: if every anchor is valid for its position, the
/// extractor cannot abort — it returns all the levels, in order.
pub proof fn lemma_levels_complete(elements: Seq<Elem>, r: Result<Levels, ExtractError>)
    requires
        levels_extraction(elements, r),
        forall|i: int| 0 <= i < elements.len() ==> level_elem_ok(#[trigger] elements[i], i),
    ensures
        match r {
            Ok(levels) => levels_match(elements, levels.0@),
            Err(_) => false,
        },
{
    match r {
        Ok(_) => {},
        Err(err) => {
            let i = choose|i: int| levels_abort_at(elements, err, i);
            assert(levels_abort_at(elements, err, i));
            lemma_level_error_excludes_ok(elements[i], i, err);
        },
    }
}

/// Extraction is a function of the input alone: two results that both
/// satisfy the extraction relation for the same elements agree, level for
/// level or error for error.
pub proof fn lemma_levels_deterministic(
    elements: Seq<Elem>,
    r1: Result<Levels, ExtractError>,
    r2: Result<Levels, ExtractError>,
)
    requires
        levels_extraction(elements, r1),
        levels_extraction(elements, r2),
    ensures
        match (r1, r2) {
            (Ok(a), Ok(b)) => Seq::new(a.0@.len(), |i: int| (a.0@[i].description@, a.0@[i].completed))
                == Seq::new(b.0@.len(), |i: int| (b.0@[i].description@, b.0@[i].completed)),
            (Err(ea), Err(eb)) => errors_alike(ea, eb),
            _ => false,
        },
{
    match (r1, r2) {
        (Ok(a), Ok(b)) => {
            assert(Seq::new(a.0@.len(), |i: int| (a.0@[i].description@, a.0@[i].completed))
                =~= Seq::new(b.0@.len(), |i: int| (b.0@[i].description@, b.0@[i].completed)));
        },
        (Err(ea), Err(eb)) => {
            let i1 = choose|i: int| levels_abort_at(elements, ea, i);
            let i2 = choose|i: int| levels_abort_at(elements, eb, i);
            assert(levels_abort_at(elements, ea, i1));
            assert(levels_abort_at(elements, eb, i2));
            if i1 < i2 {
                lemma_level_error_excludes_ok(elements[i1], i1, ea);
                assert(false);
            }
            if i2 < i1 {
                lemma_level_error_excludes_ok(elements[i2], i2, eb);
                assert(false);
            }
            assert(errors_alike(ea, eb));
        },
        (Ok(a), Err(eb)) => {
            let i = choose|i: int| levels_abort_at(elements, eb, i);
            assert(levels_abort_at(elements, eb, i));
            lemma_level_error_excludes_ok(elements[i], i, eb);
        },
        (Err(ea), Ok(b)) => {
            let i = choose|i: int| levels_abort_at(elements, ea, i);
            assert(levels_abort_at(elements, ea, i));
            lemma_level_error_excludes_ok(elements[i], i, ea);
        },
    }
}

} // verus!
