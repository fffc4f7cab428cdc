//! The problem list extractor: turns a document-ordered sequence of
//! table-cell elements (one per problem) into an ordered solved/unsolved
//! sequence, validating each cell against the expected page shape.

use vstd::prelude::*;

use crate::dom::{str_eq, Elem, Node};
use crate::error::{errors_alike, ExtractError};
use crate::link::{
    digits_val, index_part, parse_from_relative_link, splits_in_two, valid_index, LinkError,
};

verus! {

/// The ordered solved/unsolved sequence; position `i` holds problem
/// number `i + 1`.
#[derive(Debug)]
pub struct Problems(pub Vec<bool>);

/// The cell carries the class `name`.
pub open spec fn has_class(e: Elem, name: Seq<char>) -> bool {
    exists|i: int| 0 <= i < e.classes@.len() && (#[trigger] e.classes@[i])@ == name
}

/// Exactly one of the two status classes is present. Unrecognized
/// classes beside it are tolerated: cells may carry extra styling.
pub open spec fn status_ok(e: Elem) -> bool {
    has_class(e, "problem_solved"@) != has_class(e, "problem_unsolved"@)
}

/// The solved flag the classes denote (meaningful when `status_ok(e)`).
pub open spec fn status_solved(e: Elem) -> bool {
    has_class(e, "problem_solved"@)
}

/// The cell holds exactly one child, an element tagged `a`.
pub open spec fn cell_anchor_ok(e: Elem) -> bool {
    &&& e.children@.len() == 1
    &&& e.children@[0] matches Node::Element(a) && a.tag@ == "a"@
}

/// The cell's anchor element (meaningful when `cell_anchor_ok(e)`).
pub open spec fn cell_anchor(e: Elem) -> Elem {
    e.children@[0]->Element_0
}

/// The cell at 0-based position `pos` is a valid problem element: it
/// carries one status class and one anchor whose `href` carries index
/// `pos + 1`.
pub open spec fn problem_elem_ok(e: Elem, pos: int) -> bool {
    &&& status_ok(e)
    &&& cell_anchor_ok(e)
    &&& cell_anchor(e).href is Some
    &&& splits_in_two(cell_anchor(e).href.unwrap()@)
    &&& valid_index(index_part(cell_anchor(e).href.unwrap()@))
    &&& digits_val(index_part(cell_anchor(e).href.unwrap()@)) == pos + 1
}

/// `err` is the error the cell at 0-based position `pos` yields, under
/// the documented order of checks: status classes, then cell structure,
/// then missing `href`, then link format, then numeric index, then
/// sequence gap.
pub open spec fn problem_elem_error(e: Elem, pos: int, err: ExtractError) -> bool {
    if !status_ok(e) {
        err matches ExtractError::AmbiguousOrMissingStatus { position } && position == pos
    } else if !cell_anchor_ok(e) {
        err matches ExtractError::UnrecognizedCellStructure { position } && position == pos
    } else if cell_anchor(e).href is None {
        err matches ExtractError::MissingAttribute { position } && position == pos
    } else {
        let h = cell_anchor(e).href.unwrap()@;
        if !splits_in_two(h) {
            err matches ExtractError::Format { position, href } && position == pos && href@ == h
        } else if !valid_index(index_part(h)) {
            err matches ExtractError::Numeric { position, href } && position == pos && href@ == h
        } else {
            &&& digits_val(index_part(h)) != pos + 1
            &&& err matches ExtractError::SequenceGap { position, expected, found }
                && position == pos
                && expected == pos + 1
                && found == digits_val(index_part(h))
        }
    }
}

/// `flags` is exactly what extraction yields from `elements`: one solved
/// flag per cell, in document order, each cell valid for its position.
pub open spec fn problems_match(elements: Seq<Elem>, flags: Seq<bool>) -> bool {
    &&& flags.len() == elements.len()
    &&& forall|i: int| 0 <= i < elements.len() ==> problem_elem_ok(#[trigger] elements[i], i)
    &&& forall|i: int| 0 <= i < elements.len() ==> flags[i] == status_solved(#[trigger] elements[i])
}

/// `i` is the position of the first invalid cell, and `err` the error it
/// yields.
pub open spec fn problems_abort_at(elements: Seq<Elem>, err: ExtractError, i: int) -> bool {
    &&& 0 <= i < elements.len()
    &&& forall|j: int| 0 <= j < i ==> problem_elem_ok(#[trigger] elements[j], j)
    &&& problem_elem_error(elements[i], i, err)
}

/// Extraction from `elements` aborts with `err`.
pub open spec fn problems_abort(elements: Seq<Elem>, err: ExtractError) -> bool {
    exists|i: int| #[trigger] problems_abort_at(elements, err, i)
}

/// The full meaning of problem extraction: either every cell validates
/// and the sequence lists their flags in order, or the first invalid cell
/// aborts the whole extraction with its error.
pub open spec fn problems_extraction(
    elements: Seq<Elem>,
    r: Result<Problems, ExtractError>,
) -> bool {
    match r {
        Ok(problems) => problems_match(elements, problems.0@),
        Err(err) => problems_abort(elements, err),
    }
}

/// Scans the cell's classes for the two status classes.
fn scan_status(e: &Elem) -> (r: (bool, bool))
    ensures
        r.0 == has_class(*e, "problem_solved"@),
        r.1 == has_class(*e, "problem_unsolved"@),
{
    let mut found_solved = false;
    let mut found_unsolved = false;
    let mut k: usize = 0;
    while k < e.classes.len()
        invariant
            k <= e.classes@.len(),
            found_solved == exists|j: int|
                0 <= j < k && (#[trigger] e.classes@[j])@ == "problem_solved"@,
            found_unsolved == exists|j: int|
                0 <= j < k && (#[trigger] e.classes@[j])@ == "problem_unsolved"@,
        decreases e.classes@.len() - k,
    {
        proof {
            reveal_strlit("problem_solved");
            reveal_strlit("problem_unsolved");
            assert("problem_solved"@.len() != "problem_unsolved"@.len());
        }
        let class = &e.classes[k];
        if str_eq(class.as_str(), "problem_solved") {
            found_solved = true;
        } else if str_eq(class.as_str(), "problem_unsolved") {
            found_unsolved = true;
        }
        k = k + 1;
    }
    (found_solved, found_unsolved)
}

impl Problems {
    /// Transforms a document-ordered sequence of table-cell elements into
    /// the ordered solved/unsolved sequence, failing fast on the first
    /// cell that deviates from the expected shape.
    pub fn from_elements(elements: &Vec<Elem>) -> (r: Result<Problems, ExtractError>)
        ensures
            problems_extraction(elements@, r),
    {
        let mut problems: Vec<bool> = Vec::new();
        let mut i: usize = 0;
        while i < elements.len()
            invariant
                i <= elements@.len(),
                problems@.len() == i,
                forall|k: int| 0 <= k < i ==> problem_elem_ok(#[trigger] elements@[k], k),
                forall|k: int|
                    0 <= k < i ==> problems@[k] == status_solved(#[trigger] elements@[k]),
            decreases elements@.len() - i,
        {
            let e = &elements[i];
            let (found_solved, found_unsolved) = scan_status(e);
            if found_solved == found_unsolved {
                let err = ExtractError::AmbiguousOrMissingStatus { position: i };
                proof {
                    assert(problems_abort_at(elements@, err, i as int));
                }
                return Err(err);
            }
            let solved = found_solved;
            if e.children.len() != 1 {
                let err = ExtractError::UnrecognizedCellStructure { position: i };
                proof {
                    assert(problems_abort_at(elements@, err, i as int));
                }
                return Err(err);
            }
            let anchor = match &e.children[0] {
                Node::Element(a) => {
                    if !str_eq(a.tag.as_str(), "a") {
                        let err = ExtractError::UnrecognizedCellStructure { position: i };
                        proof {
                            assert(problems_abort_at(elements@, err, i as int));
                        }
                        return Err(err);
                    }
                    a
                },
                Node::Text(_) => {
                    let err = ExtractError::UnrecognizedCellStructure { position: i };
                    proof {
                        assert(problems_abort_at(elements@, err, i as int));
                    }
                    return Err(err);
                },
            };
            let href = match &anchor.href {
                Some(h) => h,
                None => {
                    let err = ExtractError::MissingAttribute { position: i };
                    proof {
                        assert(problems_abort_at(elements@, err, i as int));
                    }
                    return Err(err);
                },
            };
            let found = match parse_from_relative_link("problem", href.as_str()) {
                Ok(n) => n,
                Err(LinkError::Format) => {
                    let err = ExtractError::Format { position: i, href: href.clone() };
                    proof {
                        assert(problems_abort_at(elements@, err, i as int));
                    }
                    return Err(err);
                },
                Err(LinkError::Numeric) => {
                    let err = ExtractError::Numeric { position: i, href: href.clone() };
                    proof {
                        assert(problems_abort_at(elements@, err, i as int));
                    }
                    return Err(err);
                },
            };
            let expected = i + 1;
            if found != expected {
                let err = ExtractError::SequenceGap { position: i, expected, found };
                proof {
                    assert(problems_abort_at(elements@, err, i as int));
                }
                return Err(err);
            }
            problems.push(solved);
            i = i + 1;
        }
        Ok(Problems(problems))
    }
}

/// A cell that yields an error is not a valid cell for that position.
proof fn lemma_problem_error_excludes_ok(e: Elem, pos: int, err: ExtractError)
    requires
        problem_elem_error(e, pos, err),
    ensures
        !problem_elem_ok(e, pos),
{
}

/// Validity is decisive: if every cell is valid for its position, the
/// extractor cannot abort — it returns all the flags, in order.
pub proof fn lemma_problems_complete(elements: Seq<Elem>, r: Result<Problems, ExtractError>)
    requires
        problems_extraction(elements, r),
        forall|i: int| 0 <= i < elements.len() ==> problem_elem_ok(#[trigger] elements[i], i),
    ensures
        match r {
            Ok(problems) => problems_match(elements, problems.0@),
            Err(_) => false,
        },
{
    match r {
        Ok(_) => {},
        Err(err) => {
            let i = choose|i: int| problems_abort_at(elements, err, i);
            assert(problems_abort_at(elements, err, i));
            lemma_problem_error_excludes_ok(elements[i], i, err);
        },
    }
}

/// Extraction is a function of the input alone: two results that both
/// satisfy the extraction relation for the same elements agree, flag for
/// flag or error for error.
pub proof fn lemma_problems_deterministic(
    elements: Seq<Elem>,
    r1: Result<Problems, ExtractError>,
    r2: Result<Problems, ExtractError>,
)
    requires
        problems_extraction(elements, r1),
        problems_extraction(elements, r2),
    ensures
        match (r1, r2) {
            (Ok(a), Ok(b)) => a.0@ == b.0@,
            (Err(ea), Err(eb)) => errors_alike(ea, eb),
            _ => false,
        },
{
    match (r1, r2) {
        (Ok(a), Ok(b)) => {
            assert forall|i: int| 0 <= i < a.0@.len() implies a.0@[i] == b.0@[i] by {
                assert(a.0@[i] == status_solved(elements[i]));
                assert(b.0@[i] == status_solved(elements[i]));
            }
            assert(a.0@ =~= b.0@);
        },
        (Err(ea), Err(eb)) => {
            let i1 = choose|i: int| problems_abort_at(elements, ea, i);
            let i2 = choose|i: int| problems_abort_at(elements, eb, i);
            assert(problems_abort_at(elements, ea, i1));
            assert(problems_abort_at(elements, eb, i2));
            if i1 < i2 {
                lemma_problem_error_excludes_ok(elements[i1], i1, ea);
                assert(false);
            }
            if i2 < i1 {
                lemma_problem_error_excludes_ok(elements[i2], i2, eb);
                assert(false);
            }
            assert(errors_alike(ea, eb));
        },
        (Ok(a), Err(eb)) => {
            let i = choose|i: int| problems_abort_at(elements, eb, i);
            assert(problems_abort_at(elements, eb, i));
            lemma_problem_error_excludes_ok(elements[i], i, eb);
        },
        (Err(ea), Ok(b)) => {
            let i = choose|i: int| problems_abort_at(elements, ea, i);
            assert(problems_abort_at(elements, ea, i));
            lemma_problem_error_excludes_ok(elements[i], i, ea);
        },
    }
}

} // verus!
