use euler_progress::dom::{Elem, Node};
use euler_progress::error::ExtractError;
use euler_progress::levels::Levels;
use euler_progress::link::{parse_from_relative_link, LinkError};
use euler_progress::problems::Problems;

fn elem(tag: &str, classes: &[&str], href: Option<&str>, children: Vec<Node>) -> Elem {
    Elem {
        tag: tag.to_string(),
        classes: classes.iter().map(|c| c.to_string()).collect(),
        href: href.map(|h| h.to_string()),
        children,
    }
}

/// A well-formed level anchor: `level?x=<index>`, a marker child
/// (`div` = incomplete, `img` = complete) and a description span.
fn level_anchor(index: usize, completed: bool, desc: &str) -> Elem {
    let marker = if completed { "img" } else { "div" };
    elem(
        "a",
        &[],
        Some(&format!("level?x={}", index)),
        vec![
            Node::Element(elem(marker, &[], None, vec![])),
            Node::Element(elem(
                "span",
                &[],
                None,
                vec![
                    Node::Element(elem("div", &[], None, vec![])),
                    Node::Text(desc.to_string()),
                ],
            )),
        ],
    )
}

/// A well-formed problem cell: a status class and one anchor child
/// `problem?i=<index>`.
fn problem_cell(index: usize, classes: &[&str]) -> Elem {
    elem(
        "td",
        classes,
        None,
        vec![Node::Element(elem(
            "a",
            &[],
            Some(&format!("problem?i={}", index)),
            vec![],
        ))],
    )
}

#[test]
fn link_index_parses_value() {
    assert_eq!(parse_from_relative_link("problem", "problem?x=7"), Ok(7));
}

#[test]
fn link_index_format_error_without_equals() {
    assert_eq!(
        parse_from_relative_link("problem", "no-equals-sign"),
        Err(LinkError::Format)
    );
}

#[test]
fn link_index_numeric_error_on_word() {
    assert_eq!(
        parse_from_relative_link("problem", "problem?x=seven"),
        Err(LinkError::Numeric)
    );
}

#[test]
fn link_index_format_error_on_two_equals() {
    assert_eq!(
        parse_from_relative_link("level", "a=b=c"),
        Err(LinkError::Format)
    );
}

#[test]
fn link_index_numeric_error_on_empty_index() {
    assert_eq!(
        parse_from_relative_link("level", "level?x="),
        Err(LinkError::Numeric)
    );
}

#[test]
fn link_index_numeric_error_on_overflow() {
    assert_eq!(
        parse_from_relative_link("level", "level?x=99999999999999999999999999"),
        Err(LinkError::Numeric)
    );
}

#[test]
fn link_index_accepts_leading_zeros() {
    assert_eq!(parse_from_relative_link("level", "level?x=007"), Ok(7));
}

#[test]
fn link_index_accepts_empty_prefix() {
    assert_eq!(parse_from_relative_link("level", "=5"), Ok(5));
}

#[test]
fn level_extraction_returns_all_levels_in_order() {
    let anchors = vec![
        level_anchor(1, true, "Level 1: solve 25 problems"),
        level_anchor(2, false, "Level 2: solve 50 problems"),
        level_anchor(3, false, "Level 3: solve 75 problems"),
    ];
    let levels = Levels::from_elements(&anchors).unwrap();
    assert_eq!(levels.0.len(), 3);
    assert_eq!(levels.0[0].description, "Level 1: solve 25 problems");
    assert!(levels.0[0].completed);
    assert_eq!(levels.0[1].description, "Level 2: solve 50 problems");
    assert!(!levels.0[1].completed);
    assert_eq!(levels.0[2].description, "Level 3: solve 75 problems");
    assert!(!levels.0[2].completed);
}

#[test]
fn level_extraction_of_no_anchors_is_empty() {
    let levels = Levels::from_elements(&vec![]).unwrap();
    assert!(levels.0.is_empty());
}

#[test]
fn level_sequence_gap_on_unexpected_index() {
    let anchors = vec![level_anchor(2, false, "Level 2")];
    let r = Levels::from_elements(&anchors);
    assert!(matches!(
        r,
        Err(ExtractError::SequenceGap { position: 0, expected: 1, found: 2 })
    ));
}

#[test]
fn level_sequence_gap_after_valid_prefix() {
    let anchors = vec![
        level_anchor(1, false, "Level 1"),
        level_anchor(3, false, "Level 3"),
    ];
    let r = Levels::from_elements(&anchors);
    assert!(matches!(
        r,
        Err(ExtractError::SequenceGap { position: 1, expected: 2, found: 3 })
    ));
}

#[test]
fn level_span_marker_is_unrecognized() {
    let mut anchor = level_anchor(1, false, "Level 1");
    anchor.children[0] = Node::Element(elem("span", &[], None, vec![]));
    let r = Levels::from_elements(&vec![anchor]);
    assert!(matches!(
        r,
        Err(ExtractError::UnrecognizedCompletionMarker { position: 0 })
    ));
}

#[test]
fn level_marker_error_when_child_count_is_wrong() {
    let mut anchor = level_anchor(1, false, "Level 1");
    anchor.children.pop();
    let r = Levels::from_elements(&vec![anchor]);
    assert!(matches!(
        r,
        Err(ExtractError::UnrecognizedCompletionMarker { position: 0 })
    ));
}

#[test]
fn level_missing_href_is_reported() {
    let mut anchor = level_anchor(1, false, "Level 1");
    anchor.href = None;
    let r = Levels::from_elements(&vec![anchor]);
    assert!(matches!(
        r,
        Err(ExtractError::MissingAttribute { position: 0 })
    ));
}

#[test]
fn level_format_error_carries_the_href() {
    let mut anchor = level_anchor(1, false, "Level 1");
    anchor.href = Some("level-one".to_string());
    let r = Levels::from_elements(&vec![anchor]);
    assert!(matches!(
        r,
        Err(ExtractError::Format { position: 0, ref href }) if href == "level-one"
    ));
}

#[test]
fn level_numeric_error_carries_the_href() {
    let mut anchor = level_anchor(1, false, "Level 1");
    anchor.href = Some("level?x=one".to_string());
    let r = Levels::from_elements(&vec![anchor]);
    assert!(matches!(
        r,
        Err(ExtractError::Numeric { position: 0, ref href }) if href == "level?x=one"
    ));
}

#[test]
fn level_description_error_when_text_is_missing() {
    let mut anchor = level_anchor(1, false, "Level 1");
    anchor.children[1] = Node::Element(elem(
        "span",
        &[],
        None,
        vec![Node::Element(elem("div", &[], None, vec![]))],
    ));
    let r = Levels::from_elements(&vec![anchor]);
    assert!(matches!(
        r,
        Err(ExtractError::UnrecognizedDescriptionFormat { position: 0 })
    ));
}

#[test]
fn level_description_error_when_title_tag_is_wrong() {
    let mut anchor = level_anchor(1, false, "Level 1");
    anchor.children[1] = Node::Element(elem(
        "span",
        &[],
        None,
        vec![
            Node::Element(elem("p", &[], None, vec![])),
            Node::Text("Level 1".to_string()),
        ],
    ));
    let r = Levels::from_elements(&vec![anchor]);
    assert!(matches!(
        r,
        Err(ExtractError::UnrecognizedDescriptionFormat { position: 0 })
    ));
}

#[test]
fn level_marker_error_wins_over_description_error() {
    let mut anchor = level_anchor(1, false, "Level 1");
    anchor.children[0] = Node::Element(elem("span", &[], None, vec![]));
    anchor.children[1] = Node::Text("not a span".to_string());
    let r = Levels::from_elements(&vec![anchor]);
    assert!(matches!(
        r,
        Err(ExtractError::UnrecognizedCompletionMarker { position: 0 })
    ));
}

#[test]
fn solved_cell_yields_true_at_position() {
    let cells = vec![
        problem_cell(1, &["problem_unsolved"]),
        problem_cell(2, &["problem_unsolved"]),
        problem_cell(3, &["problem_solved"]),
    ];
    let problems = Problems::from_elements(&cells).unwrap();
    assert_eq!(problems.0, vec![false, false, true]);
}

#[test]
fn unsolved_cell_yields_false() {
    let cells = vec![problem_cell(1, &["problem_unsolved"])];
    let problems = Problems::from_elements(&cells).unwrap();
    assert_eq!(problems.0, vec![false]);
}

#[test]
fn extra_class_is_tolerated() {
    let cells = vec![problem_cell(1, &["problem_solved", "extra-style"])];
    let problems = Problems::from_elements(&cells).unwrap();
    assert_eq!(problems.0, vec![true]);
}

#[test]
fn problem_extraction_of_no_cells_is_empty() {
    let problems = Problems::from_elements(&vec![]).unwrap();
    assert!(problems.0.is_empty());
}

#[test]
fn both_status_classes_are_ambiguous() {
    let cells = vec![problem_cell(1, &["problem_solved", "problem_unsolved"])];
    let r = Problems::from_elements(&cells);
    assert!(matches!(
        r,
        Err(ExtractError::AmbiguousOrMissingStatus { position: 0 })
    ));
}

#[test]
fn missing_status_class_is_reported() {
    let cells = vec![problem_cell(1, &["extra-style"])];
    let r = Problems::from_elements(&cells);
    assert!(matches!(
        r,
        Err(ExtractError::AmbiguousOrMissingStatus { position: 0 })
    ));
}

#[test]
fn cell_with_two_children_is_unrecognized() {
    let mut cell = problem_cell(1, &["problem_solved"]);
    cell.children.push(Node::Text("stray".to_string()));
    let r = Problems::from_elements(&vec![cell]);
    assert!(matches!(
        r,
        Err(ExtractError::UnrecognizedCellStructure { position: 0 })
    ));
}

#[test]
fn cell_with_non_anchor_child_is_unrecognized() {
    let mut cell = problem_cell(1, &["problem_solved"]);
    cell.children[0] = Node::Element(elem("div", &[], None, vec![]));
    let r = Problems::from_elements(&vec![cell]);
    assert!(matches!(
        r,
        Err(ExtractError::UnrecognizedCellStructure { position: 0 })
    ));
}

#[test]
fn cell_anchor_without_href_is_reported() {
    let mut cell = problem_cell(1, &["problem_solved"]);
    cell.children[0] = Node::Element(elem("a", &[], None, vec![]));
    let r = Problems::from_elements(&vec![cell]);
    assert!(matches!(
        r,
        Err(ExtractError::MissingAttribute { position: 0 })
    ));
}

#[test]
fn problem_sequence_gap_on_unexpected_index() {
    let cells = vec![
        problem_cell(1, &["problem_solved"]),
        problem_cell(5, &["problem_unsolved"]),
    ];
    let r = Problems::from_elements(&cells);
    assert!(matches!(
        r,
        Err(ExtractError::SequenceGap { position: 1, expected: 2, found: 5 })
    ));
}

#[test]
fn level_extraction_is_idempotent() {
    let anchors = vec![
        level_anchor(1, true, "Level 1"),
        level_anchor(2, false, "Level 2"),
    ];
    let first = Levels::from_elements(&anchors);
    let second = Levels::from_elements(&anchors);
    assert_eq!(format!("{:?}", first), format!("{:?}", second));
}

#[test]
fn problem_extraction_is_idempotent() {
    let cells = vec![
        problem_cell(1, &["problem_solved"]),
        problem_cell(2, &["problem_unsolved"]),
    ];
    let first = Problems::from_elements(&cells);
    let second = Problems::from_elements(&cells);
    assert_eq!(format!("{:?}", first), format!("{:?}", second));
}
