use sqlign::output::RenderOutput;
use sqlign::render::{column_width, render, render_node, render_statement, RenderError};
use sqlign::tree::{classify, has_suffix, same_label, NodeKind, SyntaxNode};

const QUERY: &str = "SELECT a.b FROM t WHERE x = 1";

fn leaf(kind: &str, start: usize, end: usize) -> SyntaxNode {
    SyntaxNode::leaf(kind, start, end)
}

fn branch(kind: &str, children: Vec<SyntaxNode>) -> SyntaxNode {
    SyntaxNode::branch(kind, children)
}

fn text(out: RenderOutput) -> String {
    String::from_utf8(out.into_bytes()).unwrap()
}

fn render_doc(root: &SyntaxNode, source: &str) -> Result<String, RenderError> {
    let mut out = RenderOutput::new();
    render(root, source, &mut out)?;
    Ok(text(out))
}

fn render_inline(node: &SyntaxNode, source: &str) -> Result<String, RenderError> {
    let mut out = RenderOutput::new();
    render_node(node, source, &mut out)?;
    Ok(text(out))
}

/// `SELECT a.b FROM t WHERE x = 1`, offset by `base` bytes into its source.
fn select_statement(base: usize) -> SyntaxNode {
    branch(
        "select_statement",
        vec![
            branch(
                "select_clause",
                vec![
                    leaf("SELECT", base, base + 6),
                    branch(
                        "dotted_name",
                        vec![
                            leaf("identifier", base + 7, base + 8),
                            leaf(".", base + 8, base + 9),
                            leaf("identifier", base + 9, base + 10),
                        ],
                    ),
                ],
            ),
            branch(
                "from_clause",
                vec![leaf("FROM", base + 11, base + 15), leaf("identifier", base + 16, base + 17)],
            ),
            branch(
                "where_clause",
                vec![
                    leaf("WHERE", base + 18, base + 23),
                    branch(
                        "binary_expression",
                        vec![
                            leaf("identifier", base + 24, base + 25),
                            leaf("=", base + 26, base + 27),
                            leaf("number", base + 28, base + 29),
                        ],
                    ),
                ],
            ),
        ],
    )
}

#[test]
fn select_from_where_is_aligned() {
    let root = branch("source_file", vec![select_statement(0)]);
    let out = render_doc(&root, QUERY).unwrap();
    assert_eq!(out, "SELECT a.b\n  FROM t\n WHERE x = 1\n;\n");
}

#[test]
fn empty_statement_renders_terminator_only() {
    let root = branch("source_file", vec![branch("select_statement", vec![])]);
    assert_eq!(render_doc(&root, "").unwrap(), ";\n");
}

#[test]
fn two_statements_are_aligned_independently() {
    let source = "SELECT a.b FROM t WHERE x = 1;SELECT y FROM u";
    let second = branch(
        "select_statement",
        vec![
            branch("select_clause", vec![leaf("SELECT", 30, 36), leaf("identifier", 37, 38)]),
            branch("from_clause", vec![leaf("FROM", 39, 43), leaf("identifier", 44, 45)]),
        ],
    );
    let root = branch("source_file", vec![select_statement(0), leaf(";", 29, 30), second]);
    let out = render_doc(&root, source).unwrap();
    assert_eq!(out, "SELECT a.b\n  FROM t\n WHERE x = 1\n;\nSELECT y\n  FROM u\n;\n");
    assert!(!out.contains("\n\n"));
}

#[test]
fn statements_keep_their_column_per_block() {
    let source = "FROM t WHERE x";
    let first = branch(
        "select_statement",
        vec![
            branch("from_clause", vec![leaf("FROM", 0, 4), leaf("identifier", 5, 6)]),
            branch("where_clause", vec![leaf("WHERE", 7, 12), leaf("identifier", 13, 14)]),
        ],
    );
    let second =
        branch("select_statement", vec![branch("from_clause", vec![leaf("FROM", 0, 4), leaf("identifier", 5, 6)])]);
    let root = branch("source_file", vec![first, second]);
    assert_eq!(render_doc(&root, source).unwrap(), " FROM t\nWHERE x\n;\nFROM t\n;\n");
}

#[test]
fn rendering_is_deterministic() {
    let root = branch("source_file", vec![select_statement(0)]);
    let a = render_doc(&root, QUERY).unwrap();
    let b = render_doc(&root, QUERY).unwrap();
    assert_eq!(a.as_bytes(), b.as_bytes());
}

#[test]
fn dotted_name_has_no_spaces() {
    let source = "a.b.c";
    let node = branch(
        "dotted_name",
        vec![
            leaf("identifier", 0, 1),
            leaf(".", 1, 2),
            leaf("identifier", 2, 3),
            leaf(".", 3, 4),
            leaf("identifier", 4, 5),
        ],
    );
    assert_eq!(render_inline(&node, source).unwrap(), "a.b.c");
}

#[test]
fn binary_expression_is_spaced() {
    let source = "x=1";
    let node = branch(
        "binary_expression",
        vec![leaf("identifier", 0, 1), leaf("=", 1, 2), leaf("number", 2, 3)],
    );
    assert_eq!(render_inline(&node, source).unwrap(), "x = 1");
}

#[test]
fn nested_binary_expression_inside_dotted_rules() {
    let source = "(a.b+1)";
    let node = branch(
        "parenthesized_expression",
        vec![
            leaf("(", 0, 1),
            branch(
                "binary_expression",
                vec![
                    branch("dotted_name", vec![leaf("identifier", 1, 2), leaf(".", 2, 3), leaf("identifier", 3, 4)]),
                    leaf("+", 4, 5),
                    leaf("number", 5, 6),
                ],
            ),
            leaf(")", 6, 7),
        ],
    );
    assert_eq!(render_inline(&node, source).unwrap(), "( a.b + 1 )");
}

#[test]
fn generic_node_joins_with_single_spaces() {
    let source = "count(*),x";
    let node = branch(
        "select_list",
        vec![leaf("identifier", 0, 5), leaf("(", 5, 6), leaf("*", 6, 7), leaf(")", 7, 8), leaf(",", 8, 9), leaf("identifier", 9, 10)],
    );
    assert_eq!(render_inline(&node, source).unwrap(), "count ( * ) , x");
}

#[test]
fn terminal_text_is_verbatim() {
    let source = "select \"Mixed Case\"";
    assert_eq!(render_inline(&leaf("keyword", 0, 6), source).unwrap(), "select");
    assert_eq!(render_inline(&leaf("identifier", 7, 19), source).unwrap(), "\"Mixed Case\"");
}

#[test]
fn non_statement_children_are_skipped() {
    let source = "; -- note";
    let root = branch("source_file", vec![leaf(";", 0, 1), leaf("comment", 2, 9)]);
    assert_eq!(render_doc(&root, source).unwrap(), "");
}

#[test]
fn skipped_children_are_not_checked() {
    let root = branch("source_file", vec![leaf("comment", 5, 99)]);
    assert_eq!(render_doc(&root, "x").unwrap(), "");
}

#[test]
fn leaf_clause_is_rendered_as_its_text() {
    let source = "VACUUM";
    let root = branch("source_file", vec![branch("vacuum_statement", vec![leaf("vacuum_clause", 0, 6)])]);
    assert_eq!(render_doc(&root, source).unwrap(), "VACUUM\n;\n");
}

#[test]
fn leaf_past_end_is_malformed() {
    assert_eq!(render_inline(&leaf("identifier", 0, 4), "abc"), Err(RenderError::MalformedLeaf));
}

#[test]
fn empty_leaf_is_malformed() {
    assert_eq!(render_inline(&leaf("identifier", 1, 1), "abc"), Err(RenderError::MalformedLeaf));
    assert_eq!(render_inline(&leaf("identifier", 2, 1), "abc"), Err(RenderError::MalformedLeaf));
}

#[test]
fn leaf_inside_a_character_is_malformed() {
    let source = "é";
    assert_eq!(render_inline(&leaf("identifier", 0, 1), source), Err(RenderError::MalformedLeaf));
    assert_eq!(render_inline(&leaf("identifier", 0, 2), source).unwrap(), "é");
}

#[test]
fn malformed_leaf_aborts_the_document() {
    let root = branch(
        "source_file",
        vec![branch("select_statement", vec![branch("select_clause", vec![leaf("SELECT", 0, 6), leaf("identifier", 7, 40)])])],
    );
    assert_eq!(render_doc(&root, QUERY), Err(RenderError::MalformedLeaf));
    let mut out = RenderOutput::new();
    assert_eq!(render_statement(&root.children[0], QUERY, &mut out), Err(RenderError::MalformedLeaf));
}

#[test]
fn render_statement_appends_one_block() {
    let mut out = RenderOutput::new();
    out.push(b'#');
    render_statement(&select_statement(0), QUERY, &mut out).unwrap();
    assert_eq!(text(out), "#SELECT a.b\n  FROM t\n WHERE x = 1\n");
}

#[test]
fn render_statement_of_empty_statement_writes_nothing() {
    let mut out = RenderOutput::new();
    render_statement(&branch("select_statement", vec![]), "", &mut out).unwrap();
    assert_eq!(text(out), "");
}

#[test]
fn failed_render_keeps_earlier_output() {
    let mut out = RenderOutput::new();
    out.push(b'#');
    let root = branch("source_file", vec![branch("select_statement", vec![leaf("vacuum_clause", 3, 9)])]);
    assert_eq!(render(&root, "x", &mut out), Err(RenderError::MalformedLeaf));
    assert_eq!(out.as_bytes(), b"#");
}

#[test]
fn column_width_is_longest_label() {
    assert_eq!(column_width(&select_statement(0)), 13);
    assert_eq!(column_width(&branch("select_statement", vec![])), 0);
}

#[test]
fn labels_are_classified() {
    assert_eq!(classify("dotted_name"), NodeKind::DottedName);
    assert_eq!(classify("binary_expression"), NodeKind::BinaryExpression);
    assert_eq!(classify("select_statement"), NodeKind::Statement);
    assert_eq!(classify("statement"), NodeKind::Statement);
    assert_eq!(classify("where_clause"), NodeKind::Clause);
    assert_eq!(classify("parenthesized_expression"), NodeKind::SubExpression);
    assert_eq!(classify("identifier"), NodeKind::Generic);
    assert_eq!(classify("statements"), NodeKind::Generic);
    assert_eq!(classify(""), NodeKind::Generic);
}

#[test]
fn suffix_and_label_tests() {
    assert!(has_suffix("select_statement", "statement"));
    assert!(has_suffix("abc", ""));
    assert!(!has_suffix("ment", "statement"));
    assert!(!has_suffix("select_statemant", "statement"));
    assert!(same_label("dotted_name", "dotted_name"));
    assert!(!same_label("x_dotted_name", "dotted_name"));
}

#[test]
fn output_buffer_appends() {
    let mut out = RenderOutput::new();
    out.push_spaces(3);
    out.push_range(b"hello", 1, 4);
    out.push(b'!');
    assert_eq!(out.as_bytes(), b"   ell!");
}

#[test]
fn document_has_one_terminator_per_statement() {
    let source = "SELECT a.b FROM t WHERE x = 1;SELECT y FROM u";
    let second = branch(
        "select_statement",
        vec![branch("select_clause", vec![leaf("SELECT", 30, 36), leaf("identifier", 37, 38)])],
    );
    let root = branch("source_file", vec![select_statement(0), leaf(";", 29, 30), second]);
    let out = render_doc(&root, source).unwrap();
    assert_eq!(out.matches(';').count(), 2);
    assert_eq!(out.matches(";\n").count(), 2);
    assert!(out.ends_with(";\n"));
}
