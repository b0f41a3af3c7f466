//! The syntax tree handed to the renderer and the classification of its
//! kind labels.

use vstd::prelude::*;

verus! {

/// One node of a labelled syntax tree.
///
/// A node without children is a terminal: its text is the byte range
/// `start..end` of the source buffer the tree was built over. Inner nodes
/// carry no text of their own; their span is ignored.
pub struct SyntaxNode {
    pub kind: String,
    pub children: Vec<SyntaxNode>,
    pub start: usize,
    pub end: usize,
}

/// The structural categories the renderer distinguishes.
#[derive(PartialEq, Eq, Structural, Clone, Copy, Debug)]
pub enum NodeKind {
    /// A top-level statement (label ends in `statement`).
    Statement,
    /// A clause of a statement (label ends in `clause`).
    Clause,
    /// A qualified name whose parts are joined without spaces.
    DottedName,
    /// `left op right`, spaced around the operator.
    BinaryExpression,
    /// A parenthesized or nested expression (label ends in `expression`).
    SubExpression,
    /// Any other label; rendered by the generic rule.
    Generic,
}

/// Whether `suffix` is a suffix of `s`.
pub open spec fn ends_with(s: Seq<char>, suffix: Seq<char>) -> bool {
    suffix.len() <= s.len() && s.subrange(s.len() - suffix.len(), s.len() as int) == suffix
}

/// The category of a kind label. Exact names are recognised before
/// suffixes, so `binary_expression` is not taken for a sub-expression.
pub open spec fn kind_of(label: Seq<char>) -> NodeKind {
    if label == "dotted_name"@ {
        NodeKind::DottedName
    } else if label == "binary_expression"@ {
        NodeKind::BinaryExpression
    } else if ends_with(label, "statement"@) {
        NodeKind::Statement
    } else if ends_with(label, "clause"@) {
        NodeKind::Clause
    } else if ends_with(label, "expression"@) {
        NodeKind::SubExpression
    } else {
        NodeKind::Generic
    }
}

/// Whether the label names a top-level statement.
pub open spec fn is_statement_label(label: Seq<char>) -> bool {
    kind_of(label) == NodeKind::Statement
}

/// Tests whether `suffix` is a suffix of `s`.
pub fn has_suffix(s: &str, suffix: &str) -> (r: bool)
    ensures
        r == ends_with(s@, suffix@),
{
    let n = s.unicode_len();
    let m = suffix.unicode_len();
    if m > n {
        return false;
    }
    let off: usize = n - m;
    let mut i: usize = 0;
    while i < m
        invariant
            n == s@.len(),
            m == suffix@.len(),
            off == n - m,
            i <= m,
            forall|j: int| 0 <= j < i ==> s@[off + j] == suffix@[j],
        decreases m - i,
    {
        if s.get_char(off + i) != suffix.get_char(i) {
            assert(s@.subrange(off as int, n as int)[i as int] != suffix@[i as int]);
            return false;
        }
        i = i + 1;
    }
    assert(s@.subrange(off as int, n as int) =~= suffix@);
    true
}

/// Tests whether `s` and `t` hold the same characters.
pub fn same_label(s: &str, t: &str) -> (r: bool)
    ensures
        r == (s@ == t@),
{
    let n = s.unicode_len();
    let m = t.unicode_len();
    if n != m {
        return false;
    }
    let r = has_suffix(s, t);
    proof {
        assert(s@.subrange(0, n as int) =~= s@);
    }
    r
}

/// Classifies a kind label.
pub fn classify(label: &str) -> (k: NodeKind)
    ensures
        k == kind_of(label@),
{
    if same_label(label, "dotted_name") {
        NodeKind::DottedName
    } else if same_label(label, "binary_expression") {
        NodeKind::BinaryExpression
    } else if has_suffix(label, "statement") {
        NodeKind::Statement
    } else if has_suffix(label, "clause") {
        NodeKind::Clause
    } else if has_suffix(label, "expression") {
        NodeKind::SubExpression
    } else {
        NodeKind::Generic
    }
}

impl SyntaxNode {
    /// A terminal node whose text is `source[start..end]`.
    pub fn leaf(kind: &str, start: usize, end: usize) -> (n: SyntaxNode)
        ensures
            n.kind@ == kind@,
            n.children@.len() == 0,
            n.start == start,
            n.end == end,
    {
        SyntaxNode { kind: kind.to_string(), children: Vec::new(), start, end }
    }

    /// An inner node with the given children, in order.
    pub fn branch(kind: &str, children: Vec<SyntaxNode>) -> (n: SyntaxNode)
        ensures
            n.kind@ == kind@,
            n.children@ == children@,
            n.start == 0,
            n.end == 0,
    {
        SyntaxNode { kind: kind.to_string(), children, start: 0, end: 0 }
    }
}

} // verus!
