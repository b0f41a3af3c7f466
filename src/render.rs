//! The renderer: node printer, clause aligner and statement renderer.
//!
//! Each layer is described by a spec function over the tree and the bytes of
//! the source text, and each executable function is proved to append exactly
//! that text to the output.

use vstd::prelude::*;
use vstd::string::StringSliceAdditionalSpecFns;
use vstd::utf8::is_char_boundary;
use crate::output::RenderOutput;
use crate::tree::{SyntaxNode, NodeKind, kind_of, is_statement_label, classify};

verus! {

broadcast use vstd::std_specs::vec::group_vec_axioms;

pub const SPACE: u8 = 32;
pub const NEWLINE: u8 = 10;
pub const SEMICOLON: u8 = 59;

/// Why a render pass was aborted.
#[derive(PartialEq, Eq, Structural, Clone, Copy, Debug)]
pub enum RenderError {
    /// A terminal node's span does not denote non-empty text of the source.
    MalformedLeaf,
}

/// Length of a node's kind label, in characters.
pub open spec fn label_len(n: SyntaxNode) -> nat {
    n.kind@.len()
}

/// A terminal's span is non-empty, lies inside the source and starts and
/// ends on character boundaries.
pub open spec fn leaf_ok(n: SyntaxNode, src: Seq<u8>) -> bool {
    &&& n.start < n.end
    &&& n.end <= src.len()
    &&& is_char_boundary(src, n.start as int)
    &&& is_char_boundary(src, n.end as int)
}

/// Every terminal below `n` (or `n` itself) has a valid span.
pub open spec fn node_ok(n: SyntaxNode, src: Seq<u8>) -> bool
    decreases n, n.children.len() + 1,
{
    if n.children.len() == 0 {
        leaf_ok(n, src)
    } else {
        children_ok(n, src, n.children.len() as nat)
    }
}

/// Every terminal below the first `k` children of `n` has a valid span.
pub open spec fn children_ok(n: SyntaxNode, src: Seq<u8>, k: nat) -> bool
    decreases n, k,
{
    if k == 0 || k > n.children.len() {
        true
    } else {
        children_ok(n, src, (k - 1) as nat) && node_ok(n.children[k - 1], src)
    }
}

/// `children_ok` holds exactly when each of the first `k` children is valid.
pub proof fn lemma_children_ok(n: SyntaxNode, src: Seq<u8>, k: nat)
    requires
        k <= n.children.len(),
    ensures
        children_ok(n, src, k) <==> forall|j: int| 0 <= j < k ==> #[trigger] node_ok(n.children[j], src),
    decreases k,
{
    if k > 0 {
        lemma_children_ok(n, src, (k - 1) as nat);
        let last = n.children[k - 1];
        assert(children_ok(n, src, k) == (children_ok(n, src, (k - 1) as nat) && node_ok(last, src)));
        if forall|j: int| 0 <= j < k ==> #[trigger] node_ok(n.children[j], src) {
            assert(node_ok(n.children[k - 1], src));
        }
    }
}

/// What stands between two consecutive children of `n`: nothing inside a
/// dotted name, one space everywhere else.
pub open spec fn separator(n: SyntaxNode) -> Seq<u8> {
    if kind_of(n.kind@) == NodeKind::DottedName {
        Seq::empty()
    } else {
        seq![SPACE]
    }
}

/// The inline text of a node: a terminal's source bytes, or its children's
/// texts joined by the node's separator.
pub open spec fn node_text(n: SyntaxNode, src: Seq<u8>) -> Seq<u8>
    decreases n, n.children.len() + 1,
{
    if n.children.len() == 0 {
        src.subrange(n.start as int, n.end as int)
    } else {
        children_text(n, src, n.children.len() as nat)
    }
}

/// The texts of the first `k` children of `n`, joined by its separator.
pub open spec fn children_text(n: SyntaxNode, src: Seq<u8>, k: nat) -> Seq<u8>
    decreases n, k,
{
    if k == 0 || k > n.children.len() {
        Seq::empty()
    } else if k == 1 {
        node_text(n.children[0], src)
    } else {
        children_text(n, src, (k - 1) as nat) + separator(n) + node_text(n.children[k - 1], src)
    }
}

/// A sequence is a prefix of itself extended by anything.
pub proof fn lemma_prefix_of_extension(a: Seq<u8>, x: Seq<u8>)
    ensures
        a.is_prefix_of(a + x),
{
    assert(a =~= (a + x).subrange(0, a.len() as int));
}

/// Being a prefix is transitive.
pub proof fn lemma_prefix_trans(a: Seq<u8>, b: Seq<u8>, c: Seq<u8>)
    requires
        a.is_prefix_of(b),
        b.is_prefix_of(c),
    ensures
        a.is_prefix_of(c),
{
    assert(a =~= c.subrange(0, a.len() as int)) by {
        assert(c.subrange(0, a.len() as int) =~= c.subrange(0, b.len() as int).subrange(0, a.len() as int));
    }
}

/// Appends the inline text of `node` to `out`.
///
/// Terminals contribute their source bytes verbatim; a dotted name joins its
/// children without separator; every other inner node (binary expressions
/// included) joins its children with exactly one space. Fails when some
/// terminal has an invalid span; what `out` held before is kept either way.
pub fn render_node(node: &SyntaxNode, source: &str, out: &mut RenderOutput) -> (r: Result<
    (),
    RenderError,
>)
    ensures
        r is Ok <==> node_ok(*node, source.spec_bytes()),
        r is Ok ==> final(out)@ == old(out)@ + node_text(*node, source.spec_bytes()),
        old(out)@.is_prefix_of(final(out)@),
    decreases node,
{
    let ghost src = source.spec_bytes();
    let n = node.children.len();
    if n == 0 {
        let bytes = source.as_bytes();
        if node.start < node.end && node.end <= bytes.len() && source.is_char_boundary(node.start)
            && source.is_char_boundary(node.end) {
            out.push_range(bytes, node.start, node.end);
            proof {
                lemma_prefix_of_extension(old(out)@, node_text(*node, src));
            }
            Ok(())
        } else {
            assert(old(out)@ =~= out@.subrange(0, old(out)@.len() as int));
            Err(RenderError::MalformedLeaf)
        }
    } else {
        // Spacing between children is decided by the node's own kind alone.
        let joined = match classify(node.kind.as_str()) {
            NodeKind::DottedName => false,
            NodeKind::BinaryExpression => true,
            NodeKind::Statement | NodeKind::Clause | NodeKind::SubExpression | NodeKind::Generic => true,
        };
        let mut i: usize = 0;
        while i < n
            invariant
                n == node.children.len(),
                src == source.spec_bytes(),
                joined == (kind_of(node.kind@) != NodeKind::DottedName),
                i <= n,
                forall|j: int| 0 <= j < i ==> node_ok(#[trigger] node.children[j], src),
                out@ == old(out)@ + children_text(*node, src, i as nat),
            decreases n - i,
        {
            let ghost before = out@;
            if i > 0 && joined {
                out.push(SPACE);
            }
            let ghost mid = out@;
            let r = render_node(&node.children[i], source, out);
            match r {
                Err(e) => {
                    proof {
                        lemma_children_ok(*node, src, n as nat);
                        lemma_prefix_of_extension(old(out)@, children_text(*node, src, i as nat));
                        lemma_prefix_of_extension(before, mid.subrange(before.len() as int, mid.len() as int));
                        assert(before + mid.subrange(before.len() as int, mid.len() as int) =~= mid);
                        lemma_prefix_trans(old(out)@, before, mid);
                        lemma_prefix_trans(old(out)@, mid, out@);
                    }
                    assert(!node_ok(*node, src));
                    return Err(e);
                },
                Ok(()) => {},
            }
            proof {
                if i > 0 {
                    assert(mid == before + separator(*node));
                }
                assert(out@ =~= old(out)@ + children_text(*node, src, (i + 1) as nat));
            }
            i = i + 1;
        }
        proof {
            lemma_children_ok(*node, src, n as nat);
        }
        assert(node_ok(*node, src));
        assert(out@ == old(out)@ + node_text(*node, src));
        proof {
            lemma_prefix_of_extension(old(out)@, node_text(*node, src));
        }
        Ok(())
    }
}

/// The longest kind label among `cs`, in characters; 0 when `cs` is empty.
pub open spec fn max_label(cs: Seq<SyntaxNode>) -> nat
    decreases cs.len(),
{
    if cs.len() == 0 {
        0
    } else {
        let m = max_label(cs.drop_last());
        let l = label_len(cs.last());
        if l > m {
            l
        } else {
            m
        }
    }
}

/// `k` space characters.
pub open spec fn spaces(k: nat) -> Seq<u8> {
    Seq::new(k, |i: int| SPACE)
}

/// Left padding of a clause in a statement whose alignment column is `w`:
/// `w` minus the clause's label length, and never below zero.
pub open spec fn padding(w: nat, c: SyntaxNode) -> nat {
    if label_len(c) <= w {
        (w - label_len(c)) as nat
    } else {
        0
    }
}

/// One clause on its own line: padding, inline text, line break.
pub open spec fn clause_line(c: SyntaxNode, w: nat, src: Seq<u8>) -> Seq<u8> {
    spaces(padding(w, c)) + node_text(c, src) + seq![NEWLINE]
}

/// The lines of the first `k` clauses of `cs`, aligned to column `w`.
pub open spec fn clause_lines(cs: Seq<SyntaxNode>, w: nat, src: Seq<u8>, k: nat) -> Seq<u8>
    decreases k,
{
    if k == 0 || k > cs.len() {
        Seq::empty()
    } else {
        clause_lines(cs, w, src, (k - 1) as nat) + clause_line(cs[k - 1], w, src)
    }
}

/// Every clause of the statement renders without error.
pub open spec fn statement_ok(st: SyntaxNode, src: Seq<u8>) -> bool {
    forall|i: int| 0 <= i < st.children.len() ==> node_ok(#[trigger] st.children[i], src)
}

/// A statement's block: one aligned line per clause, then `;` and a line
/// break. The alignment column is the longest clause label of this
/// statement alone.
pub open spec fn statement_text(st: SyntaxNode, src: Seq<u8>) -> Seq<u8> {
    let cs = st.children@;
    clause_lines(cs, max_label(cs), src, cs.len()) + seq![SEMICOLON, NEWLINE]
}

/// Computes the alignment column of a statement: its longest clause label.
pub fn column_width(stmt: &SyntaxNode) -> (w: usize)
    ensures
        w == max_label(stmt.children@),
{
    let ghost cs = stmt.children@;
    let n = stmt.children.len();
    let mut w: usize = 0;
    let mut i: usize = 0;
    while i < n
        invariant
            n == cs.len(),
            cs == stmt.children@,
            i <= n,
            w == max_label(cs.subrange(0, i as int)),
        decreases n - i,
    {
        let l = stmt.children[i].kind.as_str().unicode_len();
        assert(cs.subrange(0, i + 1).drop_last() =~= cs.subrange(0, i as int));
        if l > w {
            w = l;
        }
        i = i + 1;
    }
    assert(cs.subrange(0, n as int) =~= cs);
    w
}

/// Appends a statement's clause lines to `out`: each clause on its own
/// line, right-aligned on the statement's alignment column. The terminator
/// is left to the caller. Fails when some terminal of a clause has an
/// invalid span; what `out` held before is kept either way.
pub fn render_statement(stmt: &SyntaxNode, source: &str, out: &mut RenderOutput) -> (r: Result<
    (),
    RenderError,
>)
    ensures
        r is Ok <==> statement_ok(*stmt, source.spec_bytes()),
        r is Ok ==> final(out)@ == old(out)@ + clause_lines(
            stmt.children@,
            max_label(stmt.children@),
            source.spec_bytes(),
            stmt.children@.len() as nat,
        ),
        old(out)@.is_prefix_of(final(out)@),
{
    let ghost src = source.spec_bytes();
    let ghost cs = stmt.children@;
    let w = column_width(stmt);
    let n = stmt.children.len();
    let mut i: usize = 0;
    while i < n
        invariant
            n == cs.len(),
            cs == stmt.children@,
            src == source.spec_bytes(),
            w == max_label(cs),
            i <= n,
            forall|j: int| 0 <= j < i ==> node_ok(#[trigger] cs[j], src),
            out@ == old(out)@ + clause_lines(cs, w as nat, src, i as nat),
        decreases n - i,
    {
        let ghost before = out@;
        let child = &stmt.children[i];
        let l = child.kind.as_str().unicode_len();
        let pad: usize = if l <= w { w - l } else { 0 };
        out.push_spaces(pad);
        let ghost padded = out@;
        let r = render_node(child, source, out);
        match r {
            Err(e) => {
                proof {
                    lemma_prefix_of_extension(old(out)@, clause_lines(cs, w as nat, src, i as nat));
                    lemma_prefix_of_extension(before, Seq::new(pad as nat, |k: int| SPACE));
                    lemma_prefix_trans(old(out)@, before, padded);
                    lemma_prefix_trans(old(out)@, padded, out@);
                }
                return Err(e);
            },
            Ok(()) => {},
        }
        out.push(NEWLINE);
        proof {
            assert(spaces(padding(w as nat, *child)) =~= Seq::new(pad as nat, |k: int| SPACE));
            assert(out@ =~= before + clause_line(cs[i as int], w as nat, src));
        }
        i = i + 1;
    }
    proof {
        lemma_prefix_of_extension(old(out)@, clause_lines(cs, w as nat, src, n as nat));
    }
    Ok(())
}

/// What a top-level child contributes: its block if it is a statement,
/// nothing otherwise.
pub open spec fn block_text(c: SyntaxNode, src: Seq<u8>) -> Seq<u8> {
    if is_statement_label(c.kind@) {
        statement_text(c, src)
    } else {
        Seq::empty()
    }
}

/// The blocks of the first `k` top-level children of `cs`, in order.
pub open spec fn blocks_text(cs: Seq<SyntaxNode>, src: Seq<u8>, k: nat) -> Seq<u8>
    decreases k,
{
    if k == 0 || k > cs.len() {
        Seq::empty()
    } else {
        blocks_text(cs, src, (k - 1) as nat) + block_text(cs[k - 1], src)
    }
}

/// Every statement under the root renders without error. Children that are
/// not statements are never rendered and so never fail.
pub open spec fn document_ok(root: SyntaxNode, src: Seq<u8>) -> bool {
    forall|i: int|
        0 <= i < root.children.len() && is_statement_label(#[trigger] root.children[i].kind@)
            ==> statement_ok(root.children[i], src)
}

/// The formatted document: the blocks of the root's statements, in tree
/// order, with nothing between them.
pub open spec fn document_text(root: SyntaxNode, src: Seq<u8>) -> Seq<u8> {
    blocks_text(root.children@, src, root.children.len() as nat)
}

/// What `render` leaves in a buffer that held `before`, and whether it
/// succeeds: the document appended on success, the buffer untouched on
/// failure.
pub open spec fn render_outcome(root: SyntaxNode, src: Seq<u8>, before: Seq<u8>) -> (bool, Seq<u8>) {
    if document_ok(root, src) {
        (true, before + document_text(root, src))
    } else {
        (false, before)
    }
}

/// Appends the formatted document for the tree under `root` to `out`.
///
/// Each direct child of the root whose label ends in `statement` is rendered
/// as one block, its clause lines followed by `;` and a line break; other
/// children produce nothing. Fails when some terminal inside a statement
/// has an invalid span, and then leaves `out` as it was.
pub fn render(root: &SyntaxNode, source: &str, out: &mut RenderOutput) -> (r: Result<
    (),
    RenderError,
>)
    ensures
        r is Ok <==> document_ok(*root, source.spec_bytes()),
        r is Ok ==> final(out)@ == old(out)@ + document_text(*root, source.spec_bytes()),
        r is Err ==> final(out)@ == old(out)@,
        (r is Ok, final(out)@) == render_outcome(*root, source.spec_bytes(), old(out)@),
{
    let ghost src = source.spec_bytes();
    let mut doc = RenderOutput::new();
    let ghost cs = root.children@;
    let n = root.children.len();
    let mut i: usize = 0;
    while i < n
        invariant
            n == cs.len(),
            cs == root.children@,
            src == source.spec_bytes(),
            i <= n,
            forall|j: int|
                0 <= j < i && is_statement_label(#[trigger] cs[j].kind@) ==> statement_ok(
                    cs[j],
                    src,
                ),
            doc@ == blocks_text(cs, src, i as nat),
            out@ == old(out)@,
        decreases n - i,
    {
        let ghost before = doc@;
        let child = &root.children[i];
        if classify(child.kind.as_str()) == NodeKind::Statement {
            let r = render_statement(child, source, &mut doc);
            match r {
                Err(e) => {
                    assert(is_statement_label(cs[i as int].kind@));
                    return Err(e);
                },
                Ok(()) => {},
            }
            doc.push(SEMICOLON);
            doc.push(NEWLINE);
        }
        assert(doc@ =~= before + block_text(cs[i as int], src));
        assert(doc@ =~= blocks_text(cs, src, (i + 1) as nat));
        i = i + 1;
    }
    let bytes = doc.as_bytes();
    out.push_range(bytes, 0, bytes.len());
    assert(bytes@.subrange(0, bytes@.len() as int) =~= bytes@);
    Ok(())
}

} // verus!
