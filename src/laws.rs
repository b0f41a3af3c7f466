//! Properties of the rendering, stated over the spec model of `render` and
//! proved.

use vstd::prelude::*;
use crate::render::{
    SPACE, NEWLINE, SEMICOLON, label_len, node_text, children_text, separator, max_label, padding, spaces,
    clause_line, clause_lines, statement_text, document_text, document_ok, render_outcome, block_text, blocks_text,
};
use crate::tree::{SyntaxNode, NodeKind, kind_of, is_statement_label};

verus! {

/// Rendering is deterministic: the same tree over the same source, written
/// into buffers holding the same bytes, gives the same verdict and
/// byte-identical buffers, whether it succeeds or fails.
pub proof fn lemma_render_deterministic(
    a: SyntaxNode,
    b: SyntaxNode,
    src_a: Seq<u8>,
    src_b: Seq<u8>,
    before_a: Seq<u8>,
    before_b: Seq<u8>,
)
    requires
        a == b,
        src_a == src_b,
        before_a == before_b,
    ensures
        render_outcome(a, src_a, before_a) == render_outcome(b, src_b, before_b),
{
}

/// The alignment column bounds every label and, for a non-empty list, is
/// reached by one of them.
pub proof fn lemma_max_label(cs: Seq<SyntaxNode>)
    ensures
        forall|j: int| 0 <= j < cs.len() ==> label_len(#[trigger] cs[j]) <= max_label(cs),
        cs.len() > 0 ==> exists|j: int| 0 <= j < cs.len() && label_len(#[trigger] cs[j]) == max_label(cs),
    decreases cs.len(),
{
    if cs.len() > 0 {
        let init = cs.drop_last();
        lemma_max_label(init);
        assert forall|j: int| 0 <= j < cs.len() implies label_len(#[trigger] cs[j]) <= max_label(cs) by {
            if j < cs.len() - 1 {
                assert(cs[j] == init[j]);
            }
        }
        if label_len(cs.last()) <= max_label(init) && init.len() > 0 {
            let k = choose|k: int| 0 <= k < init.len() && label_len(#[trigger] init[k]) == max_label(init);
            assert(cs[k] == init[k]);
        } else {
            assert(label_len(cs[cs.len() - 1]) == max_label(cs));
        }
    }
}

/// The lines of the first `i` clauses are a prefix of the lines of the first `k`.
pub proof fn lemma_clause_lines_prefix(cs: Seq<SyntaxNode>, w: nat, src: Seq<u8>, i: nat, k: nat)
    requires
        i <= k <= cs.len(),
    ensures
        clause_lines(cs, w, src, i).len() <= clause_lines(cs, w, src, k).len(),
        clause_lines(cs, w, src, k).subrange(0, clause_lines(cs, w, src, i).len() as int)
            == clause_lines(cs, w, src, i),
    decreases k,
{
    if i < k {
        lemma_clause_lines_prefix(cs, w, src, i, (k - 1) as nat);
        let a = clause_lines(cs, w, src, (k - 1) as nat);
        let b = clause_lines(cs, w, src, i);
        assert((a + clause_line(cs[k - 1], w, src)).subrange(0, b.len() as int) =~= a.subrange(0, b.len() as int));
    } else {
        assert(clause_lines(cs, w, src, k).subrange(0, clause_lines(cs, w, src, k).len() as int)
            =~= clause_lines(cs, w, src, k));
    }
}

/// Alignment: in a statement's block, clause `i` occupies a line of its own,
/// made of its padding, its inline text and a line break; its padding plus
/// its label length is the statement's alignment column, and that column is
/// the longest clause label of the statement.
pub proof fn lemma_clause_alignment(st: SyntaxNode, src: Seq<u8>, i: int)
    requires
        0 <= i < st.children.len(),
    ensures
        ({
            let cs = st.children@;
            let w = max_label(cs);
            let text = statement_text(st, src);
            let p = clause_lines(cs, w, src, i as nat).len() as int;
            let line = clause_line(cs[i], w, src);
            &&& line == spaces(padding(w, cs[i])) + node_text(cs[i], src) + seq![NEWLINE]
            &&& padding(w, cs[i]) + label_len(cs[i]) == w
            &&& p + line.len() <= text.len()
            &&& text.subrange(p, p + line.len()) == line
            &&& (i > 0 ==> text[p - 1] == NEWLINE)
            &&& forall|j: int| 0 <= j < cs.len() ==> label_len(#[trigger] cs[j]) <= w
            &&& exists|j: int| 0 <= j < cs.len() && label_len(#[trigger] cs[j]) == w
        }),
{
    let cs = st.children@;
    let w = max_label(cs);
    let n = cs.len() as nat;
    lemma_max_label(cs);
    assert(label_len(cs[i]) <= w);
    lemma_clause_lines_prefix(cs, w, src, (i + 1) as nat, n);
    let before = clause_lines(cs, w, src, i as nat);
    let upto = clause_lines(cs, w, src, (i + 1) as nat);
    let all = clause_lines(cs, w, src, n);
    let line = clause_line(cs[i], w, src);
    assert(upto == before + line);
    let text = statement_text(st, src);
    assert(text == all + seq![SEMICOLON, NEWLINE]);
    assert(text.subrange(0, upto.len() as int) =~= upto);
    assert(text.subrange(before.len() as int, (before.len() + line.len()) as int) =~= line) by {
        assert(text.subrange(before.len() as int, (before.len() + line.len()) as int)
            =~= upto.subrange(before.len() as int, upto.len() as int));
    }
    if i > 0 {
        let prev = clause_lines(cs, w, src, (i - 1) as nat);
        assert(before == prev + clause_line(cs[i - 1], w, src));
        assert(text[before.len() - 1] == upto[before.len() - 1]);
    }
}

/// Termination: a statement's block ends with exactly one `;` and one line
/// break, and the `;` stands at the start of a line of its own.
pub proof fn lemma_statement_terminated(st: SyntaxNode, src: Seq<u8>)
    ensures
        ({
            let text = statement_text(st, src);
            let body = text.subrange(0, text.len() - 2);
            &&& text.len() >= 2
            &&& text == body + seq![SEMICOLON, NEWLINE]
            &&& (body.len() == 0 || body.last() == NEWLINE)
        }),
{
    let cs = st.children@;
    let w = max_label(cs);
    let all = clause_lines(cs, w, src, cs.len() as nat);
    let text = statement_text(st, src);
    assert(text.subrange(0, text.len() - 2) =~= all);
    if cs.len() > 0 {
        assert(all == clause_lines(cs, w, src, (cs.len() - 1) as nat) + clause_line(cs[cs.len() - 1], w, src));
    }
}

/// The texts of the first `k` children of `n`, in order.
pub open spec fn child_texts(n: SyntaxNode, src: Seq<u8>, k: nat) -> Seq<Seq<u8>> {
    Seq::new(k, |j: int| node_text(n.children[j], src))
}

/// Inside a dotted name, the first `k` children's texts are concatenated
/// with nothing between them.
pub proof fn lemma_dotted_prefix_concatenates(n: SyntaxNode, src: Seq<u8>, k: nat)
    requires
        kind_of(n.kind@) == NodeKind::DottedName,
        1 <= k <= n.children.len(),
    ensures
        children_text(n, src, k) == child_texts(n, src, k).flatten(),
    decreases k,
{
    assert(separator(n) == Seq::<u8>::empty());
    let t = node_text(n.children[k - 1], src);
    if k == 1 {
        assert(child_texts(n, src, 1).drop_first() =~= Seq::<Seq<u8>>::empty());
        assert(Seq::<Seq<u8>>::empty().flatten() == Seq::<u8>::empty());
        assert(child_texts(n, src, 1).first() == t);
        assert(child_texts(n, src, 1).flatten() =~= t);
    } else {
        lemma_dotted_prefix_concatenates(n, src, (k - 1) as nat);
        assert(child_texts(n, src, k) =~= child_texts(n, src, (k - 1) as nat).push(t));
        child_texts(n, src, (k - 1) as nat).lemma_flatten_push(t);
        assert(children_text(n, src, k) =~= children_text(n, src, (k - 1) as nat) + t);
    }
}

/// Dotted names: a dotted name renders as the texts of its components and
/// dot tokens concatenated with nothing between them, so `a`, `.`, `b`,
/// `.`, `c` renders as `a.b.c`.
pub proof fn lemma_dotted_name_concatenates(n: SyntaxNode, src: Seq<u8>)
    requires
        kind_of(n.kind@) == NodeKind::DottedName,
        n.children.len() > 0,
    ensures
        node_text(n, src) == child_texts(n, src, n.children.len() as nat).flatten(),
{
    lemma_dotted_prefix_concatenates(n, src, n.children.len() as nat);
}

/// Dotted names add no space: if no component's text holds a space, neither
/// does the first `k` components' joined text.
pub proof fn lemma_dotted_prefix_has_no_space(n: SyntaxNode, src: Seq<u8>, k: nat)
    requires
        kind_of(n.kind@) == NodeKind::DottedName,
        k <= n.children.len(),
        forall|j: int| 0 <= j < n.children.len() ==> !(#[trigger] node_text(n.children[j], src)).contains(SPACE),
    ensures
        !children_text(n, src, k).contains(SPACE),
    decreases k,
{
    if k > 1 {
        lemma_dotted_prefix_has_no_space(n, src, (k - 1) as nat);
        let a = children_text(n, src, (k - 1) as nat);
        let b = node_text(n.children[k - 1], src);
        assert(children_text(n, src, k) =~= a + b);
        if (a + b).contains(SPACE) {
            let x = choose|x: int| 0 <= x < (a + b).len() && (a + b)[x] == SPACE;
            if x < a.len() {
                assert(a[x] == SPACE);
            } else {
                assert(b[x - a.len()] == SPACE);
            }
        }
    } else if k == 1 {
        assert(node_text(n.children[0], src) == children_text(n, src, k));
    }
}

/// Dotted names add no space: a dotted name whose components' texts hold no
/// space renders without any space.
pub proof fn lemma_dotted_name_has_no_space(n: SyntaxNode, src: Seq<u8>)
    requires
        kind_of(n.kind@) == NodeKind::DottedName,
        n.children.len() > 0,
        forall|j: int| 0 <= j < n.children.len() ==> !(#[trigger] node_text(n.children[j], src)).contains(SPACE),
    ensures
        !node_text(n, src).contains(SPACE),
{
    lemma_dotted_prefix_has_no_space(n, src, n.children.len() as nat);
}

/// Binary expressions: `left op right` renders as the left operand's text,
/// one space, the operator's text, one space, the right operand's text.
pub proof fn lemma_binary_expression_spacing(n: SyntaxNode, src: Seq<u8>)
    requires
        kind_of(n.kind@) == NodeKind::BinaryExpression,
        n.children.len() == 3,
    ensures
        node_text(n, src) == node_text(n.children[0], src) + seq![SPACE] + node_text(n.children[1], src)
            + seq![SPACE] + node_text(n.children[2], src),
{
    assert(separator(n) == seq![SPACE]);
    let t = |j: int| node_text(n.children[j], src);
    assert(node_text(n, src) == children_text(n, src, 3));
    assert(children_text(n, src, 1) == t(0));
    assert(children_text(n, src, 2) == children_text(n, src, 1) + separator(n) + t(1));
    assert(children_text(n, src, 3) == children_text(n, src, 2) + separator(n) + t(2));
    assert(node_text(n, src) =~= node_text(n.children[0], src) + seq![SPACE] + node_text(n.children[1], src)
        + seq![SPACE] + node_text(n.children[2], src));
}

/// The blocks of the first `i` top-level children are a prefix of the blocks
/// of the first `k`.
pub proof fn lemma_blocks_prefix(cs: Seq<SyntaxNode>, src: Seq<u8>, i: nat, k: nat)
    requires
        i <= k <= cs.len(),
    ensures
        blocks_text(cs, src, i).len() <= blocks_text(cs, src, k).len(),
        blocks_text(cs, src, k).subrange(0, blocks_text(cs, src, i).len() as int) == blocks_text(cs, src, i),
    decreases k,
{
    if i < k {
        lemma_blocks_prefix(cs, src, i, (k - 1) as nat);
        let a = blocks_text(cs, src, (k - 1) as nat);
        let b = blocks_text(cs, src, i);
        assert((a + block_text(cs[k - 1], src)).subrange(0, b.len() as int) =~= a.subrange(0, b.len() as int));
    } else {
        assert(blocks_text(cs, src, k).subrange(0, blocks_text(cs, src, k).len() as int)
            =~= blocks_text(cs, src, k));
    }
}

/// Consecutive top-level children render back to back: nothing stands
/// between the block of child `i` and the block of child `i + 1` (each
/// statement block already ends with its own `;` and line break).
pub proof fn lemma_blocks_adjacent(root: SyntaxNode, src: Seq<u8>, i: int)
    requires
        0 <= i,
        i + 1 < root.children.len(),
    ensures
        ({
            let cs = root.children@;
            let text = document_text(root, src);
            let p = blocks_text(cs, src, i as nat).len() as int;
            let pair = block_text(cs[i], src) + block_text(cs[i + 1], src);
            &&& p + pair.len() <= text.len()
            &&& text.subrange(p, p + pair.len()) == pair
        }),
{
    let cs = root.children@;
    let n = cs.len() as nat;
    lemma_blocks_prefix(cs, src, (i + 2) as nat, n);
    let before = blocks_text(cs, src, i as nat);
    let upto = blocks_text(cs, src, (i + 2) as nat);
    let pair = block_text(cs[i], src) + block_text(cs[i + 1], src);
    assert(upto =~= before + pair) by {
        assert(blocks_text(cs, src, (i + 1) as nat) == before + block_text(cs[i], src));
    }
    let text = document_text(root, src);
    assert(text.subrange(before.len() as int, (before.len() + pair.len()) as int)
        =~= upto.subrange(before.len() as int, upto.len() as int));
}

/// How many times byte `b` occurs in `s`.
pub open spec fn count_byte(s: Seq<u8>, b: u8) -> nat
    decreases s.len(),
{
    if s.len() == 0 {
        0
    } else {
        count_byte(s.drop_last(), b) + if s.last() == b {
            1nat
        } else {
            0nat
        }
    }
}

/// Occurrences add up over a concatenation.
pub proof fn lemma_count_concat(a: Seq<u8>, c: Seq<u8>, b: u8)
    ensures
        count_byte(a + c, b) == count_byte(a, b) + count_byte(c, b),
    decreases c.len(),
{
    if c.len() == 0 {
        assert(a + c =~= a);
    } else {
        assert((a + c).drop_last() =~= a + c.drop_last());
        lemma_count_concat(a, c.drop_last(), b);
    }
}

/// A byte that does not occur is counted zero times.
pub proof fn lemma_count_absent(s: Seq<u8>, b: u8)
    requires
        !s.contains(b),
    ensures
        count_byte(s, b) == 0,
    decreases s.len(),
{
    if s.len() > 0 {
        assert(s.last() == s[s.len() - 1]);
        assert(!s.drop_last().contains(b)) by {
            if s.drop_last().contains(b) {
                let i = choose|i: int| 0 <= i < s.drop_last().len() && s.drop_last()[i] == b;
                assert(s[i] == b);
            }
        }
        lemma_count_absent(s.drop_last(), b);
    }
}

/// How many of the first `k` top-level children of `cs` are statements.
pub open spec fn statement_count(cs: Seq<SyntaxNode>, k: nat) -> nat
    decreases k,
{
    if k == 0 || k > cs.len() {
        0
    } else {
        statement_count(cs, (k - 1) as nat) + if is_statement_label(cs[k - 1].kind@) {
            1nat
        } else {
            0nat
        }
    }
}

/// Clause lines hold no `;` when no clause text does.
pub proof fn lemma_clause_lines_no_semicolon(cs: Seq<SyntaxNode>, w: nat, src: Seq<u8>, k: nat)
    requires
        k <= cs.len(),
        forall|j: int| 0 <= j < cs.len() ==> !(#[trigger] node_text(cs[j], src)).contains(SEMICOLON),
    ensures
        count_byte(clause_lines(cs, w, src, k), SEMICOLON) == 0,
    decreases k,
{
    if k > 0 {
        lemma_clause_lines_no_semicolon(cs, w, src, (k - 1) as nat);
        let c = cs[k - 1];
        let pad = spaces(padding(w, c));
        let t = node_text(c, src);
        lemma_count_absent(pad, SEMICOLON);
        lemma_count_absent(t, SEMICOLON);
        lemma_count_absent(seq![NEWLINE], SEMICOLON);
        lemma_count_concat(pad, t, SEMICOLON);
        lemma_count_concat(pad + t, seq![NEWLINE], SEMICOLON);
        lemma_count_concat(clause_lines(cs, w, src, (k - 1) as nat), clause_line(c, w, src), SEMICOLON);
    }
}

/// The blocks of the first `k` children hold one `;` per statement among them.
pub proof fn lemma_blocks_semicolons(cs: Seq<SyntaxNode>, src: Seq<u8>, k: nat)
    requires
        k <= cs.len(),
        forall|i: int, j: int|
            0 <= i < cs.len() && is_statement_label(cs[i].kind@) && 0 <= j < cs[i].children.len()
                ==> !(#[trigger] node_text(cs[i].children[j], src)).contains(SEMICOLON),
    ensures
        count_byte(blocks_text(cs, src, k), SEMICOLON) == statement_count(cs, k),
    decreases k,
{
    if k > 0 {
        lemma_blocks_semicolons(cs, src, (k - 1) as nat);
        let c = cs[k - 1];
        lemma_count_concat(blocks_text(cs, src, (k - 1) as nat), block_text(c, src), SEMICOLON);
        if is_statement_label(c.kind@) {
            let ccs = c.children@;
            assert forall|j: int| 0 <= j < ccs.len() implies !(#[trigger] node_text(ccs[j], src)).contains(
                SEMICOLON,
            ) by {
                assert(node_text(cs[k - 1].children[j], src) == node_text(ccs[j], src));
            }
            lemma_clause_lines_no_semicolon(ccs, max_label(ccs), src, ccs.len() as nat);
            let tail = seq![SEMICOLON, NEWLINE];
            assert(count_byte(tail, SEMICOLON) == 1) by {
                let one: Seq<u8> = seq![SEMICOLON];
                assert(tail.drop_last() =~= one);
                assert(tail.last() == NEWLINE);
                assert(one.drop_last() =~= Seq::<u8>::empty());
                assert(one.last() == SEMICOLON);
                assert(count_byte(one, SEMICOLON) == count_byte(Seq::<u8>::empty(), SEMICOLON) + 1);
                assert(count_byte(tail, SEMICOLON) == count_byte(one, SEMICOLON));
            }
            lemma_count_concat(clause_lines(ccs, max_label(ccs), src, ccs.len() as nat), tail, SEMICOLON);
        } else {
            assert(count_byte(Seq::<u8>::empty(), SEMICOLON) == 0);
        }
    }
}

/// Termination over a whole document: when no clause text holds a `;`, the
/// document holds exactly one `;` per top-level statement (each one the
/// terminator of its block, followed by a line break).
pub proof fn lemma_document_semicolons(root: SyntaxNode, src: Seq<u8>)
    requires
        forall|i: int, j: int|
            0 <= i < root.children.len() && is_statement_label(root.children[i].kind@) && 0 <= j
                < root.children[i].children.len() ==> !(#[trigger] node_text(
                root.children[i].children[j],
                src,
            )).contains(SEMICOLON),
    ensures
        count_byte(document_text(root, src), SEMICOLON) == statement_count(
            root.children@,
            root.children.len() as nat,
        ),
{
    lemma_blocks_semicolons(root.children@, src, root.children.len() as nat);
}

/// `s` has no empty line: every line break has a byte before it, and that
/// byte is not a line break.
pub open spec fn no_blank_line(s: Seq<u8>) -> bool {
    forall|i: int| 0 <= i < s.len() && #[trigger] s[i] == NEWLINE ==> i > 0 && s[i - 1] != NEWLINE
}

/// Two texts without an empty line concatenate into one without.
pub proof fn lemma_no_blank_line_concat(a: Seq<u8>, c: Seq<u8>)
    requires
        no_blank_line(a),
        no_blank_line(c),
    ensures
        no_blank_line(a + c),
{
    let s = a + c;
    assert forall|i: int| 0 <= i < s.len() && #[trigger] s[i] == NEWLINE implies i > 0 && s[i - 1] != NEWLINE by {
        if i >= a.len() {
            assert(c[i - a.len()] == NEWLINE);
            if i > a.len() {
                assert(s[i - 1] == c[i - 1 - a.len()]);
            }
        } else {
            assert(a[i] == NEWLINE);
        }
    }
}

/// A clause line has no empty line when the clause text is non-empty and
/// holds no line break.
pub proof fn lemma_clause_line_no_blank(c: SyntaxNode, w: nat, src: Seq<u8>)
    requires
        node_text(c, src).len() > 0,
        !node_text(c, src).contains(NEWLINE),
    ensures
        no_blank_line(clause_line(c, w, src)),
{
    let pad = spaces(padding(w, c));
    let t = node_text(c, src);
    let line = clause_line(c, w, src);
    assert(line == pad + t + seq![NEWLINE]);
    assert forall|i: int| 0 <= i < line.len() && #[trigger] line[i] == NEWLINE implies i > 0 && line[i - 1] != NEWLINE by {
        if i < pad.len() {
            assert(line[i] == SPACE);
        } else if i < pad.len() + t.len() {
            assert(t[i - pad.len()] == NEWLINE);
        } else {
            assert(line[i - 1] == t[t.len() - 1]);
        }
    }
}

/// The clause lines of a statement have no empty line when every clause text
/// is non-empty and holds no line break.
pub proof fn lemma_clause_lines_no_blank(cs: Seq<SyntaxNode>, w: nat, src: Seq<u8>, k: nat)
    requires
        k <= cs.len(),
        forall|j: int| 0 <= j < cs.len() ==> (#[trigger] node_text(cs[j], src)).len() > 0,
        forall|j: int| 0 <= j < cs.len() ==> !(#[trigger] node_text(cs[j], src)).contains(NEWLINE),
    ensures
        no_blank_line(clause_lines(cs, w, src, k)),
    decreases k,
{
    if k > 0 {
        lemma_clause_lines_no_blank(cs, w, src, (k - 1) as nat);
        let c = cs[k - 1];
        assert(node_text(c, src).len() > 0);
        lemma_clause_line_no_blank(c, w, src);
        lemma_no_blank_line_concat(clause_lines(cs, w, src, (k - 1) as nat), clause_line(c, w, src));
    }
}

/// The blocks of the first `k` children have no empty line under the same
/// condition on every statement's clause texts.
pub proof fn lemma_blocks_no_blank(cs: Seq<SyntaxNode>, src: Seq<u8>, k: nat)
    requires
        k <= cs.len(),
        forall|i: int, j: int|
            0 <= i < cs.len() && is_statement_label(cs[i].kind@) && 0 <= j < cs[i].children.len()
                ==> (#[trigger] node_text(cs[i].children[j], src)).len() > 0 && !node_text(
                cs[i].children[j],
                src,
            ).contains(NEWLINE),
    ensures
        no_blank_line(blocks_text(cs, src, k)),
    decreases k,
{
    if k > 0 {
        lemma_blocks_no_blank(cs, src, (k - 1) as nat);
        let c = cs[k - 1];
        if is_statement_label(c.kind@) {
            let ccs = c.children@;
            assert forall|j: int| 0 <= j < ccs.len() implies (#[trigger] node_text(ccs[j], src)).len() > 0
                && !node_text(ccs[j], src).contains(NEWLINE) by {
                assert(node_text(cs[k - 1].children[j], src) == node_text(ccs[j], src));
            }
            let lines = clause_lines(ccs, max_label(ccs), src, ccs.len() as nat);
            lemma_clause_lines_no_blank(ccs, max_label(ccs), src, ccs.len() as nat);
            let tail: Seq<u8> = seq![SEMICOLON, NEWLINE];
            assert(no_blank_line(tail)) by {
                assert forall|i: int| 0 <= i < tail.len() && #[trigger] tail[i] == NEWLINE implies i > 0
                    && tail[i - 1] != NEWLINE by {
                    assert(tail[0] == SEMICOLON);
                }
            }
            lemma_no_blank_line_concat(lines, tail);
        } else {
            assert(no_blank_line(Seq::<u8>::empty()));
        }
        lemma_no_blank_line_concat(blocks_text(cs, src, (k - 1) as nat), block_text(c, src));
        assert(blocks_text(cs, src, k) == blocks_text(cs, src, (k - 1) as nat) + block_text(c, src));
    }
}

/// No blank lines: when every clause text of every statement is non-empty
/// and holds no line break, the document has no empty line, neither inside
/// a block nor between two blocks.
pub proof fn lemma_document_no_blank_line(root: SyntaxNode, src: Seq<u8>)
    requires
        forall|i: int, j: int|
            0 <= i < root.children.len() && is_statement_label(root.children[i].kind@) && 0 <= j
                < root.children[i].children.len() ==> (#[trigger] node_text(
                root.children[i].children[j],
                src,
            )).len() > 0 && !node_text(root.children[i].children[j], src).contains(NEWLINE),
    ensures
        no_blank_line(document_text(root, src)),
{
    lemma_blocks_no_blank(root.children@, src, root.children.len() as nat);
}

} // verus!
