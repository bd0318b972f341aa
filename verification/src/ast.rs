//! The parse-tree model and the span locator: a walk that finds the most
//! specific (smallest-span) node whose span contains a given byte offset.
//!
//! Nodes form a closed variant over the expression kinds of the language;
//! every composite kind owns its child nodes.  Literal kinds carry their
//! source text as UTF-8 bytes.

use vstd::prelude::*;

verus! {

/// A byte range locating a node's source text.  In span queries both
/// boundary offsets are treated as belonging to the span.
#[derive(Clone, Copy, PartialEq, Eq, Structural, Debug)]
pub struct Span {
    pub start: usize,
    pub end: usize,
}

/// Whether offset `p` lies within `s`, boundaries included.
pub open spec fn span_contains(s: Span, p: int) -> bool {
    s.start <= p <= s.end
}

/// The number of bytes a span covers; the measure of how specific it is.
pub open spec fn span_width(s: Span) -> int {
    s.end - s.start
}

/// Declaration qualifier attached to a variable at declaration time.
#[derive(Clone, Copy, PartialEq, Eq, Structural, Debug)]
pub enum VariableShape {
    Value,
    Reference,
}

/// A variable declaration with its initializer expression.
pub struct VariableDeclaration {
    pub id: Option<usize>,
    pub name: Vec<u8>,
    pub shape: VariableShape,
    pub init_expression: Box<DatexExpression>,
}

/// An assignment of an expression to an already-declared variable.
pub struct VariableAssignment {
    pub id: Option<usize>,
    pub name: Vec<u8>,
    pub expression: Box<DatexExpression>,
}

/// The closed variant of expression kinds.  Literal kinds carry their
/// textual value as UTF-8 bytes.
pub enum DatexExpressionData {
    Statements(Vec<DatexExpression>),
    VariableDeclaration(VariableDeclaration),
    VariableAssignment(VariableAssignment),
    Variable(usize, Vec<u8>),
    Integer(Vec<u8>),
    TypedInteger(Vec<u8>),
    Decimal(Vec<u8>),
    TypedDecimal(Vec<u8>),
    Text(Vec<u8>),
    Boolean(bool),
    Endpoint(Vec<u8>),
    Null,
}

/// A parse-tree node: an expression kind together with its span.
pub struct DatexExpression {
    pub data: DatexExpressionData,
    pub span: Span,
}

/// Every span in the tree has its start at or before its end.
pub open spec fn expr_wf(e: DatexExpression) -> bool
    decreases e,
{
    &&& e.span.start <= e.span.end
    &&& match e.data {
        DatexExpressionData::Statements(cs) => exprs_wf(cs@),
        DatexExpressionData::VariableDeclaration(d) => expr_wf(*d.init_expression),
        DatexExpressionData::VariableAssignment(a) => expr_wf(*a.expression),
        _ => true,
    }
}

/// Every tree of `s` is well-formed.
pub open spec fn exprs_wf(s: Seq<DatexExpression>) -> bool
    decreases s,
{
    s.len() == 0 || (expr_wf(s[0]) && exprs_wf(s.subrange(1, s.len() as int)))
}

/// Each element of a well-formed sequence of trees is well-formed.
pub proof fn lemma_exprs_wf_index(s: Seq<DatexExpression>, i: int)
    requires
        exprs_wf(s),
        0 <= i < s.len(),
    ensures
        expr_wf(s[i]),
    decreases s.len(),
{
    if i > 0 {
        lemma_exprs_wf_index(s.subrange(1, s.len() as int), i - 1);
        assert(s.subrange(1, s.len() as int)[i - 1] == s[i]);
    }
}

/// Whether `inner` lies entirely within `outer`.
pub open spec fn span_within(inner: Span, outer: Span) -> bool {
    outer.start <= inner.start && inner.end <= outer.end
}

/// The containment invariant of the tree: every child's span lies within
/// its parent's span, recursively.
pub open spec fn spans_nested(e: DatexExpression) -> bool
    decreases e,
{
    match e.data {
        DatexExpressionData::Statements(cs) => children_nested(cs@, e.span),
        DatexExpressionData::VariableDeclaration(d) => span_within(d.init_expression.span, e.span)
            && spans_nested(*d.init_expression),
        DatexExpressionData::VariableAssignment(a) => span_within(a.expression.span, e.span)
            && spans_nested(*a.expression),
        _ => true,
    }
}

/// Every tree of `s` has its root span within `outer` and is itself nested.
pub open spec fn children_nested(s: Seq<DatexExpression>, outer: Span) -> bool
    decreases s,
{
    s.len() == 0 || (span_within(s[0].span, outer) && spans_nested(s[0]) && children_nested(
        s.subrange(1, s.len() as int),
        outer,
    ))
}

/// Whether `n` is a node of the tree rooted at `e`.
pub open spec fn in_tree(n: DatexExpression, e: DatexExpression) -> bool
    decreases e,
{
    n == e || match e.data {
        DatexExpressionData::Statements(cs) => in_trees(n, cs@),
        DatexExpressionData::VariableDeclaration(d) => in_tree(n, *d.init_expression),
        DatexExpressionData::VariableAssignment(a) => in_tree(n, *a.expression),
        _ => false,
    }
}

/// Whether `n` is a node of one of the trees of `s`.
pub open spec fn in_trees(n: DatexExpression, s: Seq<DatexExpression>) -> bool
    decreases s,
{
    s.len() > 0 && (in_tree(n, s[0]) || in_trees(n, s.subrange(1, s.len() as int)))
}

/// The better of the current candidate and node `e`: `e` wins only if its
/// span contains `p` and is strictly narrower than the candidate's; on equal
/// widths the earlier candidate is kept.
pub open spec fn better_candidate(
    best: Option<DatexExpression>,
    e: DatexExpression,
    p: int,
) -> Option<DatexExpression> {
    if !span_contains(e.span, p) {
        best
    } else {
        match best {
            Option::None => Option::Some(e),
            Option::Some(b) => if span_width(e.span) < span_width(b.span) {
                Option::Some(e)
            } else {
                Option::Some(b)
            },
        }
    }
}

/// The candidate after a pre-order visit of the tree rooted at `e` starting
/// from candidate `best`: subtrees whose root span does not contain `p` are
/// pruned.
pub open spec fn locate_in(e: DatexExpression, p: int, best: Option<DatexExpression>) -> Option<
    DatexExpression,
>
    decreases e,
{
    if !span_contains(e.span, p) {
        best
    } else {
        let cand = better_candidate(best, e, p);
        match e.data {
            DatexExpressionData::Statements(cs) => locate_in_seq(cs@, p, cand),
            DatexExpressionData::VariableDeclaration(d) => locate_in(*d.init_expression, p, cand),
            DatexExpressionData::VariableAssignment(a) => locate_in(*a.expression, p, cand),
            _ => cand,
        }
    }
}

/// The candidate after visiting each tree of `s` in order.
pub open spec fn locate_in_seq(
    s: Seq<DatexExpression>,
    p: int,
    best: Option<DatexExpression>,
) -> Option<DatexExpression>
    decreases s,
{
    if s.len() == 0 {
        best
    } else {
        locate_in_seq(s.subrange(1, s.len() as int), p, locate_in(s[0], p, best))
    }
}

/// Visitor that finds the most specific expression containing a given byte
/// position.  If several expressions contain the position, one with the
/// smallest span is chosen; on ties the first one encountered in pre-order
/// wins.
pub struct ExpressionFinder<'a> {
    pub search_pos: usize,
    pub found_expr: Option<&'a DatexExpression>,
}

impl<'a> ExpressionFinder<'a> {
    /// The candidate held by the finder, as a value.
    pub open spec fn found(&self) -> Option<DatexExpression> {
        match self.found_expr {
            Option::Some(e) => Option::Some(*e),
            Option::None => Option::None,
        }
    }

    /// The finder never holds a candidate whose span ends before it starts.
    pub open spec fn wf(&self) -> bool {
        match self.found_expr {
            Option::Some(e) => e.span.start <= e.span.end,
            Option::None => true,
        }
    }

    pub fn new(search_pos: usize) -> (r: Self)
        ensures
            r.search_pos == search_pos,
            r.found() is None,
            r.wf(),
    {
        ExpressionFinder { search_pos, found_expr: None }
    }

    /// Checks whether the given span includes the search position; if it
    /// does, the expression replaces the candidate when it is more specific
    /// (strictly smaller span).
    fn match_span(&mut self, span: Span, expr: &'a DatexExpression) -> (r: bool)
        requires
            old(self).wf(),
            expr.span == span,
            span.start <= span.end,
        ensures
            final(self).wf(),
            final(self).search_pos == old(self).search_pos,
            final(self).found() == better_candidate(
                old(self).found(),
                *expr,
                old(self).search_pos as int,
            ),
            r == span_contains(span, old(self).search_pos as int),
    {
        if span.start <= self.search_pos && self.search_pos <= span.end {
            match self.found_expr {
                Option::Some(existing) => {
                    if span.end - span.start < existing.span.end - existing.span.start {
                        self.found_expr = Some(expr);
                    }
                },
                Option::None => {
                    self.found_expr = Some(expr);
                },
            }
            true
        } else {
            false
        }
    }

    /// Pre-order walk over the tree rooted at `expr`, pruning subtrees whose
    /// root span does not contain the search position.
    #[verifier::loop_isolation(false)]
    pub fn visit_expression(&mut self, expr: &'a DatexExpression)
        requires
            old(self).wf(),
            expr_wf(*expr),
        ensures
            final(self).wf(),
            final(self).search_pos == old(self).search_pos,
            final(self).found() == locate_in(*expr, old(self).search_pos as int, old(self).found()),
        decreases *expr,
    {
        let ghost p = self.search_pos as int;
        let contains = self.match_span(expr.span, expr);
        if contains {
            match &expr.data {
                DatexExpressionData::Statements(children) => {
                    let ghost cand = self.found();
                    proof {
                        assert(children@.subrange(0, children@.len() as int) =~= children@);
                        assert(*children == expr.data->Statements_0);
                    }
                    let mut k: usize = 0;
                    while k < children.len()
                        invariant
                            k <= children@.len(),
                            self.wf(),
                            self.search_pos as int == p,
                            locate_in_seq(children@, p, cand) == locate_in_seq(
                                children@.subrange(k as int, children@.len() as int),
                                p,
                                self.found(),
                            ),
                        decreases children@.len() - k,
                    {
                        proof {
                            lemma_exprs_wf_index(children@, k as int);
                            assert(decreases_to!(*expr => expr.data));
                            assert(decreases_to!(expr.data => expr.data->Statements_0));
                            assert(decreases_to!(
                                expr.data->Statements_0 => expr.data->Statements_0@));
                            assert(decreases_to!(
                                expr.data->Statements_0@ => expr.data->Statements_0@[k as int]));
                            assert(decreases_to!(*expr => children@[k as int]));
                            let rest = children@.subrange(k as int, children@.len() as int);
                            assert(rest[0] == children@[k as int]);
                            assert(rest.subrange(1, rest.len() as int) =~= children@.subrange(
                                k as int + 1,
                                children@.len() as int,
                            ));
                        }
                        self.visit_expression(&children[k]);
                        k = k + 1;
                    }
                    proof {
                        assert(children@.subrange(
                            children@.len() as int,
                            children@.len() as int,
                        ) =~= Seq::<DatexExpression>::empty());
                    }
                },
                DatexExpressionData::VariableDeclaration(d) => {
                    proof {
                        assert(decreases_to!(*expr => *d.init_expression));
                    }
                    self.visit_expression(&d.init_expression);
                },
                DatexExpressionData::VariableAssignment(a) => {
                    proof {
                        assert(decreases_to!(*expr => *a.expression));
                    }
                    self.visit_expression(&a.expression);
                },
                _ => {},
            }
        }
    }
}

} // verus!

verus! {

/// Within a tree whose spans are nested, every node's span lies within the
/// root's span.
proof fn lemma_in_tree_within(n: DatexExpression, e: DatexExpression)
    requires
        spans_nested(e),
        in_tree(n, e),
    ensures
        span_within(n.span, e.span),
    decreases e,
{
    if n != e {
        match e.data {
            DatexExpressionData::Statements(cs) => {
                lemma_in_trees_within(n, cs@, e.span);
            },
            DatexExpressionData::VariableDeclaration(d) => {
                lemma_in_tree_within(n, *d.init_expression);
            },
            DatexExpressionData::VariableAssignment(a) => {
                lemma_in_tree_within(n, *a.expression);
            },
            _ => {},
        }
    }
}

proof fn lemma_in_trees_within(n: DatexExpression, s: Seq<DatexExpression>, outer: Span)
    requires
        children_nested(s, outer),
        in_trees(n, s),
    ensures
        span_within(n.span, outer),
    decreases s,
{
    if in_tree(n, s[0]) {
        lemma_in_tree_within(n, s[0]);
    } else {
        lemma_in_trees_within(n, s.subrange(1, s.len() as int), outer);
    }
}

proof fn lemma_locate_in_props(e: DatexExpression, p: int, best: Option<DatexExpression>)
    requires
        spans_nested(e),
        best matches Some(b) ==> span_contains(b.span, p),
    ensures
        locate_in(e, p, best) is None ==> best is None,
        best matches Some(b) ==> locate_in(e, p, best) matches Some(r) && span_width(r.span)
            <= span_width(b.span),
        span_contains(e.span, p) ==> locate_in(e, p, best) is Some,
        locate_in(e, p, best) matches Some(r) ==> span_contains(r.span, p) && (best
            == Some(r) || in_tree(r, e)),
        locate_in(e, p, best) matches Some(r) ==> forall|n: DatexExpression|
            (#[trigger] in_tree(n, e)) && span_contains(n.span, p) ==> span_width(r.span)
                <= span_width(n.span),
    decreases e,
{
    if !span_contains(e.span, p) {
        match locate_in(e, p, best) {
            Option::Some(r) => {
                assert forall|n: DatexExpression|
                    (#[trigger] in_tree(n, e)) && span_contains(n.span, p) implies span_width(
                    r.span,
                ) <= span_width(n.span) by {
                    lemma_in_tree_within(n, e);
                }
            },
            Option::None => {},
        }
    } else {
        let cand = better_candidate(best, e, p);
        match e.data {
            DatexExpressionData::Statements(cs) => {
                lemma_locate_in_seq_props(cs@, p, cand, e.span);
                match locate_in(e, p, best) {
                    Option::Some(r) => {
                        assert forall|n: DatexExpression|
                            (#[trigger] in_tree(n, e)) && span_contains(n.span, p) implies
                            span_width(r.span) <= span_width(n.span) by {
                            if n != e {
                                assert(in_trees(n, cs@));
                            }
                        }
                    },
                    Option::None => {},
                }
            },
            DatexExpressionData::VariableDeclaration(d) => {
                lemma_locate_in_props(*d.init_expression, p, cand);
                match locate_in(e, p, best) {
                    Option::Some(r) => {
                        assert forall|n: DatexExpression|
                            (#[trigger] in_tree(n, e)) && span_contains(n.span, p) implies
                            span_width(r.span) <= span_width(n.span) by {
                            if n != e {
                                assert(in_tree(n, *d.init_expression));
                            }
                        }
                    },
                    Option::None => {},
                }
            },
            DatexExpressionData::VariableAssignment(a) => {
                lemma_locate_in_props(*a.expression, p, cand);
                match locate_in(e, p, best) {
                    Option::Some(r) => {
                        assert forall|n: DatexExpression|
                            (#[trigger] in_tree(n, e)) && span_contains(n.span, p) implies
                            span_width(r.span) <= span_width(n.span) by {
                            if n != e {
                                assert(in_tree(n, *a.expression));
                            }
                        }
                    },
                    Option::None => {},
                }
            },
            _ => {},
        }
    }
}

proof fn lemma_locate_in_seq_props(
    s: Seq<DatexExpression>,
    p: int,
    best: Option<DatexExpression>,
    outer: Span,
)
    requires
        children_nested(s, outer),
        best matches Some(b) ==> span_contains(b.span, p),
    ensures
        locate_in_seq(s, p, best) is None ==> best is None,
        best matches Some(b) ==> locate_in_seq(s, p, best) matches Some(r) && span_width(r.span)
            <= span_width(b.span),
        locate_in_seq(s, p, best) matches Some(r) ==> span_contains(r.span, p) && (best
            == Some(r) || in_trees(r, s)),
        locate_in_seq(s, p, best) matches Some(r) ==> forall|n: DatexExpression|
            (#[trigger] in_trees(n, s)) && span_contains(n.span, p) ==> span_width(r.span)
                <= span_width(n.span),
    decreases s,
{
    if s.len() == 0 {
    } else {
        let rest = s.subrange(1, s.len() as int);
        lemma_locate_in_props(s[0], p, best);
        let mid = locate_in(s[0], p, best);
        lemma_locate_in_seq_props(rest, p, mid, outer);
        match locate_in_seq(s, p, best) {
            Option::Some(r) => {
                assert(locate_in_seq(s, p, best) == locate_in_seq(rest, p, mid));
                assert forall|n: DatexExpression|
                    (#[trigger] in_trees(n, s)) && span_contains(n.span, p) implies span_width(
                    r.span,
                ) <= span_width(n.span) by {
                    if in_tree(n, s[0]) {
                        lemma_in_tree_within(n, s[0]);
                        assert(span_contains(s[0].span, p));
                        assert(mid is Some);
                        assert(span_width(mid.unwrap().span) <= span_width(n.span));
                        assert(span_width(r.span) <= span_width(mid.unwrap().span));
                    } else {
                        assert(in_trees(n, rest));
                    }
                }
            },
            Option::None => {},
        }
    }
}

/// Smallest-span property: over a tree whose spans are properly nested, the
/// locator finds a node exactly when the root span contains the position,
/// and it returns a node of the tree whose span contains the position such
/// that no node of the tree containing the position has a strictly smaller
/// span.
pub proof fn lemma_locate_smallest(e: DatexExpression, p: int)
    requires
        spans_nested(e),
    ensures
        locate_in(e, p, Option::<DatexExpression>::None) is Some <==> span_contains(e.span, p),
        locate_in(e, p, Option::<DatexExpression>::None) matches Some(r) ==> in_tree(r, e)
            && span_contains(r.span, p) && forall|n: DatexExpression|
            (#[trigger] in_tree(n, e)) && span_contains(n.span, p) ==> span_width(r.span)
                <= span_width(n.span),
{
    lemma_locate_in_props(e, p, Option::<DatexExpression>::None);
}

} // verus!
