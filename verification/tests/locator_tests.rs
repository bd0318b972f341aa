use datex_cli::ast::{
    DatexExpression, DatexExpressionData, ExpressionFinder, Span, VariableDeclaration,
    VariableShape,
};

fn integer(text: &[u8], start: usize, end: usize) -> DatexExpression {
    DatexExpression {
        data: DatexExpressionData::Integer(text.to_vec()),
        span: Span { start, end },
    }
}

#[test]
fn smallest_span_wins_in_nested_chain() {
    // Spans 0..10 contains 2..8 contains 4..6; all contain offset 5: the
    // innermost (smallest) node must win.
    let inner = integer(b"42", 4, 6);
    let decl = DatexExpression {
        data: DatexExpressionData::VariableDeclaration(VariableDeclaration {
            id: Some(0),
            name: b"x".to_vec(),
            shape: VariableShape::Value,
            init_expression: Box::new(inner),
        }),
        span: Span { start: 2, end: 8 },
    };
    let root = DatexExpression {
        data: DatexExpressionData::Statements(vec![decl]),
        span: Span { start: 0, end: 10 },
    };
    let mut finder = ExpressionFinder::new(5);
    finder.visit_expression(&root);
    let found = finder.found_expr.unwrap();
    assert_eq!(found.span, Span { start: 4, end: 6 });
    assert!(matches!(found.data, DatexExpressionData::Integer(_)));
}

#[test]
fn equal_width_ties_go_to_the_first_in_preorder() {
    // Both siblings contain offset 3 (boundaries are inclusive) and have
    // equal widths: the first one encountered must be kept.
    let a = integer(b"1", 0, 3);
    let b = integer(b"2", 3, 6);
    let root = DatexExpression {
        data: DatexExpressionData::Statements(vec![a, b]),
        span: Span { start: 0, end: 6 },
    };
    let mut finder = ExpressionFinder::new(3);
    finder.visit_expression(&root);
    let found = finder.found_expr.unwrap();
    assert_eq!(found.span, Span { start: 0, end: 3 });
}

#[test]
fn position_outside_root_finds_nothing() {
    let root = DatexExpression {
        data: DatexExpressionData::Statements(vec![integer(b"1", 0, 1)]),
        span: Span { start: 0, end: 4 },
    };
    let mut finder = ExpressionFinder::new(9);
    finder.visit_expression(&root);
    assert!(finder.found_expr.is_none());
}

#[test]
fn boundary_offsets_belong_to_a_span() {
    let root = integer(b"7", 2, 5);
    let mut finder = ExpressionFinder::new(2);
    finder.visit_expression(&root);
    assert!(finder.found_expr.is_some());
    let mut finder = ExpressionFinder::new(5);
    finder.visit_expression(&root);
    assert!(finder.found_expr.is_some());
}

#[test]
fn pruned_subtrees_are_not_searched() {
    // The declaration does not contain offset 9, so its narrow child must
    // not be considered even though the root is wide enough.
    let inner = integer(b"1", 3, 4);
    let decl = DatexExpression {
        data: DatexExpressionData::VariableDeclaration(VariableDeclaration {
            id: None,
            name: b"y".to_vec(),
            shape: VariableShape::Reference,
            init_expression: Box::new(inner),
        }),
        span: Span { start: 2, end: 6 },
    };
    let root = DatexExpression {
        data: DatexExpressionData::Statements(vec![decl]),
        span: Span { start: 0, end: 10 },
    };
    let mut finder = ExpressionFinder::new(9);
    finder.visit_expression(&root);
    let found = finder.found_expr.unwrap();
    assert_eq!(found.span, Span { start: 0, end: 10 });
}
