use datex_cli::ast::Span;
use datex_cli::errors::{
    collect_compiler_errors, convert_byte_range_to_document_range, CompilerError,
};
use datex_cli::position::Position;

#[test]
fn flatten_keeps_compiler_order() {
    // Multiple([Spanned(e1, [0,3)), Multiple([Spanned(e2, [5,8))])]) yields
    // exactly two diagnostics, in order: the range for [0,3) then [5,8).
    let text = b"0123456789";
    let e1 = CompilerError::Spanned(
        Box::new(CompilerError::Leaf(b"first".to_vec())),
        Span { start: 0, end: 3 },
    );
    let e2 = CompilerError::Spanned(
        Box::new(CompilerError::Leaf(b"second".to_vec())),
        Span { start: 5, end: 8 },
    );
    let tree = CompilerError::Multiple(vec![e1, CompilerError::Multiple(vec![e2])]);
    let diags = collect_compiler_errors(&tree, text);
    assert_eq!(diags.len(), 2);
    assert_eq!(diags[0].range.start, Position { line: 0, character: 0 });
    assert_eq!(diags[0].range.end, Position { line: 0, character: 3 });
    assert_eq!(diags[0].message, b"first".to_vec());
    assert_eq!(diags[1].range.start, Position { line: 0, character: 5 });
    assert_eq!(diags[1].range.end, Position { line: 0, character: 8 });
    assert_eq!(diags[1].message, b"second".to_vec());
}

#[test]
fn spanless_leaf_covers_the_whole_document() {
    // A leaf with no span over a 10-byte text becomes one diagnostic from
    // the origin to the document's last position.
    let text = b"abcd\nefghi";
    let tree = CompilerError::Leaf(b"broken".to_vec());
    let diags = collect_compiler_errors(&tree, text);
    assert_eq!(diags.len(), 1);
    assert_eq!(diags[0].range.start, Position { line: 0, character: 0 });
    assert_eq!(diags[0].range.end, Position { line: 1, character: 5 });
    assert_eq!(diags[0].message, b"broken".to_vec());
}

#[test]
fn empty_multiple_yields_no_diagnostics() {
    let diags = collect_compiler_errors(&CompilerError::Multiple(vec![]), b"x");
    assert_eq!(diags.len(), 0);
}

#[test]
fn spanned_message_comes_from_the_inner_error() {
    // The span of the outermost wrapper wins; the inner error only supplies
    // the message, and is not flattened further.
    let text = b"abc";
    let inner = CompilerError::Spanned(
        Box::new(CompilerError::Leaf(b"deep".to_vec())),
        Span { start: 0, end: 1 },
    );
    let tree = CompilerError::Spanned(Box::new(inner), Span { start: 1, end: 2 });
    let diags = collect_compiler_errors(&tree, text);
    assert_eq!(diags.len(), 1);
    assert_eq!(diags[0].range.start, Position { line: 0, character: 1 });
    assert_eq!(diags[0].range.end, Position { line: 0, character: 2 });
    assert_eq!(diags[0].message, b"deep".to_vec());
}

#[test]
fn multiple_messages_join_with_semicolons() {
    let tree = CompilerError::Multiple(vec![
        CompilerError::Leaf(b"one".to_vec()),
        CompilerError::Leaf(b"two".to_vec()),
    ]);
    assert_eq!(tree.message(), b"one; two".to_vec());
}

#[test]
fn in_range_spans_convert_to_their_positions() {
    let range = convert_byte_range_to_document_range(Span { start: 3, end: 5 }, b"ab\ncd");
    assert_eq!(range.start, Position { line: 1, character: 0 });
    assert_eq!(range.end, Position { line: 1, character: 2 });
}
