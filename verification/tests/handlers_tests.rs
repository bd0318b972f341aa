use datex_cli::ast::{
    DatexExpression, DatexExpressionData, Span, VariableDeclaration, VariableShape,
};
use datex_cli::handlers::previous_word_start;
use datex_cli::store::{CompileResult, LanguageServerBackend, VariableMetadata};

fn variable(id: usize, name: &[u8], var_type: &[u8]) -> VariableMetadata {
    VariableMetadata {
        id,
        name: name.to_vec(),
        shape: VariableShape::Value,
        var_type: Some(var_type.to_vec()),
    }
}

fn store_with(content: &[u8], ast: DatexExpression, variables: Vec<VariableMetadata>) -> LanguageServerBackend {
    let mut store = LanguageServerBackend::new();
    store.update_file_contents(
        b"a.dx".to_vec(),
        content.to_vec(),
        CompileResult::Success { ast, variables },
    );
    store
}

fn statements(children: Vec<DatexExpression>, start: usize, end: usize) -> DatexExpression {
    DatexExpression { data: DatexExpressionData::Statements(children), span: Span { start, end } }
}

#[test]
fn completion_prefix_is_the_trailing_identifier() {
    // Cursor at byte offset 11 of `"let my_var"` (with the quotes): the
    // prefix is the identifier run `my_var`.
    let text = b"\"let my_var\"";
    let s = previous_word_start(text, 11);
    assert_eq!(&text[s..11], b"my_var");
}

#[test]
fn prefix_of_unquoted_line_via_the_store() {
    let store = store_with(b"let my_var", statements(vec![], 0, 10), vec![]);
    // End of the single line: clamped from a large character index.
    assert_eq!(store.get_previous_text_at_position(b"a.dx", 0, 10), b"my_var".to_vec());
}

#[test]
fn prefix_stops_at_non_word_characters() {
    let text = b"a+bc_9";
    let s = previous_word_start(text, 6);
    assert_eq!(&text[s..6], b"bc_9");
    let s = previous_word_start(text, 2);
    assert_eq!(&text[s..2], b"");
}

#[test]
fn unicode_letters_belong_to_the_prefix() {
    // é is alphanumeric and belongs to the identifier; € is not and stops
    // the scan.
    let text = "v\u{e9}1".as_bytes();
    let s = previous_word_start(text, text.len());
    assert_eq!(s, 0);
    let text = "\u{20ac}x".as_bytes();
    let s = previous_word_start(text, text.len());
    assert_eq!(&text[s..], b"x");
}

#[test]
fn invalid_utf8_stops_the_prefix_scan() {
    // 0xED 0xA0 0x80 encodes a surrogate, which is no character at all and
    // therefore not part of an identifier.
    let text: Vec<u8> = vec![0xED, 0xA0, 0x80, b'x'];
    let s = previous_word_start(&text, 4);
    assert_eq!(&text[s..], b"x");
}

#[test]
fn prefix_of_unknown_path_is_empty() {
    let store = LanguageServerBackend::new();
    assert_eq!(store.get_previous_text_at_position(b"a.dx", 0, 0), Vec::<u8>::new());
}

#[test]
fn hover_renders_variable_details() {
    let decl = DatexExpression {
        data: DatexExpressionData::VariableDeclaration(VariableDeclaration {
            id: Some(0),
            name: b"x".to_vec(),
            shape: VariableShape::Value,
            init_expression: Box::new(DatexExpression {
                data: DatexExpressionData::Integer(b"1".to_vec()),
                span: Span { start: 6, end: 8 },
            }),
        }),
        span: Span { start: 0, end: 8 },
    };
    let tree = statements(vec![decl], 0, 9);
    let store = store_with(b"val x = 1", tree, vec![variable(0, b"x", b"integer")]);
    // Offset 5 is the x of the declaration; the declaration is the smallest
    // containing node there.
    assert_eq!(store.hover(b"a.dx", 0, 5), Some(b"val x: integer".to_vec()));
}

#[test]
fn hover_renders_literal_values() {
    let lit = DatexExpression {
        data: DatexExpressionData::Integer(b"42".to_vec()),
        span: Span { start: 0, end: 2 },
    };
    let tree = statements(vec![lit], 0, 3);
    let store = store_with(b"42;", tree, vec![]);
    assert_eq!(store.hover(b"a.dx", 0, 1), Some(b"42".to_vec()));
}

#[test]
fn hover_outside_the_tree_gives_nothing() {
    let store = store_with(b"x", statements(vec![], 0, 1), vec![]);
    assert_eq!(store.hover(b"missing.dx", 0, 0), None);
}

#[test]
fn hover_on_unknown_variable_id_gives_nothing() {
    let access = DatexExpression {
        data: DatexExpressionData::Variable(42, b"ghost".to_vec()),
        span: Span { start: 0, end: 5 },
    };
    let tree = statements(vec![access], 0, 5);
    let store = store_with(b"ghost", tree, vec![]);
    assert_eq!(store.hover(b"a.dx", 0, 2), None);
}

#[test]
fn completion_lists_matching_variables_with_details() {
    let store = store_with(
        b"let my",
        statements(vec![], 0, 6),
        vec![variable(0, b"my_var", b"integer"), variable(1, b"other", b"text")],
    );
    let items = store.completion(b"a.dx", 0, 6);
    assert_eq!(items.len(), 1);
    assert_eq!(items[0].label, b"my_var".to_vec());
    assert_eq!(items[0].detail, b"val my_var: integer".to_vec());
}

#[test]
fn completion_on_unknown_path_is_empty() {
    let store = LanguageServerBackend::new();
    assert_eq!(store.completion(b"a.dx", 0, 0).len(), 0);
}

#[test]
fn variable_without_type_renders_unknown() {
    let store = store_with(
        b"r",
        statements(vec![], 0, 1),
        vec![VariableMetadata {
            id: 0,
            name: b"r".to_vec(),
            shape: VariableShape::Reference,
            var_type: None,
        }],
    );
    let items = store.completion(b"a.dx", 0, 1);
    assert_eq!(items[0].detail, b"ref r: unknown".to_vec());
}

#[test]
fn queries_on_an_out_of_range_line_fail_explicitly() {
    // A position whose line lies beyond the buffer is not a position of the
    // document: reads answer with nothing rather than degrading.
    let store = store_with(
        b"let my",
        statements(vec![], 0, 6),
        vec![variable(0, b"my_var", b"integer")],
    );
    assert_eq!(store.position_to_byte_offset(b"a.dx", 7, 0), None);
    assert_eq!(store.hover(b"a.dx", 7, 0), None);
    assert_eq!(store.completion(b"a.dx", 7, 0).len(), 0);
    assert_eq!(store.get_previous_text_at_position(b"a.dx", 7, 0), Vec::<u8>::new());
}

#[test]
fn position_to_byte_offset_resolves_stored_text() {
    let store = store_with(b"ab\ncd", statements(vec![], 0, 5), vec![]);
    assert_eq!(store.position_to_byte_offset(b"a.dx", 1, 1), Some(4));
    assert_eq!(store.position_to_byte_offset(b"missing.dx", 0, 0), None);
}
