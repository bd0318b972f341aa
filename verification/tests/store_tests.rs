use datex_cli::ast::{DatexExpression, DatexExpressionData, Span, VariableShape};
use datex_cli::errors::CompilerError;
use datex_cli::store::{CompileResult, LanguageServerBackend, VariableMetadata};

fn variable(id: usize, name: &[u8], var_type: &[u8]) -> VariableMetadata {
    VariableMetadata {
        id,
        name: name.to_vec(),
        shape: VariableShape::Value,
        var_type: Some(var_type.to_vec()),
    }
}

fn trivial_tree(len: usize) -> DatexExpression {
    DatexExpression {
        data: DatexExpressionData::Statements(vec![]),
        span: Span { start: 0, end: len },
    }
}

fn two_failures() -> CompilerError {
    CompilerError::Multiple(vec![
        CompilerError::Spanned(
            Box::new(CompilerError::Leaf(b"bad token".to_vec())),
            Span { start: 0, end: 1 },
        ),
        CompilerError::Spanned(
            Box::new(CompilerError::Leaf(b"bad value".to_vec())),
            Span { start: 2, end: 3 },
        ),
    ])
}

#[test]
fn failed_compile_stores_diagnostics() {
    let mut store = LanguageServerBackend::new();
    store.update_file_contents(
        b"a.dx".to_vec(),
        b"x!!".to_vec(),
        CompileResult::Failure(two_failures()),
    );
    assert_eq!(store.diagnostics(b"a.dx").len(), 2);
}

#[test]
fn successful_recompile_replaces_diagnostics() {
    // After a change that produced diagnostics, a change that compiles
    // cleanly leaves an empty list: nothing leaks through.
    let mut store = LanguageServerBackend::new();
    store.update_file_contents(
        b"a.dx".to_vec(),
        b"x!!".to_vec(),
        CompileResult::Failure(two_failures()),
    );
    assert_eq!(store.diagnostics(b"a.dx").len(), 2);
    store.update_file_contents(
        b"a.dx".to_vec(),
        b"val x = 1".to_vec(),
        CompileResult::Success { ast: trivial_tree(9), variables: vec![variable(0, b"x", b"integer")] },
    );
    assert_eq!(store.diagnostics(b"a.dx").len(), 0);
}

#[test]
fn failed_compile_keeps_the_last_good_tree() {
    let mut store = LanguageServerBackend::new();
    store.update_file_contents(
        b"a.dx".to_vec(),
        b"val x = 1".to_vec(),
        CompileResult::Success { ast: trivial_tree(9), variables: vec![variable(0, b"x", b"integer")] },
    );
    store.update_file_contents(
        b"a.dx".to_vec(),
        b"val x = !".to_vec(),
        CompileResult::Failure(CompilerError::Leaf(b"oops".to_vec())),
    );
    let doc = store.get(b"a.dx").unwrap();
    assert_eq!(doc.content, b"val x = !".to_vec());
    assert!(doc.ast.is_some());
    assert_eq!(doc.variables.len(), 1);
    assert_eq!(doc.diagnostics.len(), 1);
}

#[test]
fn unknown_path_has_no_entry_and_no_diagnostics() {
    let store = LanguageServerBackend::new();
    assert!(store.get(b"missing.dx").is_none());
    assert_eq!(store.diagnostics(b"missing.dx").len(), 0);
}

#[test]
fn find_variables_by_prefix_keeps_file_then_table_order() {
    let mut store = LanguageServerBackend::new();
    store.update_file_contents(
        b"a.dx".to_vec(),
        b"".to_vec(),
        CompileResult::Success {
            ast: trivial_tree(0),
            variables: vec![variable(0, b"my_var", b"integer"), variable(1, b"other", b"text")],
        },
    );
    store.update_file_contents(
        b"b.dx".to_vec(),
        b"".to_vec(),
        CompileResult::Success {
            ast: trivial_tree(0),
            variables: vec![variable(2, b"my_second", b"decimal")],
        },
    );
    let found = store.find_variable_starting_with(b"my");
    assert_eq!(found.len(), 2);
    assert_eq!(found[0].name, b"my_var".to_vec());
    assert_eq!(found[1].name, b"my_second".to_vec());
    let all = store.find_variable_starting_with(b"");
    assert_eq!(all.len(), 3);
    let none = store.find_variable_starting_with(b"zz");
    assert_eq!(none.len(), 0);
}

#[test]
fn prefix_matching_is_case_sensitive() {
    let mut store = LanguageServerBackend::new();
    store.update_file_contents(
        b"a.dx".to_vec(),
        b"".to_vec(),
        CompileResult::Success {
            ast: trivial_tree(0),
            variables: vec![variable(0, b"My_var", b"integer")],
        },
    );
    assert_eq!(store.find_variable_starting_with(b"my").len(), 0);
    assert_eq!(store.find_variable_starting_with(b"My").len(), 1);
}

#[test]
fn get_variable_by_id_scans_all_files() {
    let mut store = LanguageServerBackend::new();
    store.update_file_contents(
        b"a.dx".to_vec(),
        b"".to_vec(),
        CompileResult::Success {
            ast: trivial_tree(0),
            variables: vec![variable(7, b"alpha", b"integer")],
        },
    );
    store.update_file_contents(
        b"b.dx".to_vec(),
        b"".to_vec(),
        CompileResult::Success {
            ast: trivial_tree(0),
            variables: vec![variable(9, b"beta", b"text")],
        },
    );
    assert_eq!(store.get_variable_by_id(9).unwrap().name, b"beta".to_vec());
    assert_eq!(store.get_variable_by_id(7).unwrap().name, b"alpha".to_vec());
    assert!(store.get_variable_by_id(8).is_none());
}

#[test]
fn update_replaces_in_place_and_appends_new_paths() {
    let mut store = LanguageServerBackend::new();
    store.update_file_contents(b"a.dx".to_vec(), b"1".to_vec(), CompileResult::Success {
        ast: trivial_tree(1),
        variables: vec![],
    });
    store.update_file_contents(b"b.dx".to_vec(), b"2".to_vec(), CompileResult::Success {
        ast: trivial_tree(1),
        variables: vec![],
    });
    store.update_file_contents(b"a.dx".to_vec(), b"3".to_vec(), CompileResult::Success {
        ast: trivial_tree(1),
        variables: vec![],
    });
    assert_eq!(store.files.len(), 2);
    assert_eq!(store.get(b"a.dx").unwrap().content, b"3".to_vec());
    assert_eq!(store.get(b"b.dx").unwrap().content, b"2".to_vec());
}
