use datex_cli::config::{choose_config_source, has_dx_extension, ConfigSource};
use datex_cli::repl::{
    format_result_value, format_script_error, indent_continuation_lines, parse_repl_input,
    ReplCommand, ReplOptions, ScriptError,
};
use datex_cli::workbench::{
    comhub_counter_lines, direction_arrow, endpoint_label, interface_label, metadata_lines,
    usize_to_decimal, InterfaceDirection, InterfaceInfo, SocketInfo,
};

#[test]
fn prompt_commands_are_recognized_after_trimming() {
    assert!(matches!(parse_repl_input(b"clear"), ReplCommand::Clear));
    assert!(matches!(parse_repl_input(b"  clear \n"), ReplCommand::Clear));
    assert!(matches!(parse_repl_input(b"comhub"), ReplCommand::ComHubInfo));
}

#[test]
fn trace_lines_carry_the_endpoint_text() {
    match parse_repl_input(b"trace @me") {
        ReplCommand::Trace(e) => assert_eq!(e, b"@me".to_vec()),
        _ => panic!("expected a trace command"),
    }
}

#[test]
fn other_lines_are_executed_verbatim() {
    match parse_repl_input(b"val x = 10;") {
        ReplCommand::Execute(l) => assert_eq!(l, b"val x = 10;".to_vec()),
        _ => panic!("expected an execute command"),
    }
}

#[test]
fn continuation_lines_are_indented() {
    assert_eq!(indent_continuation_lines(b"a\nb\nc"), b"a\n  b\n  c".to_vec());
    assert_eq!(indent_continuation_lines(b"single"), b"single".to_vec());
}

#[test]
fn script_errors_are_labelled_in_red() {
    assert_eq!(
        format_script_error(&ScriptError::Compiler(b"bad".to_vec())),
        b"\x1b[31m[Compiler Error] bad\x1b[0m".to_vec()
    );
    assert_eq!(
        format_script_error(&ScriptError::Execution(b"boom".to_vec())),
        b"\x1b[31m[Execution Error] boom\x1b[0m".to_vec()
    );
}

#[test]
fn result_values_get_the_prompt_marker() {
    assert_eq!(format_result_value(b"(1, 2)\nrest"), b"< (1, 2)\n  rest".to_vec());
}

#[test]
fn default_repl_options_are_quiet() {
    let options = ReplOptions::default();
    assert!(!options.verbose);
    assert!(options.config_path.is_none());
}

#[test]
fn explicit_config_path_is_read() {
    match choose_config_source(Some(b"my.dx".to_vec()), Some(b"/home/u".to_vec()), &vec![]) {
        ConfigSource::ReadFile(f) => assert_eq!(f, b"my.dx".to_vec()),
        _ => panic!("expected a read"),
    }
}

#[test]
fn first_found_config_file_is_read() {
    let files = vec![b"/home/u/.datex/a.dx".to_vec(), b"/home/u/.datex/b.dx".to_vec()];
    match choose_config_source(None, Some(b"/home/u".to_vec()), &files) {
        ConfigSource::ReadFile(f) => assert_eq!(f, b"/home/u/.datex/a.dx".to_vec()),
        _ => panic!("expected a read"),
    }
}

#[test]
fn fresh_config_is_created_when_none_exists() {
    match choose_config_source(None, Some(b"/home/u".to_vec()), &vec![]) {
        ConfigSource::CreateNew(d) => assert_eq!(d, b"/home/u".to_vec()),
        _ => panic!("expected a fresh file"),
    }
}

#[test]
fn missing_home_uses_a_temporary_endpoint() {
    assert!(matches!(choose_config_source(None, None, &vec![]), ConfigSource::Temporary));
    assert!(matches!(
        choose_config_source(None, Some(Vec::new()), &vec![]),
        ConfigSource::Temporary
    ));
}

#[test]
fn dx_extension_is_detected() {
    assert!(has_dx_extension(b"config.dx"));
    assert!(!has_dx_extension(b"config.dxx"));
    assert!(!has_dx_extension(b"config.txt"));
    assert!(!has_dx_extension(b"dx"));
}

#[test]
fn decimal_rendering_is_exact() {
    assert_eq!(usize_to_decimal(0), b"0".to_vec());
    assert_eq!(usize_to_decimal(7), b"7".to_vec());
    assert_eq!(usize_to_decimal(10), b"10".to_vec());
    assert_eq!(usize_to_decimal(4096), b"4096".to_vec());
}

#[test]
fn dashboard_counter_lines() {
    let lines = comhub_counter_lines(2, 13);
    assert_eq!(lines[0], b"Registered Interfaces: 2".to_vec());
    assert_eq!(lines[1], b"Connected Sockets: 13".to_vec());
}

#[test]
fn dashboard_metadata_lines() {
    let lines = metadata_lines(b"@me", b"0.1.0", 5);
    assert_eq!(lines[0], b"Endpoint: @me".to_vec());
    assert_eq!(lines[1], b"Version: 0.1.0".to_vec());
    assert_eq!(lines[2], b"Allocated pointers: 5".to_vec());
}

#[test]
fn interface_headings_show_optional_names() {
    let named = InterfaceInfo {
        channel: b"websocket".to_vec(),
        name: Some(b"main".to_vec()),
        sockets: vec![],
    };
    assert_eq!(interface_label(&named), b"websocket (main)".to_vec());
    let bare = InterfaceInfo { channel: b"serial".to_vec(), name: None, sockets: vec![] };
    assert_eq!(interface_label(&bare), b"serial".to_vec());
}

#[test]
fn socket_arrows_and_endpoints() {
    assert_eq!(direction_arrow(InterfaceDirection::In), " \u{2500}\u{2500}\u{25b6} ".as_bytes().to_vec());
    assert_eq!(direction_arrow(InterfaceDirection::Out), " \u{25c0}\u{2500}\u{2500} ".as_bytes().to_vec());
    assert_eq!(
        direction_arrow(InterfaceDirection::InOut),
        " \u{25c0}\u{2500}\u{2500}\u{25b6} ".as_bytes().to_vec()
    );
    let known = SocketInfo { direction: InterfaceDirection::In, endpoint: Some(b"@a".to_vec()) };
    assert_eq!(endpoint_label(&known), b"@a".to_vec());
    let unknown = SocketInfo { direction: InterfaceDirection::Out, endpoint: None };
    assert_eq!(endpoint_label(&unknown), b"unknown".to_vec());
}
