use lumelir::cli::{output_path, resolve_input, InputError, InputSource};
use lumelir::error::CodegenError;

#[test]
fn no_argument_on_terminal_is_an_error() {
    assert_eq!(resolve_input(None, true, false), Err(InputError::NoInput));
    let msg = InputError::NoInput.message();
    assert!(msg.starts_with("no input provided."));
    assert!(msg.contains("`-` to read stdin explicitly"));
}

#[test]
fn no_argument_with_piped_stdin_reads_stdin() {
    assert_eq!(resolve_input(None, false, false), Ok(InputSource::Stdin));
}

#[test]
fn dash_reads_stdin() {
    assert_eq!(resolve_input(Some("-"), true, false), Ok(InputSource::Stdin));
    assert_eq!(resolve_input(Some("-"), false, true), Ok(InputSource::Stdin));
}

#[test]
fn existing_file_is_read_from_its_path() {
    assert_eq!(
        resolve_input(Some("prog.lua"), true, true),
        Ok(InputSource::File("prog.lua".to_string()))
    );
}

#[test]
fn anything_else_is_inline_code() {
    assert_eq!(
        resolve_input(Some("print(1)"), true, false),
        Ok(InputSource::Inline("print(1)".to_string()))
    );
    assert_eq!(
        resolve_input(Some("--"), true, false),
        Ok(InputSource::Inline("--".to_string()))
    );
}

#[test]
fn labels_name_the_source() {
    assert_eq!(InputSource::Stdin.label(), "<stdin>");
    assert_eq!(InputSource::File("a/b.lua".to_string()).label(), "a/b.lua");
    assert_eq!(InputSource::Inline("print(1)".to_string()).label(), "<inline>");
}

#[test]
fn output_defaults_to_input_without_extension() {
    assert_eq!(output_path("examples/hello.lua", None), "examples/hello");
    assert_eq!(output_path("hello", None), "hello");
    assert_eq!(output_path("hello.lua", Some("out/bin")), "out/bin");
}

#[test]
fn codegen_error_messages() {
    assert_eq!(CodegenError::UnsupportedExpr("x".to_string()).message(), "unsupported expression: x");
    assert_eq!(CodegenError::VerificationFailed.message(), "MLIR module verification failed");
    assert_eq!(CodegenError::LoweringFailed("boom".to_string()).message(), "MLIR lowering failed: boom");
    assert_eq!(CodegenError::LinkFailed("cc".to_string()).message(), "linker failed: cc");
    assert_eq!(CodegenError::Io("denied".to_string()).message(), "I/O error: denied");
}
