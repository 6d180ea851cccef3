//! The decisions of the command-line front end: where `run` reads its
//! source from and how its diagnostics label it, and where `compile`
//! writes its binary. Reading, writing and spawning stay with the
//! caller.

use vstd::prelude::*;
use vstd::utf8::*;

verus! {

broadcast use vstd::utf8::encode_utf8_decode_utf8;

/// Where `lumelir run [INPUT]` takes its source from.
#[derive(Debug, PartialEq, Eq)]
pub enum InputSource {
    /// Read standard input; diagnostics say `<stdin>`.
    Stdin,
    /// Read the named file; diagnostics show its path.
    File(String),
    /// The argument itself is Lua code; diagnostics say `<inline>`.
    Inline(String),
}

/// Why no source could be chosen.
#[derive(Debug, PartialEq, Eq)]
pub enum InputError {
    /// No argument and standard input is a terminal.
    NoInput,
}

/// Choose the source of `lumelir run [INPUT]`: no argument reads a
/// piped standard input (and is an error on a terminal, as there is no
/// REPL); `-` reads standard input; an existing file is read; anything
/// else is inline Lua code.
pub fn resolve_input(input: Option<&str>, stdin_is_terminal: bool, input_is_file: bool) -> (r: Result<
    InputSource,
    InputError,
>)
    ensures
        match input {
            None => if stdin_is_terminal {
                r == Err::<InputSource, InputError>(InputError::NoInput)
            } else {
                r == Ok::<InputSource, InputError>(InputSource::Stdin)
            },
            Some(arg) => if arg@ == seq!['-'] {
                r == Ok::<InputSource, InputError>(InputSource::Stdin)
            } else if input_is_file {
                r matches Ok(InputSource::File(p)) && p@ == arg@
            } else {
                r matches Ok(InputSource::Inline(code)) && code@ == arg@
            },
        },
{
    match input {
        None => {
            if stdin_is_terminal {
                Err(InputError::NoInput)
            } else {
                Ok(InputSource::Stdin)
            }
        },
        Some(arg) => {
            if is_dash(arg) {
                Ok(InputSource::Stdin)
            } else if input_is_file {
                Ok(InputSource::File(arg.to_owned()))
            } else {
                Ok(InputSource::Inline(arg.to_owned()))
            }
        },
    }
}

/// Whether the argument is exactly `-`.
fn is_dash(arg: &str) -> (r: bool)
    ensures
        r == (arg@ == seq!['-']),
{
    let b = arg.as_bytes();
    proof {
        let dash = seq!['-'];
        assert(encode_utf8(dash.drop_first()) =~= Seq::<u8>::empty());
        assert(('-' as u32) == 0x2du32);
        assert((0x2du32 & 0x7Fu32) as u8 == 0x2du8) by (bit_vector);
        assert(encode_scalar('-' as u32) =~= seq![0x2du8]);
        assert(encode_utf8(dash) =~= seq![0x2du8]);
        assert(decode_utf8(encode_utf8(arg@)) == arg@);
        assert(decode_utf8(encode_utf8(dash)) == dash);
    }
    if b.len() == 1 && b[0] == 0x2d {
        assert(b@ =~= seq![0x2du8]);
        true
    } else {
        false
    }
}

/// The label diagnostics show for a source.
pub open spec fn spec_input_label(src: InputSource) -> Seq<char> {
    match src {
        InputSource::Stdin => "<stdin>"@,
        InputSource::File(p) => p@,
        InputSource::Inline(_) => "<inline>"@,
    }
}

impl InputSource {
    /// The path diagnostics use for this source: `<stdin>`, the file's
    /// own path, or `<inline>`.
    pub fn label(&self) -> (r: String)
        ensures
            r@ == spec_input_label(*self),
    {
        match self {
            InputSource::Stdin => "<stdin>".to_owned(),
            InputSource::File(p) => p.clone(),
            InputSource::Inline(_) => "<inline>".to_owned(),
        }
    }
}

impl InputError {
    /// The usage hint shown when no source is available.
    pub fn message(&self) -> (r: String)
        ensures
            r@ == "no input provided. Pass a file path, inline Lua code (e.g. `lumelir run 'print(1)'`), `-` to read stdin explicitly, or pipe source into stdin."@,
    {
        "no input provided. Pass a file path, inline Lua code (e.g. `lumelir run 'print(1)'`), `-` to read stdin explicitly, or pipe source into stdin.".to_owned()
    }
}

/// The input path with its extension removed, as `Path::with_extension("")`
/// gives it.
pub uninterp spec fn path_without_extension(path: Seq<char>) -> Seq<char>;

/// `Path::new(input).with_extension("")`, as a string. The contract
/// names the result and says no more: the file-name rules are std's.
#[verifier::external_body]
fn strip_extension(input: &str) -> (r: String)
    ensures
        r@ == path_without_extension(input@),
{
    std::path::Path::new(input).with_extension("").to_string_lossy().into_owned()
}

/// Where `lumelir compile` writes the binary: the `-o` path when one
/// is given, else the input path with its extension stripped.
pub fn output_path(input: &str, output: Option<&str>) -> (r: String)
    ensures
        r@ == match output {
            Some(p) => p@,
            None => path_without_extension(input@),
        },
{
    match output {
        Some(p) => p.to_owned(),
        None => strip_extension(input),
    }
}

} // verus!
