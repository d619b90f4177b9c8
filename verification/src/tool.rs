//! Talking to the external build tool.
//!
//! The tool is run by the caller. This module says how to invoke it, and
//! reads what it reported: an exit code, and for a build the bytes written
//! to standard output.

use crate::text::{first_line, read_first_line};
use vstd::prelude::*;
use vstd::string::StringSliceAdditionalSpecFns;
use vstd::utf8::{decode_utf8, encode_utf8_decode_utf8, valid_utf8};

verus! {

/// What becomes of the standard output and standard error of the tool.
#[derive(Clone, Copy, Debug, PartialEq, Eq, Structural)]
pub enum Streams {
    /// They are the streams of the calling process.
    Inherit,
    /// They are thrown away.
    Discard,
    /// They are collected and handed to the caller.
    Capture,
}

/// One run of the tool: the program to start, its arguments, and what to do
/// with its output.
#[derive(Debug)]
pub struct Invocation {
    pub program: String,
    pub args: Vec<String>,
    pub streams: Streams,
}

/// An `Invocation` with its strings as sequences of characters.
pub struct InvocationView {
    pub program: Seq<char>,
    pub args: Seq<Seq<char>>,
    pub streams: Streams,
}

impl View for Invocation {
    type V = InvocationView;

    open spec fn view(&self) -> InvocationView {
        InvocationView {
            program: self.program@,
            args: self.args.deep_view(),
            streams: self.streams,
        }
    }
}

/// The probe that asks whether `attr` evaluates: `nix eval --raw attr`. Its
/// output is shown only in verbose mode.
pub open spec fn eval_invocation(attr: Seq<char>, verbose: bool) -> InvocationView {
    InvocationView {
        program: "nix"@,
        args: seq!["eval"@, "--raw"@, attr],
        streams: if verbose {
            Streams::Inherit
        } else {
            Streams::Discard
        },
    }
}

/// The build of `attr` that leaves no link behind and prints the paths of
/// its outputs: `nix build --no-link --print-out-paths attr`.
pub open spec fn build_invocation(attr: Seq<char>) -> InvocationView {
    InvocationView {
        program: "nix"@,
        args: seq!["build"@, "--no-link"@, "--print-out-paths"@, attr],
        streams: Streams::Capture,
    }
}

/// Where the output of a build lies, read off what the tool reported: the
/// first line of its standard output, if it exited with code 0 and wrote
/// valid UTF-8 with at least one line.
pub open spec fn build_result(exit_code: Option<i32>, stdout: Seq<u8>) -> Option<Seq<char>> {
    if exit_code == Some(0i32) && valid_utf8(stdout) {
        first_line(decode_utf8(stdout))
    } else {
        None
    }
}

/// Converts bytes to text. Calls `std::str::from_utf8`, which accepts the
/// bytes if and only if they are valid UTF-8, and then hands the same bytes
/// back as text.
#[verifier::external_body]
fn text_of(bytes: &[u8]) -> (r: Option<&str>)
    ensures
        match r {
            Some(text) => valid_utf8(bytes@) && text.spec_bytes() == bytes@,
            None => !valid_utf8(bytes@),
        },
{
    std::str::from_utf8(bytes).ok()
}

/// Says how to ask the tool whether `attr` evaluates.
pub fn eval_command(attr: &str, verbose: bool) -> (r: Invocation)
    ensures
        r@ == eval_invocation(attr@, verbose),
{
    let mut args: Vec<String> = Vec::new();
    args.push("eval".to_owned());
    args.push("--raw".to_owned());
    args.push(attr.to_owned());
    let streams = if verbose {
        Streams::Inherit
    } else {
        Streams::Discard
    };
    let r = Invocation { program: "nix".to_owned(), args, streams };
    assert(r@.args =~= eval_invocation(attr@, verbose).args);
    r
}

/// Says how to ask the tool to build `attr`.
pub fn build_command(attr: &str) -> (r: Invocation)
    ensures
        r@ == build_invocation(attr@),
{
    let mut args: Vec<String> = Vec::new();
    args.push("build".to_owned());
    args.push("--no-link".to_owned());
    args.push("--print-out-paths".to_owned());
    args.push(attr.to_owned());
    let r = Invocation { program: "nix".to_owned(), args, streams: Streams::Capture };
    assert(r@.args =~= build_invocation(attr@).args);
    r
}

/// Whether a probe with this exit code shows that the attribute path
/// evaluates. `exit_code` is `None` when the tool could not be started or
/// ended without an exit code; that, and any code but 0, means that it does
/// not.
pub fn can_nix_eval(exit_code: Option<i32>) -> (r: bool)
    ensures
        r == (exit_code == Some(0i32)),
{
    match exit_code {
        Some(code) => code == 0,
        None => false,
    }
}

/// Reads where the output of a build lies off what the tool reported.
/// `exit_code` is `None` when the tool could not be started or ended without
/// an exit code, and `stdout` holds what it wrote to standard output.
pub fn nix_build(exit_code: Option<i32>, stdout: &[u8]) -> (r: Option<String>)
    ensures
        match r {
            Some(path) => build_result(exit_code, stdout@) == Some(path@),
            None => build_result(exit_code, stdout@).is_none(),
        },
{
    match exit_code {
        Some(0) => match text_of(stdout) {
            Some(text) => {
                proof {
                    encode_utf8_decode_utf8(text@);
                }
                read_first_line(text)
            },
            None => None,
        },
        _ => None,
    }
}

} // verus!
