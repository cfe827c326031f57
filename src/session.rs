//! The decisions of a run: what each event of the outside world leads to.
//!
//! The caller reads values, spawns the programs and waits for them; after
//! each such step it hands the outcome here as an [`Event`] and performs the
//! [`Action`] that comes back.

use vstd::prelude::*;
use vstd::string::StringSliceAdditionalSpecFns;
use vstd::utf8::{encode_utf8, valid_utf8};
use crate::split::contents;
use crate::substitute::{replace_all, replace_all_bytes};

verus! {

/// Why a run stopped without a program's own exit code.
#[derive(PartialEq, Eq, Debug, Clone, Copy, Structural)]
pub enum RunError {
    /// The input stream could not be read.
    Io,
    /// A value was not valid UTF-8 text.
    InvalidEncoding,
    /// The command template had no tokens.
    NoCommand,
    /// The program could not be started.
    Exec,
}

impl RunError {
    /// A human-readable description of the error.
    pub fn message(&self) -> &'static str {
        match self {
            RunError::Io => "io err",
            RunError::InvalidEncoding => "received invalid utf8 as argument on stdin",
            RunError::NoCommand => "no command supplied",
            RunError::Exec => "couldn't execute command",
        }
    }
}

/// What happened since the last action.
pub enum Event {
    /// The next value was read from the input.
    Value(Vec<u8>),
    /// The input is exhausted.
    End,
    /// Reading the input failed.
    ReadFailed,
    /// The program could not be started.
    SpawnFailed,
    /// The program ran to its end, with this exit code if it has one.
    Exited(Option<i32>),
}

/// What to do next.
pub enum Action {
    /// Run this command line: the program, then its arguments.
    Spawn(Vec<Vec<u8>>),
    /// Read the next value.
    ReadNext,
    /// The run is over, with this exit code or error.
    Finish(Result<i32, RunError>),
}

/// The bytes of each token of the template.
pub open spec fn token_bytes(template: Seq<&str>) -> Seq<Seq<u8>> {
    template.map_values(|s: &str| s.spec_bytes())
}

/// The template with the placeholder replaced by the value in every token.
pub open spec fn resolved(template: Seq<Seq<u8>>, p: Seq<u8>, v: Seq<u8>) -> Seq<Seq<u8>> {
    template.map_values(|t: Seq<u8>| replace_all(t, p, v))
}

proof fn lemma_nonempty_text_has_bytes(s: Seq<char>)
    requires
        s.len() > 0,
    ensures
        encode_utf8(s).len() > 0,
{
    reveal_with_fuel(encode_utf8, 2);
}

/// Relies on std::str::from_utf8, which succeeds exactly on valid UTF-8.
#[verifier::external_body]
fn is_utf8(bytes: &[u8]) -> (r: bool)
    ensures
        r == valid_utf8(bytes@),
{
    std::str::from_utf8(bytes).is_ok()
}

/// Builds the command line for one value read from the input: the value
/// must be text, and it takes the place of every occurrence of the
/// placeholder in every token of the template.
pub fn resolve_command(template: &[&str], placeholder: &str, value: &[u8]) -> (r: Result<
    Vec<Vec<u8>>,
    RunError,
>)
    requires
        placeholder@.len() > 0,
    ensures
        r == Err::<Vec<Vec<u8>>, RunError>(RunError::InvalidEncoding) <==> !valid_utf8(value@),
        r == Err::<Vec<Vec<u8>>, RunError>(RunError::NoCommand) <==> valid_utf8(value@)
            && template@.len() == 0,
        r is Ok <==> valid_utf8(value@) && template@.len() > 0,
        r is Ok ==> contents(r->Ok_0@) == resolved(
            token_bytes(template@),
            placeholder.spec_bytes(),
            value@,
        ),
{
    if !is_utf8(value) {
        return Err(RunError::InvalidEncoding);
    }
    let p = placeholder.as_bytes();
    proof {
        lemma_nonempty_text_has_bytes(placeholder@);
    }
    let mut out: Vec<Vec<u8>> = Vec::new();
    let mut i: usize = 0;
    while i < template.len()
        invariant
            p@ == placeholder.spec_bytes(),
            p@.len() > 0,
            i <= template@.len(),
            contents(out@) == resolved(token_bytes(template@), p@, value@).subrange(0, i as int),
        decreases template@.len() - i,
    {
        let ghost prev = out@;
        let token = replace_all_bytes(template[i].as_bytes(), p, value);
        assert(token@ == resolved(token_bytes(template@), p@, value@)[i as int]);
        out.push(token);
        assert(out@ == prev.push(token));
        assert(contents(out@) =~= contents(prev).push(token@));
        i = i + 1;
        assert(contents(out@) =~= resolved(token_bytes(template@), p@, value@).subrange(
            0,
            i as int,
        ));
    }
    assert(resolved(token_bytes(template@), p@, value@).subrange(0, i as int) =~= resolved(
        token_bytes(template@),
        p@,
        value@,
    ));
    if out.len() == 0 {
        return Err(RunError::NoCommand);
    }
    Ok(out)
}

/// The next action of a run of `template` with `placeholder`, after `event`.
///
/// A value leads to a spawn of its command line, or ends the run with the
/// error that building the command line met. A program that exits with 0
/// leads to reading the next value; any other exit ends the run with the
/// program's code, or with 1 where it has none. The end of the input ends
/// the run with 0.
pub fn next_action(template: &[&str], placeholder: &str, event: Event) -> (r: Action)
    requires
        placeholder@.len() > 0,
    ensures
        match event {
            Event::Value(bytes) => if !valid_utf8(bytes@) {
                r == Action::Finish(Err(RunError::InvalidEncoding))
            } else if template@.len() == 0 {
                r == Action::Finish(Err(RunError::NoCommand))
            } else {
                r is Spawn && contents(r->Spawn_0@) == resolved(
                    token_bytes(template@),
                    placeholder.spec_bytes(),
                    bytes@,
                )
            },
            Event::End => r == Action::Finish(Ok(0)),
            Event::ReadFailed => r == Action::Finish(Err(RunError::Io)),
            Event::SpawnFailed => r == Action::Finish(Err(RunError::Exec)),
            Event::Exited(code) => match code {
                Some(c) => if c == 0 {
                    r is ReadNext
                } else {
                    r == Action::Finish(Ok(c))
                },
                None => r == Action::Finish(Ok(1)),
            },
        },
{
    match event {
        Event::Value(bytes) => match resolve_command(template, placeholder, bytes.as_slice()) {
            Ok(command) => Action::Spawn(command),
            Err(e) => Action::Finish(Err(e)),
        },
        Event::End => Action::Finish(Ok(0)),
        Event::ReadFailed => Action::Finish(Err(RunError::Io)),
        Event::SpawnFailed => Action::Finish(Err(RunError::Exec)),
        Event::Exited(code) => match code {
            Some(c) => if c == 0 {
                Action::ReadNext
            } else {
                Action::Finish(Ok(c))
            },
            None => Action::Finish(Ok(1)),
        },
    }
}

/// The exit code of the whole process for the outcome of a run: the code
/// itself, or 1 for an error.
pub fn exit_code(outcome: Result<i32, RunError>) -> (r: i32)
    ensures
        r == match outcome {
            Ok(c) => c,
            Err(_) => 1i32,
        },
{
    match outcome {
        Ok(c) => c,
        Err(_) => 1,
    }
}

} // verus!
