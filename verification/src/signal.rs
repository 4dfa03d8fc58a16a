//! Stop signals and their names.

use vstd::prelude::*;
use vstd::string::*;
use crate::text::{
    agrees, lowercase, nothing_to_trim, same_text, trim, trimmed, trimming_ignores_case,
    trimming_is_complete, uppercase,
};

verus! {

/// A signal that asks an application to stop.
#[derive(Clone, Copy, Debug, PartialEq, Eq, Structural)]
pub enum StopSignal {
    Terminate,
    Interrupt,
    Hangup,
    Quit,
    Kill,
}

/// The value of `libc::SIGTERM`, which is 15 on every Unix.
#[verifier::external_body]
fn sigterm() -> (r: i32)
    ensures
        r == 15,
{
    libc::SIGTERM
}

/// The value of `libc::SIGINT`, which is 2 on every Unix.
#[verifier::external_body]
fn sigint() -> (r: i32)
    ensures
        r == 2,
{
    libc::SIGINT
}

/// The value of `libc::SIGHUP`, which is 1 on every Unix.
#[verifier::external_body]
fn sighup() -> (r: i32)
    ensures
        r == 1,
{
    libc::SIGHUP
}

/// The value of `libc::SIGQUIT`, which is 3 on every Unix.
#[verifier::external_body]
fn sigquit() -> (r: i32)
    ensures
        r == 3,
{
    libc::SIGQUIT
}

/// The value of `libc::SIGKILL`, which is 9 on every Unix.
#[verifier::external_body]
fn sigkill() -> (r: i32)
    ensures
        r == 9,
{
    libc::SIGKILL
}

/// `name` without the `SIG` that it starts with, however often.
pub open spec fn without_sig(name: Seq<char>) -> Seq<char>
    decreases name.len(),
{
    if name.len() >= 3 && name[0] == 'S' && name[1] == 'I' && name[2] == 'G' {
        without_sig(name.skip(3))
    } else {
        name
    }
}

/// The bare, upper-case name of the signal that a text asks for.
pub open spec fn signal_name(text: Seq<char>) -> Seq<char> {
    without_sig(uppercase(trimmed(text)))
}

/// The stop signal that a text asks for: one of five names, in any case, with or
/// without a `SIG` prefix, with whitespace allowed around it; or the message that
/// says that there is none.
pub open spec fn signal_of(text: Seq<char>) -> Result<StopSignal, Seq<char>> {
    let name = signal_name(text);
    if name == "TERM"@ {
        Ok(StopSignal::Terminate)
    } else if name == "INT"@ {
        Ok(StopSignal::Interrupt)
    } else if name == "HUP"@ {
        Ok(StopSignal::Hangup)
    } else if name == "QUIT"@ {
        Ok(StopSignal::Quit)
    } else if name == "KILL"@ {
        Ok(StopSignal::Kill)
    } else {
        Err("unsupported stop signal "@ + name)
    }
}

fn strip_sig<'a>(name: &'a str) -> (r: &'a str)
    ensures
        r@ == without_sig(name@),
{
    let len: usize = name.unicode_len();
    let mut from: usize = 0;
    let mut more: bool = true;
    assert(name@.skip(0) == name@);
    while more
        invariant
            from <= len,
            len == name@.len(),
            without_sig(name@.skip(from as int)) == without_sig(name@),
            !more ==> name@.skip(from as int) == without_sig(name@),
        decreases len - from + (if more { 1int } else { 0int }),
    {
        if len - from >= 3 && name.get_char(from) == 'S' && name.get_char(from + 1) == 'I'
            && name.get_char(from + 2) == 'G' {
            assert(name@.skip(from as int).skip(3) == name@.skip(from + 3));
            from = from + 3;
        } else {
            more = false;
        }
    }
    assert(name@.subrange(from as int, len as int) == name@.skip(from as int));
    name.substring_char(from, len)
}

impl StopSignal {
    /// Reads the name of a stop signal.
    pub fn parse(text: &str) -> (r: Result<StopSignal, String>)
        ensures
            agrees(r, signal_of(text@)),
    {
        let normalized = trim(text).to_ascii_uppercase();
        let name = strip_sig(normalized.as_str());
        if same_text(name, "TERM") {
            Ok(StopSignal::Terminate)
        } else if same_text(name, "INT") {
            Ok(StopSignal::Interrupt)
        } else if same_text(name, "HUP") {
            Ok(StopSignal::Hangup)
        } else if same_text(name, "QUIT") {
            Ok(StopSignal::Quit)
        } else if same_text(name, "KILL") {
            Ok(StopSignal::Kill)
        } else {
            Err("unsupported stop signal ".to_owned().concat(name))
        }
    }

    /// The number that POSIX systems give the signal.
    pub open spec fn number(self) -> i32 {
        match self {
            StopSignal::Terminate => 15,
            StopSignal::Interrupt => 2,
            StopSignal::Hangup => 1,
            StopSignal::Quit => 3,
            StopSignal::Kill => 9,
        }
    }

    /// The signal's number, as a system call takes it.
    pub fn as_raw(self) -> (r: i32)
        ensures
            r == self.number(),
    {
        match self {
            StopSignal::Terminate => sigterm(),
            StopSignal::Interrupt => sigint(),
            StopSignal::Hangup => sighup(),
            StopSignal::Quit => sigquit(),
            StopSignal::Kill => sigkill(),
        }
    }

    /// Whether the signal leaves an application no choice.
    pub fn is_forceful(self) -> (r: bool)
        ensures
            r == (self == StopSignal::Kill),
    {
        self == StopSignal::Kill
    }
}

/// A `SIG` prefix does not change which signal a name asks for.
pub proof fn sig_prefix_is_optional(text: Seq<char>)
    ensures
        signal_of("SIG"@ + trimmed(text)) == signal_of(text),
{
    reveal_strlit("SIG");
    let name = trimmed(text);
    let full = "SIG"@ + name;
    trimming_is_complete(text);
    assert(full.first() == 'S');
    assert(full.last() == if name.len() > 0 {
        name.last()
    } else {
        'G'
    });
    nothing_to_trim(full);
    let upper = uppercase(full);
    assert(upper[0] == 'S' && upper[1] == 'I' && upper[2] == 'G');
    assert(upper.skip(3) == uppercase(name));
}

/// The case of the letters does not matter to which signal a name asks for.
pub proof fn signal_case_is_ignored(text: Seq<char>)
    ensures
        signal_of(uppercase(text)) == signal_of(text),
        signal_of(lowercase(text)) == signal_of(text),
{
    trimming_ignores_case(text);
    let name = trimmed(text);
    assert(uppercase(uppercase(name)) =~= uppercase(name));
    assert(uppercase(lowercase(name)) =~= uppercase(name));
}

/// The name of a stop signal.
pub open spec fn name_of(signal: StopSignal) -> Seq<char> {
    match signal {
        StopSignal::Terminate => "TERM"@,
        StopSignal::Interrupt => "INT"@,
        StopSignal::Hangup => "HUP"@,
        StopSignal::Quit => "QUIT"@,
        StopSignal::Kill => "KILL"@,
    }
}

/// Every stop signal is known by its own name, and no text asks for a signal but by the
/// name of that signal, in upper case, without whitespace around it and without the prefix.
pub proof fn a_signal_is_known_by_its_name(signal: StopSignal, text: Seq<char>)
    ensures
        signal_of(name_of(signal)) == Ok::<StopSignal, Seq<char>>(signal),
        signal_of(text) == Ok::<StopSignal, Seq<char>>(signal) ==> signal_name(text) == name_of(
            signal,
        ),
{
    reveal_strlit("TERM");
    reveal_strlit("INT");
    reveal_strlit("HUP");
    reveal_strlit("QUIT");
    reveal_strlit("KILL");
    let name = name_of(signal);
    nothing_to_trim(name);
    assert(uppercase(name) =~= name);
    assert(without_sig(name) == name);
}

/// Whitespace around the name of a signal does not matter.
pub proof fn space_around_a_signal_is_ignored(text: Seq<char>)
    ensures
        signal_of(trimmed(text)) == signal_of(text),
{
    trimming_is_complete(text);
}

/// The numbers of the stop signals are those of POSIX, and only `KILL` is 9.
pub proof fn signals_have_their_numbers()
    ensures
        StopSignal::Hangup.number() == 1,
        StopSignal::Interrupt.number() == 2,
        StopSignal::Quit.number() == 3,
        StopSignal::Kill.number() == 9,
        StopSignal::Terminate.number() == 15,
{
}

} // verus!
