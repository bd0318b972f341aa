//! The decisions of the interactive prompt: what a typed line asks for, and
//! how results and errors are formatted.  Reading lines, executing scripts
//! and talking to the network are done by the surrounding binary.

use crate::bytes::append_bytes;
use crate::bytes::copy_bytes;
use crate::bytes::copy_range;
use crate::bytes::bytes_eq;
use crate::bytes::bytes_start_with;
use crate::bytes::is_prefix_of;
use vstd::prelude::*;

verus! {

/// Options for the interactive prompt.
#[derive(Debug, Clone)]
pub struct ReplOptions {
    /// Verbose mode for debugging.
    pub verbose: bool,
    /// Optional path to a configuration file.
    pub config_path: Option<String>,
}

impl Default for ReplOptions {
    fn default() -> (r: Self)
        ensures
            r.verbose == false,
            r.config_path is None,
    {
        ReplOptions { verbose: false, config_path: None }
    }
}

/// What a typed line asks the prompt to do.
pub enum ReplCommand {
    /// Clear the screen.
    Clear,
    /// Show the communication hub's metadata.
    ComHubInfo,
    /// Record a network trace to the endpoint written after `trace `.
    Trace(Vec<u8>),
    /// Execute the line as a script.
    Execute(Vec<u8>),
}

/// Whether a byte is ASCII whitespace (space, tab, line feed, carriage
/// return).
pub open spec fn is_ascii_space(b: u8) -> bool {
    b == 32 || b == 9 || b == 10 || b == 13
}

/// `s` without its leading ASCII whitespace.
pub open spec fn trim_start(s: Seq<u8>) -> Seq<u8>
    decreases s,
{
    if s.len() == 0 || !is_ascii_space(s[0]) {
        s
    } else {
        trim_start(s.subrange(1, s.len() as int))
    }
}

/// `s` without its trailing ASCII whitespace.
pub open spec fn trim_end(s: Seq<u8>) -> Seq<u8>
    decreases s,
{
    if s.len() == 0 || !is_ascii_space(s.last()) {
        s
    } else {
        trim_end(s.drop_last())
    }
}

/// `s` without leading and trailing ASCII whitespace.
pub open spec fn trimmed(s: Seq<u8>) -> Seq<u8> {
    trim_end(trim_start(s))
}

/// The bytes of `clear`.
pub open spec fn clear_word() -> Seq<u8> {
    seq![99u8, 108u8, 101u8, 97u8, 114u8]
}

/// The bytes of `comhub`.
pub open spec fn comhub_word() -> Seq<u8> {
    seq![99u8, 111u8, 109u8, 104u8, 117u8, 98u8]
}

/// The bytes of `trace ` (with the trailing space).
pub open spec fn trace_word() -> Seq<u8> {
    seq![116u8, 114u8, 97u8, 99u8, 101u8, 32u8]
}

proof fn lemma_trim_start_at(s: Seq<u8>, lo: int)
    requires
        0 <= lo <= s.len(),
        forall|j: int| 0 <= j < lo ==> is_ascii_space(s[j]),
        lo == s.len() || !is_ascii_space(s[lo]),
    ensures
        trim_start(s) == s.subrange(lo, s.len() as int),
    decreases lo,
{
    if lo == 0 {
        assert(s.subrange(0, s.len() as int) =~= s);
    } else {
        let s1 = s.subrange(1, s.len() as int);
        lemma_trim_start_at(s1, lo - 1);
        assert(s1.subrange(lo - 1, s1.len() as int) =~= s.subrange(lo, s.len() as int));
    }
}

proof fn lemma_trim_end_at(s: Seq<u8>, hi: int)
    requires
        0 <= hi <= s.len(),
        forall|j: int| hi <= j < s.len() ==> is_ascii_space(s[j]),
        hi == 0 || !is_ascii_space(s[hi - 1]),
    ensures
        trim_end(s) == s.subrange(0, hi),
    decreases s.len(),
{
    if hi == s.len() {
        assert(s.subrange(0, s.len() as int) =~= s);
    } else {
        let s1 = s.drop_last();
        assert(s.last() == s[s.len() - 1]);
        lemma_trim_end_at(s1, hi);
        assert(s1.subrange(0, hi) =~= s.subrange(0, hi));
    }
}

/// The bounds of `line` without leading and trailing ASCII whitespace.
#[verifier::loop_isolation(false)]
fn trim_bounds(line: &[u8]) -> (r: (usize, usize))
    ensures
        r.0 <= r.1 <= line@.len(),
        trimmed(line@) == line@.subrange(r.0 as int, r.1 as int),
{
    let ghost t = line@;
    let mut lo: usize = 0;
    while lo < line.len() && (line[lo] == 32 || line[lo] == 9 || line[lo] == 10 || line[lo] == 13)
        invariant
            lo <= t.len(),
            forall|j: int| 0 <= j < lo ==> is_ascii_space(t[j]),
        decreases t.len() - lo,
    {
        lo = lo + 1;
    }
    proof {
        lemma_trim_start_at(t, lo as int);
    }
    let mut hi: usize = line.len();
    while hi > lo && (line[hi - 1] == 32 || line[hi - 1] == 9 || line[hi - 1] == 10 || line[hi - 1]
        == 13)
        invariant
            lo <= hi <= t.len(),
            forall|j: int| hi <= j < t.len() ==> is_ascii_space(t[j]),
        decreases hi,
    {
        hi = hi - 1;
    }
    proof {
        let rest = t.subrange(lo as int, t.len() as int);
        if hi == lo && lo < t.len() && is_ascii_space(t[lo as int]) {
            lemma_trim_end_at(rest, 0);
        } else {
            lemma_trim_end_at(rest, hi - lo);
        }
        assert(rest.subrange(0, hi - lo) =~= t.subrange(lo as int, hi as int));
    }
    (lo, hi)
}

/// Decides what a typed line asks for: `clear` and `comhub` (up to
/// surrounding ASCII whitespace) are prompt commands, a line starting with
/// `trace ` asks for a trace of the endpoint written after it, and any
/// other line is executed as a script.
pub fn parse_repl_input(line: &[u8]) -> (r: ReplCommand)
    ensures
        trimmed(line@) == clear_word() ==> r is Clear,
        trimmed(line@) == comhub_word() ==> r is ComHubInfo,
        trimmed(line@) != clear_word() && trimmed(line@) != comhub_word() && is_prefix_of(
            trace_word(),
            line@,
        ) ==> (r matches ReplCommand::Trace(e) && e@ == line@.subrange(6, line@.len() as int)),
        trimmed(line@) != clear_word() && trimmed(line@) != comhub_word() && !is_prefix_of(
            trace_word(),
            line@,
        ) ==> (r matches ReplCommand::Execute(l) && l@ == line@),
{
    let (lo, hi) = trim_bounds(line);
    let t = &line[lo..hi];
    let mut clear: Vec<u8> = Vec::new();
    clear.push(99);
    clear.push(108);
    clear.push(101);
    clear.push(97);
    clear.push(114);
    proof {
        assert(clear@ =~= clear_word());
    }
    let mut comhub: Vec<u8> = Vec::new();
    comhub.push(99);
    comhub.push(111);
    comhub.push(109);
    comhub.push(104);
    comhub.push(117);
    comhub.push(98);
    proof {
        assert(comhub@ =~= comhub_word());
    }
    let mut trace: Vec<u8> = Vec::new();
    trace.push(116);
    trace.push(114);
    trace.push(97);
    trace.push(99);
    trace.push(101);
    trace.push(32);
    proof {
        assert(trace@ =~= trace_word());
    }
    if bytes_eq(t, clear.as_slice()) {
        ReplCommand::Clear
    } else if bytes_eq(t, comhub.as_slice()) {
        ReplCommand::ComHubInfo
    } else if bytes_start_with(line, trace.as_slice()) {
        ReplCommand::Trace(copy_range(line, 6, line.len()))
    } else {
        ReplCommand::Execute(copy_bytes(line))
    }
}

/// The bytes of `text` with two spaces inserted after every line feed, so
/// that continuation lines align under the prompt's output marker.
pub open spec fn indented(s: Seq<u8>) -> Seq<u8>
    decreases s,
{
    if s.len() == 0 {
        Seq::empty()
    } else {
        (if s[0] == 10 {
            seq![10u8, 32u8, 32u8]
        } else {
            seq![s[0]]
        }) + indented(s.subrange(1, s.len() as int))
    }
}

/// Indents every line of `text` but the first with two spaces.
#[verifier::loop_isolation(false)]
pub fn indent_continuation_lines(text: &[u8]) -> (r: Vec<u8>)
    ensures
        r@ == indented(text@),
{
    let ghost t = text@;
    let mut out: Vec<u8> = Vec::new();
    proof {
        assert(t.subrange(0, t.len() as int) =~= t);
        assert(out@ + indented(t) =~= indented(t));
    }
    let mut i: usize = 0;
    while i < text.len()
        invariant
            i <= t.len(),
            indented(t) == out@ + indented(t.subrange(i as int, t.len() as int)),
        decreases t.len() - i,
    {
        let ghost prev = out@;
        let ghost rest = t.subrange(i as int, t.len() as int);
        proof {
            assert(rest[0] == t[i as int]);
            assert(rest.subrange(1, rest.len() as int) =~= t.subrange(
                i as int + 1,
                t.len() as int,
            ));
        }
        let b = text[i];
        out.push(b);
        if b == 10 {
            out.push(32);
            out.push(32);
            proof {
                assert(out@ =~= prev + seq![10u8, 32u8, 32u8]);
            }
        } else {
            proof {
                assert(out@ =~= prev + seq![t[i as int]]);
            }
        }
        proof {
            assert(out@ + indented(t.subrange(i as int + 1, t.len() as int)) =~= prev + indented(
                rest,
            ));
        }
        i = i + 1;
    }
    proof {
        assert(indented(t.subrange(t.len() as int, t.len() as int)) =~= Seq::<u8>::empty());
        assert(out@ + Seq::<u8>::empty() =~= out@);
    }
    out
}

/// A failed script execution, as the runtime collaborator reports it.
pub enum ScriptError {
    /// The script did not compile; carries the error's display message.
    Compiler(Vec<u8>),
    /// The script failed while running; carries the error's display message.
    Execution(Vec<u8>),
}

/// The bytes that start a red terminal message.
pub open spec fn red_escape() -> Seq<u8> {
    seq![27u8, 91u8, 51u8, 49u8, 109u8]
}

/// The bytes that reset terminal colors.
pub open spec fn reset_escape() -> Seq<u8> {
    seq![27u8, 91u8, 48u8, 109u8]
}

/// The bytes of `[Compiler Error] `.
pub open spec fn compiler_error_label() -> Seq<u8> {
    seq![
        91u8, 67u8, 111u8, 109u8, 112u8, 105u8, 108u8, 101u8, 114u8, 32u8, 69u8, 114u8, 114u8,
        111u8, 114u8, 93u8, 32u8,
    ]
}

/// The bytes of `[Execution Error] `.
pub open spec fn execution_error_label() -> Seq<u8> {
    seq![
        91u8, 69u8, 120u8, 101u8, 99u8, 117u8, 116u8, 105u8, 111u8, 110u8, 32u8, 69u8, 114u8,
        114u8, 111u8, 114u8, 93u8, 32u8,
    ]
}

/// The prompt's error banner: the labelled message in red.
pub open spec fn formatted_error(e: ScriptError) -> Seq<u8> {
    match e {
        ScriptError::Compiler(m) => red_escape() + compiler_error_label() + m@ + reset_escape(),
        ScriptError::Execution(m) => red_escape() + execution_error_label() + m@ + reset_escape(),
    }
}

/// Formats a failed execution for the prompt: the labelled message in red.
pub fn format_script_error(e: &ScriptError) -> (r: Vec<u8>)
    ensures
        r@ == formatted_error(*e),
{
    let mut out: Vec<u8> = Vec::new();
    out.push(27);
    out.push(91);
    out.push(51);
    out.push(49);
    out.push(109);
    out.push(91);
    match e {
        ScriptError::Compiler(m) => {
            out.push(67);
            out.push(111);
            out.push(109);
            out.push(112);
            out.push(105);
            out.push(108);
            out.push(101);
            out.push(114);
            out.push(32);
            out.push(69);
            out.push(114);
            out.push(114);
            out.push(111);
            out.push(114);
            out.push(93);
            out.push(32);
            append_bytes(&mut out, m.as_slice());
        },
        ScriptError::Execution(m) => {
            out.push(69);
            out.push(120);
            out.push(101);
            out.push(99);
            out.push(117);
            out.push(116);
            out.push(105);
            out.push(111);
            out.push(110);
            out.push(32);
            out.push(69);
            out.push(114);
            out.push(114);
            out.push(111);
            out.push(114);
            out.push(93);
            out.push(32);
            append_bytes(&mut out, m.as_slice());
        },
    }
    out.push(27);
    out.push(91);
    out.push(48);
    out.push(109);
    proof {
        assert(out@ =~= formatted_error(*e));
    }
    out
}

/// The marker that introduces a printed result value.
pub open spec fn result_marker() -> Seq<u8> {
    seq![60u8, 32u8]
}

/// Formats a result value for the prompt: `"< "` followed by the value with
/// its continuation lines indented.
pub fn format_result_value(decompiled: &[u8]) -> (r: Vec<u8>)
    ensures
        r@ == result_marker() + indented(decompiled@),
{
    let mut out: Vec<u8> = Vec::new();
    out.push(60);
    out.push(32);
    let indented_value = indent_continuation_lines(decompiled);
    append_bytes(&mut out, indented_value.as_slice());
    proof {
        assert(out@ =~= result_marker() + indented(decompiled@));
    }
    out
}

} // verus!
