//! The compiler-error tree and its flattening into a flat, ordered list of
//! ranged diagnostics.
//!
//! A compile attempt reports zero, one or many independent failures, some
//! carrying a precise source span and some not.  Flattening walks the tree
//! in order and emits one diagnostic per failure: spanned failures get the
//! positions of their byte range, spanless ones conservatively cover the
//! whole document.

use crate::ast::Span;
use crate::bytes::copy_bytes;
use crate::position::Position;
use crate::position::byte_offset_to_position;
use crate::position::character_of_offset;
use crate::position::lemma_count_newlines_bounds;
use crate::position::lemma_count_scalar_starts_bounds;
use crate::position::lemma_line_start_of_bounds;
use crate::position::line_of_offset;
use crate::position::line_start_of;
use vstd::prelude::*;

verus! {

/// An editor range: a start and an end position.
#[derive(Clone, Copy, PartialEq, Eq, Structural, Debug)]
pub struct DocumentRange {
    pub start: Position,
    pub end: Position,
}

/// A failure tree returned by the compiler collaborator.
pub enum CompilerError {
    /// A failure with no source location, carrying its display message.
    Leaf(Vec<u8>),
    /// A failure pinned to a byte range of the source.
    Spanned(Box<CompilerError>, Span),
    /// Several independent failures from one compile attempt, in the order
    /// the compiler produced them.
    Multiple(Vec<CompilerError>),
}

/// A user-facing diagnostic: a range and a message.
pub struct Diagnostic {
    pub range: DocumentRange,
    pub message: Vec<u8>,
}

/// The mathematical value of a diagnostic.
pub struct DiagnosticView {
    pub range: DocumentRange,
    pub message: Seq<u8>,
}

impl View for Diagnostic {
    type V = DiagnosticView;

    open spec fn view(&self) -> DiagnosticView {
        DiagnosticView { range: self.range, message: self.message@ }
    }
}

impl Clone for Diagnostic {
    fn clone(&self) -> (r: Self)
        ensures
            r@ == self@,
    {
        Diagnostic { range: self.range, message: copy_bytes(self.message.as_slice()) }
    }
}

/// The values of a list of diagnostics.
pub open spec fn diags_view(s: Seq<Diagnostic>) -> Seq<DiagnosticView> {
    s.map_values(|d: Diagnostic| d@)
}

/// The position of byte offset `off` in `t`, or the origin when `off` lies
/// outside the buffer.
pub open spec fn position_at(t: Seq<u8>, off: int) -> Position {
    if 0 <= off <= t.len() && off <= usize::MAX {
        Position {
            line: line_of_offset(t, off) as usize,
            character: character_of_offset(t, off) as usize,
        }
    } else {
        Position { line: 0, character: 0 }
    }
}

/// The document range standing for a byte range of `t`.
pub open spec fn range_at(t: Seq<u8>, span: Span) -> DocumentRange {
    DocumentRange {
        start: position_at(t, span.start as int),
        end: position_at(t, span.end as int),
    }
}

/// The bounds that let a position's components live in `usize`.
proof fn lemma_position_at_bounds(t: Seq<u8>, off: int)
    requires
        0 <= off <= t.len(),
    ensures
        0 <= line_of_offset(t, off) <= off,
        0 <= character_of_offset(t, off) <= off,
{
    assert(t.take(off).len() == off);
    lemma_count_newlines_bounds(t.take(off));
    lemma_line_start_of_bounds(t, off);
    lemma_count_scalar_starts_bounds(t.subrange(line_start_of(t, off), off));
}

/// Converts a byte range to a document range in the given text.  Both
/// offsets must lie within the buffer: a span that points outside the text
/// it was reported for is a collaborator fault, not something to map
/// silently.
pub fn convert_byte_range_to_document_range(span: Span, file_content: &[u8]) -> (r: DocumentRange)
    requires
        span.start <= file_content@.len(),
        span.end <= file_content@.len(),
    ensures
        r == range_at(file_content@, span),
{
    proof {
        lemma_position_at_bounds(file_content@, span.start as int);
        lemma_position_at_bounds(file_content@, span.end as int);
    }
    let start = match byte_offset_to_position(span.start, file_content) {
        Some(p) => p,
        None => Position { line: 0, character: 0 },
    };
    let end = match byte_offset_to_position(span.end, file_content) {
        Some(p) => p,
        None => Position { line: 0, character: 0 },
    };
    DocumentRange { start, end }
}

/// Every span the flattener converts (the outermost span of each failure)
/// lies within a buffer of length `len`.  The compiler collaborator
/// guarantees this of the errors it reports for the text it compiled.
pub open spec fn error_spans_within(e: CompilerError, len: int) -> bool
    decreases e,
{
    match e {
        CompilerError::Leaf(_) => true,
        CompilerError::Spanned(_, span) => span.start <= len && span.end <= len,
        CompilerError::Multiple(es) => errors_spans_within(es@, len),
    }
}

/// As `error_spans_within`, of every error of `s`.
pub open spec fn errors_spans_within(s: Seq<CompilerError>, len: int) -> bool
    decreases s,
{
    s.len() == 0 || (error_spans_within(s[0], len) && errors_spans_within(
        s.subrange(1, s.len() as int),
        len,
    ))
}

/// Each error of an in-range sequence is in range.
proof fn lemma_errors_spans_within_index(s: Seq<CompilerError>, len: int, i: int)
    requires
        errors_spans_within(s, len),
        0 <= i < s.len(),
    ensures
        error_spans_within(s[i], len),
    decreases s.len(),
{
    if i > 0 {
        lemma_errors_spans_within_index(s.subrange(1, s.len() as int), len, i - 1);
        assert(s.subrange(1, s.len() as int)[i - 1] == s[i]);
    }
}

/// The display message of an error tree: a spanned failure shows its inner
/// message, several failures joined by `"; "`.
pub open spec fn message_of(e: CompilerError) -> Seq<u8>
    decreases e,
{
    match e {
        CompilerError::Leaf(m) => m@,
        CompilerError::Spanned(inner, _) => message_of(*inner),
        CompilerError::Multiple(es) => if es@.len() == 0 {
            Seq::empty()
        } else {
            message_of(es@[0]) + messages_tail(es@.subrange(1, es@.len() as int))
        },
    }
}

/// The messages of the errors of `s`, each preceded by `"; "`.
pub open spec fn messages_tail(s: Seq<CompilerError>) -> Seq<u8>
    decreases s,
{
    if s.len() == 0 {
        Seq::empty()
    } else {
        seq![59u8, 32u8] + message_of(s[0]) + messages_tail(s.subrange(1, s.len() as int))
    }
}

impl CompilerError {
    /// The display message of this failure.
    #[verifier::loop_isolation(false)]
    pub fn message(&self) -> (r: Vec<u8>)
        ensures
            r@ == message_of(*self),
        decreases *self,
    {
        match self {
            CompilerError::Leaf(m) => copy_bytes(m.as_slice()),
            CompilerError::Spanned(inner, _) => inner.message(),
            CompilerError::Multiple(es) => {
                let mut out: Vec<u8> = Vec::new();
                if es.len() == 0 {
                    proof {
                        assert(out@ =~= message_of(*self));
                    }
                    return out;
                }
                proof {
                    assert(decreases_to!(*self => self->Multiple_0));
                    assert(decreases_to!(self->Multiple_0 => self->Multiple_0@));
                    assert(decreases_to!(self->Multiple_0@ => self->Multiple_0@[0]));
                }
                let mut first = es[0].message();
                out.append(&mut first);
                proof {
                    assert(out@ =~= message_of(es@[0]));
                }
                let mut k: usize = 1;
                while k < es.len()
                    invariant
                        1 <= k <= es@.len(),
                        message_of(*self) == out@ + messages_tail(
                            es@.subrange(k as int, es@.len() as int),
                        ),
                    decreases es@.len() - k,
                {
                    proof {
                        assert(decreases_to!(*self => self->Multiple_0));
                        assert(decreases_to!(self->Multiple_0 => self->Multiple_0@));
                        assert(decreases_to!(
                            self->Multiple_0@ => self->Multiple_0@[k as int]));
                        let rest = es@.subrange(k as int, es@.len() as int);
                        assert(rest[0] == es@[k as int]);
                        assert(rest.subrange(1, rest.len() as int) =~= es@.subrange(
                            k as int + 1,
                            es@.len() as int,
                        ));
                    }
                    let ghost prev = out@;
                    out.push(59u8);
                    out.push(32u8);
                    let mut m = es[k].message();
                    out.append(&mut m);
                    proof {
                        assert(out@ =~= prev + (seq![59u8, 32u8] + message_of(es@[k as int])));
                        assert(out@ + messages_tail(es@.subrange(k as int + 1, es@.len() as int))
                            =~= prev + messages_tail(es@.subrange(k as int, es@.len() as int)));
                    }
                    k = k + 1;
                }
                proof {
                    assert(es@.subrange(es@.len() as int, es@.len() as int)
                        =~= Seq::<CompilerError>::empty());
                    assert(out@ + Seq::<u8>::empty() =~= out@);
                }
                out
            },
        }
    }
}

/// The flat, ordered list of diagnostics for an error tree over text `t`:
/// spanned failures in tree order, each with the document range of its byte
/// span; spanless failures cover the whole document.
pub open spec fn flatten_spec(e: CompilerError, t: Seq<u8>) -> Seq<DiagnosticView>
    decreases e,
{
    match e {
        CompilerError::Multiple(es) => flatten_seq_spec(es@, t),
        CompilerError::Spanned(inner, span) => seq![
            DiagnosticView { range: range_at(t, span), message: message_of(*inner) },
        ],
        CompilerError::Leaf(m) => seq![
            DiagnosticView {
                range: range_at(t, Span { start: 0, end: t.len() as usize }),
                message: m@,
            },
        ],
    }
}

/// The concatenation of the diagnostics of each error of `s`, in order.
pub open spec fn flatten_seq_spec(s: Seq<CompilerError>, t: Seq<u8>) -> Seq<DiagnosticView>
    decreases s,
{
    if s.len() == 0 {
        Seq::empty()
    } else {
        flatten_spec(s[0], t) + flatten_seq_spec(s.subrange(1, s.len() as int), t)
    }
}

/// Recursively flattens a compiler-error tree into ranged diagnostics, in
/// the order the compiler produced the failures.  The error tree must be
/// one reported for this text, so its spans point into the buffer.
#[verifier::loop_isolation(false)]
pub fn collect_compiler_errors(compiler_error: &CompilerError, file_content: &[u8]) -> (r: Vec<
    Diagnostic,
>)
    requires
        error_spans_within(*compiler_error, file_content@.len() as int),
    ensures
        diags_view(r@) == flatten_spec(*compiler_error, file_content@),
    decreases *compiler_error,
{
    let ghost t = file_content@;
    match compiler_error {
        CompilerError::Multiple(errors) => {
            let mut out: Vec<Diagnostic> = Vec::new();
            proof {
                assert(diags_view(out@) =~= Seq::<DiagnosticView>::empty());
                assert(errors@.subrange(0, errors@.len() as int) =~= errors@);
                assert(diags_view(out@) + flatten_seq_spec(errors@, t) =~= flatten_seq_spec(
                    errors@,
                    t,
                ));
            }
            let mut k: usize = 0;
            while k < errors.len()
                invariant
                    k <= errors@.len(),
                    t == file_content@,
                    flatten_seq_spec(errors@, t) == diags_view(out@) + flatten_seq_spec(
                        errors@.subrange(k as int, errors@.len() as int),
                        t,
                    ),
                decreases errors@.len() - k,
            {
                proof {
                    lemma_errors_spans_within_index(errors@, t.len() as int, k as int);
                    assert(decreases_to!(*compiler_error => compiler_error->Multiple_0));
                    assert(decreases_to!(
                        compiler_error->Multiple_0 => compiler_error->Multiple_0@));
                    assert(decreases_to!(
                        compiler_error->Multiple_0@ => compiler_error->Multiple_0@[k as int]));
                    let rest = errors@.subrange(k as int, errors@.len() as int);
                    assert(rest[0] == errors@[k as int]);
                    assert(rest.subrange(1, rest.len() as int) =~= errors@.subrange(
                        k as int + 1,
                        errors@.len() as int,
                    ));
                }
                let ghost prev = out@;
                let mut part = collect_compiler_errors(&errors[k], file_content);
                let ghost partv = part@;
                out.append(&mut part);
                proof {
                    assert(diags_view(prev + partv) =~= diags_view(prev) + diags_view(partv));
                    assert(diags_view(out@) + flatten_seq_spec(
                        errors@.subrange(k as int + 1, errors@.len() as int),
                        t,
                    ) =~= diags_view(prev) + flatten_seq_spec(
                        errors@.subrange(k as int, errors@.len() as int),
                        t,
                    ));
                }
                k = k + 1;
            }
            proof {
                assert(errors@.subrange(errors@.len() as int, errors@.len() as int)
                    =~= Seq::<CompilerError>::empty());
                assert(diags_view(out@) + Seq::<DiagnosticView>::empty() =~= diags_view(out@));
            }
            out
        },
        CompilerError::Spanned(inner, span) => {
            let range = convert_byte_range_to_document_range(*span, file_content);
            let message = inner.message();
            let mut out: Vec<Diagnostic> = Vec::new();
            out.push(Diagnostic { range, message });
            proof {
                assert(diags_view(out@) =~= flatten_spec(*compiler_error, t));
            }
            out
        },
        CompilerError::Leaf(m) => {
            let whole = Span { start: 0, end: file_content.len() };
            let range = convert_byte_range_to_document_range(whole, file_content);
            let message = copy_bytes(m.as_slice());
            let mut out: Vec<Diagnostic> = Vec::new();
            out.push(Diagnostic { range, message });
            proof {
                assert(diags_view(out@) =~= flatten_spec(*compiler_error, t));
            }
            out
        },
    }
}

} // verus!
