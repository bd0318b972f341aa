//! The editor-facing request handlers: hover, completion and the
//! diagnostics pull, composed from the position index, the span locator and
//! the document store.

use crate::ast::DatexExpression;
use crate::ast::DatexExpressionData;
use crate::ast::VariableShape;
use crate::ast::locate_in;
use crate::bytes::append_bytes;
use crate::bytes::copy_bytes;
use crate::bytes::copy_range;
use crate::errors::Diagnostic;
use crate::errors::DiagnosticView;
use crate::errors::diags_view;
use crate::position::count_newlines;
use crate::position::is_offset_for;
use crate::position::is_scalar_start;
use crate::position::line_char_to_byte_index;
use crate::ast::ExpressionFinder;
use crate::ast::in_tree;
use crate::ast::lemma_locate_smallest;
use crate::ast::span_contains;
use crate::ast::span_width;
use crate::store::LanguageServerBackend;
use crate::store::TextDocumentView;
use crate::store::VariableMetadata;
use crate::store::VariableMetadataView;
use crate::store::find_index;
use crate::store::lemma_find_index_props;
use crate::store::lookup;
use crate::store::matching_variables;
use crate::store::stored_ast_wf;
use crate::store::variable_with_id;
use crate::store::vars_view;
use vstd::prelude::*;

verus! {

/// The byte at `i`, or zero past the end of the buffer.
pub open spec fn byte_at(t: Seq<u8>, i: int) -> u8 {
    if 0 <= i < t.len() {
        t[i]
    } else {
        0
    }
}

/// The Unicode scalar value decoded from the UTF-8 bytes starting at `j`
/// (bytes past the end of the buffer read as zero).  A continuation byte in
/// the lead position decodes to a negative value, which stands for no
/// scalar at all.
pub open spec fn scalar_value_at(t: Seq<u8>, j: int) -> int {
    let b0 = byte_at(t, j);
    if b0 < 0x80 {
        b0 as int
    } else if b0 < 0xE0 {
        (b0 - 0xC0) * 0x40 + byte_at(t, j + 1) % 0x40
    } else if b0 < 0xF0 {
        (b0 - 0xE0) * 0x1000 + (byte_at(t, j + 1) % 0x40) * 0x40 + byte_at(t, j + 2) % 0x40
    } else {
        (b0 - 0xF0) * 0x40000 + (byte_at(t, j + 1) % 0x40) * 0x1000 + (byte_at(t, j + 2) % 0x40)
            * 0x40 + byte_at(t, j + 3) % 0x40
    }
}

/// A valid Unicode scalar value: in range and not a surrogate.
pub open spec fn valid_scalar(c: int) -> bool {
    (0 <= c < 0xD800) || (0xE000 <= c <= 0x10FFFF)
}

/// Names what `char::is_alphanumeric` returns for the character with the
/// given scalar value: whether it is alphanumeric in Unicode.  The result
/// depends on the character alone.
pub uninterp spec fn unicode_alphanumeric(c: u32) -> bool;

/// Relies on char::from_u32: it returns the character with the given scalar
/// value exactly when the value is a valid Unicode scalar value (not a
/// surrogate and at most 0x10FFFF).
#[verifier::external_body]
fn char_from_u32(c: u32) -> (r: Option<char>)
    ensures
        r is Some <==> valid_scalar(c as int),
        r matches Some(ch) ==> ch as u32 == c,
{
    char::from_u32(c)
}

/// Relies on char::is_alphanumeric: the result depends on the character
/// alone.
#[verifier::external_body]
fn char_is_alphanumeric(ch: char) -> (r: bool)
    ensures
        r == unicode_alphanumeric(ch as u32),
{
    ch.is_alphanumeric()
}

/// Whether the scalar decoded at `j` belongs to an identifier: an
/// underscore or an alphanumeric character.
pub open spec fn is_word_scalar_at(t: Seq<u8>, j: int) -> bool {
    let c = scalar_value_at(t, j);
    c == 0x5F || (valid_scalar(c) && unicode_alphanumeric(c as u32))
}

/// The byte `k` places after `j`, or zero past the end of the buffer.
fn read_byte(text: &[u8], j: usize, k: usize) -> (r: u8)
    requires
        j < text@.len(),
    ensures
        r == byte_at(text@, j as int + k as int),
{
    if k < text.len() - j {
        text[j + k]
    } else {
        0
    }
}

/// Decides whether the scalar starting at byte `j` belongs to an
/// identifier.
fn is_word_scalar(text: &[u8], j: usize) -> (r: bool)
    requires
        j < text@.len(),
    ensures
        r == is_word_scalar_at(text@, j as int),
{
    let ghost t = text@;
    let b0 = text[j];
    if b0 >= 0x80 && b0 < 0xC0 {
        proof {
            assert(scalar_value_at(t, j as int) < 0);
        }
        return false;
    }
    let c: u32 = if b0 < 0x80 {
        b0 as u32
    } else if b0 < 0xE0 {
        (b0 - 0xC0) as u32 * 0x40 + (read_byte(text, j, 1) % 0x40) as u32
    } else if b0 < 0xF0 {
        (b0 - 0xE0) as u32 * 0x1000 + (read_byte(text, j, 1) % 0x40) as u32 * 0x40 + (read_byte(
            text,
            j,
            2,
        ) % 0x40) as u32
    } else {
        (b0 - 0xF0) as u32 * 0x40000 + (read_byte(text, j, 1) % 0x40) as u32 * 0x1000 + (read_byte(
            text,
            j,
            2,
        ) % 0x40) as u32 * 0x40 + (read_byte(text, j, 3) % 0x40) as u32
    };
    proof {
        assert(c as int == scalar_value_at(t, j as int));
    }
    if c == 0x5F {
        true
    } else {
        match char_from_u32(c) {
            Some(ch) => char_is_alphanumeric(ch),
            None => false,
        }
    }
}

/// The start of the scalar just before offset `s`: the nearest scalar-start
/// byte before `s`, or the start of the buffer.
pub open spec fn prev_scalar_start(t: Seq<u8>, s: int) -> int
    decreases s,
{
    if s <= 0 {
        0
    } else if is_scalar_start(t[s - 1]) {
        s - 1
    } else {
        prev_scalar_start(t, s - 1)
    }
}

proof fn lemma_prev_scalar_start_at(t: Seq<u8>, s: int, p: int)
    requires
        0 <= p < s,
        forall|j: int| p < j < s ==> !is_scalar_start(#[trigger] t[j]),
        p == 0 || is_scalar_start(t[p]),
    ensures
        prev_scalar_start(t, s) == p,
    decreases s,
{
    if s - 1 > p {
        assert(!is_scalar_start(t[s - 1]));
        lemma_prev_scalar_start_at(t, s - 1, p);
        assert(prev_scalar_start(t, s) == prev_scalar_start(t, s - 1));
    } else {
        assert(s - 1 == p);
        if p == 0 && !is_scalar_start(t[p]) {
            assert(prev_scalar_start(t, s) == prev_scalar_start(t, 0));
        }
    }
}

/// `s` starts the maximal run of identifier scalars ending at `off`: every
/// scalar in [s, off) is a word scalar, `s` is itself a scalar start (when
/// the run is not empty), and the scalar just before `s` (if any) is not a
/// word scalar.
pub open spec fn is_word_run_start(t: Seq<u8>, off: int, s: int) -> bool {
    &&& 0 <= s <= off
    &&& forall|j: int| s <= j < off && is_scalar_start(#[trigger] t[j]) ==> is_word_scalar_at(t, j)
    &&& (s < off ==> is_scalar_start(t[s]))
    &&& (s > 0 ==> !is_word_scalar_at(t, prev_scalar_start(t, s)))
}

/// The start of the maximal trailing run of identifier characters
/// (alphanumeric or underscore) ending at `byte_offset`.
#[verifier::loop_isolation(false)]
pub fn previous_word_start(text: &[u8], byte_offset: usize) -> (s: usize)
    requires
        byte_offset <= text@.len(),
    ensures
        is_word_run_start(text@, byte_offset as int, s as int),
{
    let ghost t = text@;
    let mut s: usize = byte_offset;
    while s > 0
        invariant
            s <= byte_offset,
            forall|j: int|
                s <= j < byte_offset && is_scalar_start(#[trigger] t[j]) ==> is_word_scalar_at(
                    t,
                    j,
                ),
            s < byte_offset ==> is_scalar_start(t[s as int]),
        decreases s,
    {
        let mut p: usize = s - 1;
        while p > 0 && !(text[p] < 0x80 || text[p] >= 0xC0)
            invariant
                p < s,
                forall|j: int| p < j < s ==> !is_scalar_start(#[trigger] t[j]),
            decreases p,
        {
            p = p - 1;
        }
        proof {
            lemma_prev_scalar_start_at(t, s as int, p as int);
        }
        if is_word_scalar(text, p) {
            proof {
                assert(is_scalar_start(t[p as int]));
            }
            s = p;
        } else {
            return s;
        }
    }
    s
}

} // verus!

verus! {

/// `r` is the maximal trailing identifier run of `t` before `off`.
pub open spec fn is_word_prefix(t: Seq<u8>, off: int, r: Seq<u8>) -> bool {
    exists|s: int| #[trigger] is_word_run_start(t, off, s) && r == t.subrange(s, off)
}

/// The rendered declaration qualifier: `"val"` or `"ref"` as UTF-8 bytes.
pub open spec fn shape_text(s: VariableShape) -> Seq<u8> {
    match s {
        VariableShape::Value => seq![118u8, 97u8, 108u8],
        VariableShape::Reference => seq![114u8, 101u8, 102u8],
    }
}

/// The rendered declared type as UTF-8 bytes; a variable without one
/// renders as `"unknown"`.
pub open spec fn type_text(t: Option<Seq<u8>>) -> Seq<u8> {
    match t {
        Option::Some(x) => x,
        Option::None => seq![117u8, 110u8, 107u8, 110u8, 111u8, 119u8, 110u8],
    }
}

/// The detail line of a variable: `"{shape} {name}: {type}"`.
pub open spec fn render_detail(v: VariableMetadataView) -> Seq<u8> {
    shape_text(v.shape) + seq![32u8] + v.name + seq![58u8, 32u8] + type_text(v.var_type)
}

/// The detail of the variable with the given id, if the id is known.
pub open spec fn rendered_variable(s: Seq<(Seq<u8>, TextDocumentView)>, id: usize) -> Option<
    Seq<u8>,
> {
    match variable_with_id(s, id) {
        Option::Some(v) => Option::Some(render_detail(v)),
        Option::None => Option::None,
    }
}

/// The textual value of a literal node, if the node is a literal.
pub open spec fn literal_text(e: DatexExpression) -> Option<Seq<u8>> {
    match e.data {
        DatexExpressionData::Integer(t) => Option::Some(t@),
        DatexExpressionData::TypedInteger(t) => Option::Some(t@),
        DatexExpressionData::Decimal(t) => Option::Some(t@),
        DatexExpressionData::TypedDecimal(t) => Option::Some(t@),
        DatexExpressionData::Text(t) => Option::Some(t@),
        DatexExpressionData::Endpoint(t) => Option::Some(t@),
        DatexExpressionData::Boolean(b) => Option::Some(
            if b {
                seq![116u8, 114u8, 117u8, 101u8]
            } else {
                seq![102u8, 97u8, 108u8, 115u8, 101u8]
            },
        ),
        DatexExpressionData::Null => Option::Some(seq![110u8, 117u8, 108u8, 108u8]),
        _ => Option::None,
    }
}

/// The hover text for a located node: variable nodes render their metadata
/// detail (absent when the id is missing or unknown), literal nodes render
/// their textual value, statement sequences give no hover info.
pub open spec fn hover_for_node(
    s: Seq<(Seq<u8>, TextDocumentView)>,
    e: DatexExpression,
) -> Option<Seq<u8>> {
    match e.data {
        DatexExpressionData::VariableDeclaration(d) => match d.id {
            Option::Some(id) => rendered_variable(s, id),
            Option::None => Option::None,
        },
        DatexExpressionData::VariableAssignment(a) => match a.id {
            Option::Some(id) => rendered_variable(s, id),
            Option::None => Option::None,
        },
        DatexExpressionData::Variable(id, _) => rendered_variable(s, id),
        DatexExpressionData::Statements(_) => Option::None,
        _ => literal_text(e),
    }
}

/// The value of an optional byte string.
pub open spec fn opt_bytes(r: Option<Vec<u8>>) -> Option<Seq<u8>> {
    match r {
        Option::Some(v) => Option::Some(v@),
        Option::None => Option::None,
    }
}

/// Renders the detail line `"{shape} {name}: {type}"` of a variable.
pub fn render_variable_detail(v: &VariableMetadata) -> (r: Vec<u8>)
    ensures
        r@ == render_detail(v@),
{
    let mut out: Vec<u8> = Vec::new();
    match v.shape {
        VariableShape::Value => {
            out.push(118u8);
            out.push(97u8);
            out.push(108u8);
        },
        VariableShape::Reference => {
            out.push(114u8);
            out.push(101u8);
            out.push(102u8);
        },
    }
    out.push(32u8);
    append_bytes(&mut out, v.name.as_slice());
    out.push(58u8);
    out.push(32u8);
    match &v.var_type {
        Option::Some(t) => append_bytes(&mut out, t.as_slice()),
        Option::None => {
            out.push(117u8);
            out.push(110u8);
            out.push(107u8);
            out.push(110u8);
            out.push(111u8);
            out.push(119u8);
            out.push(110u8);
        },
    }
    proof {
        assert(out@ =~= render_detail(v@));
    }
    out
}

/// One completion candidate: the variable's name as the label, its detail
/// line as the detail.
pub struct CompletionItem {
    pub label: Vec<u8>,
    pub detail: Vec<u8>,
}

/// The mathematical value of a completion candidate.
pub struct CompletionItemView {
    pub label: Seq<u8>,
    pub detail: Seq<u8>,
}

impl View for CompletionItem {
    type V = CompletionItemView;

    open spec fn view(&self) -> CompletionItemView {
        CompletionItemView { label: self.label@, detail: self.detail@ }
    }
}

/// The values of a list of completion candidates.
pub open spec fn items_view(s: Seq<CompletionItem>) -> Seq<CompletionItemView> {
    s.map_values(|it: CompletionItem| it@)
}

/// The candidate made from one variable.
pub open spec fn item_of(v: VariableMetadataView) -> CompletionItemView {
    CompletionItemView { label: v.name, detail: render_detail(v) }
}

/// One candidate per variable whose name starts with `prefix`, in store
/// order.
pub open spec fn completion_items_for(
    s: Seq<(Seq<u8>, TextDocumentView)>,
    prefix: Seq<u8>,
) -> Seq<CompletionItemView> {
    matching_variables(s, prefix).map_values(|v: VariableMetadataView| item_of(v))
}

impl LanguageServerBackend {
    /// Converts a (line, character) pair to a byte index in the given text.
    /// Lines and characters are zero-indexed; a character beyond the end of
    /// the line clamps to the line's end.  Fails exactly when the line is
    /// out of bounds.
    pub fn line_char_to_byte_index(text: &[u8], line: usize, character: usize) -> (r: Option<
        usize,
    >)
        ensures
            r is Some <==> line <= count_newlines(text@),
            r matches Some(off) ==> is_offset_for(text@, line as int, character as int, off as int),
    {
        line_char_to_byte_index(text, line, character)
    }

    /// Converts an editor position in a stored file to a byte offset.
    /// Fails explicitly when the path is unknown or the line lies beyond
    /// the buffer; a character beyond the end of its line still clamps to
    /// the line's end.
    pub fn position_to_byte_offset(&self, path: &[u8], line: usize, character: usize) -> (r: Option<
        usize,
    >)
        ensures
            match lookup(self@, path@) {
                Option::Some(d) => (r is Some <==> line <= count_newlines(d.content)) && (
                r matches Some(off) ==> is_offset_for(
                    d.content,
                    line as int,
                    character as int,
                    off as int,
                )),
                Option::None => r is None,
            },
    {
        match self.get(path) {
            Option::Some(doc) => line_char_to_byte_index(doc.content.as_slice(), line, character),
            Option::None => None,
        }
    }

    /// Retrieves the text immediately preceding the given position: the
    /// maximal trailing run of identifier characters (alphanumeric or
    /// underscore).  This is the prefix used for completion; an unknown
    /// path or an out-of-range line yields the empty prefix.
    pub fn get_previous_text_at_position(&self, path: &[u8], line: usize, character: usize) -> (r:
        Vec<u8>)
        ensures
            match lookup(self@, path@) {
                Option::Some(d) => if line <= count_newlines(d.content) {
                    exists|off: int|
                        #[trigger] is_offset_for(d.content, line as int, character as int, off)
                            && is_word_prefix(d.content, off, r@)
                } else {
                    r@ == Seq::<u8>::empty()
                },
                Option::None => r@ == Seq::<u8>::empty(),
            },
    {
        let doc = match self.get(path) {
            Option::Some(d) => d,
            Option::None => {
                let r: Vec<u8> = Vec::new();
                proof {
                    assert(r@ =~= Seq::<u8>::empty());
                }
                return r;
            },
        };
        let byte_offset = match line_char_to_byte_index(doc.content.as_slice(), line, character) {
            Option::Some(off) => off,
            Option::None => {
                let r: Vec<u8> = Vec::new();
                proof {
                    assert(r@ =~= Seq::<u8>::empty());
                }
                return r;
            },
        };
        let s = previous_word_start(doc.content.as_slice(), byte_offset);
        let r = copy_range(doc.content.as_slice(), s, byte_offset);
        proof {
            assert(lookup(self@, path@) == Option::Some(doc@));
            assert(is_offset_for(doc@.content, line as int, character as int, byte_offset as int));
            assert(is_word_prefix(doc@.content, byte_offset as int, r@));
        }
        r
    }

    /// Retrieves the most specific parse-tree node containing the given
    /// position, from the last successful parse of the file: a node whose
    /// span contains the offset such that no node of the tree containing
    /// the offset has a strictly smaller span.  An unknown path, a file
    /// without a tree, an out-of-range line, and a position outside the
    /// root span all yield nothing.
    pub fn get_expression_at_position(&self, path: &[u8], line: usize, character: usize) -> (r:
        Option<&DatexExpression>)
        requires
            self.wf(),
        ensures
            match lookup(self@, path@) {
                Option::None => r is None,
                Option::Some(d) => match d.ast {
                    Option::None => r is None,
                    Option::Some(root) => if line <= count_newlines(d.content) {
                        exists|off: int|
                            #[trigger] is_offset_for(d.content, line as int, character as int, off)
                                && (match r {
                                Option::Some(e) => locate_in(root, off, Option::None)
                                    == Option::Some(*e) && in_tree(*e, root) && span_contains(
                                    e.span,
                                    off,
                                ) && (forall|n: DatexExpression|
                                    (#[trigger] in_tree(n, root)) && span_contains(n.span, off)
                                        ==> span_width(e.span) <= span_width(n.span)),
                                Option::None => !span_contains(root.span, off),
                            })
                    } else {
                        r is None
                    },
                },
            },
    {
        proof {
            lemma_find_index_props(self@, path@);
        }
        let doc = match self.get(path) {
            Option::Some(d) => d,
            Option::None => {
                return None;
            },
        };
        let root = match &doc.ast {
            Option::Some(a) => a,
            Option::None => {
                return None;
            },
        };
        proof {
            let i = find_index(self@, path@);
            assert(stored_ast_wf(self@[i].1));
        }
        let byte_offset = match line_char_to_byte_index(doc.content.as_slice(), line, character) {
            Option::Some(off) => off,
            Option::None => {
                return None;
            },
        };
        let mut finder = ExpressionFinder::new(byte_offset);
        finder.visit_expression(root);
        proof {
            assert(lookup(self@, path@) == Option::Some(doc@));
            assert(is_offset_for(doc@.content, line as int, character as int, byte_offset as int));
            lemma_locate_smallest(*root, byte_offset as int);
        }
        finder.found_expr
    }

    /// The rendered detail of the variable with the given id, if known.
    fn render_variable(&self, id: usize) -> (r: Option<Vec<u8>>)
        ensures
            opt_bytes(r) == rendered_variable(self@, id),
    {
        match self.get_variable_by_id(id) {
            Option::Some(v) => Option::Some(render_variable_detail(&v)),
            Option::None => Option::None,
        }
    }

    /// Hover text for the node at the given position: variable nodes render
    /// `"{shape} {name}: {type}"` from their metadata, literal nodes render
    /// their textual value, anything else gives no hover info.
    pub fn hover(&self, path: &[u8], line: usize, character: usize) -> (r: Option<Vec<u8>>)
        requires
            self.wf(),
        ensures
            match lookup(self@, path@) {
                Option::None => r is None,
                Option::Some(d) => match d.ast {
                    Option::None => r is None,
                    Option::Some(root) => if line <= count_newlines(d.content) {
                        exists|off: int|
                            #[trigger] is_offset_for(d.content, line as int, character as int, off)
                                && (match locate_in(root, off, Option::None) {
                                Option::Some(e) => opt_bytes(r) == hover_for_node(self@, e),
                                Option::None => r is None,
                            })
                    } else {
                        r is None
                    },
                },
            },
    {
        let located = self.get_expression_at_position(path, line, character);
        match located {
            Option::None => None,
            Option::Some(e) => match &e.data {
                DatexExpressionData::VariableDeclaration(d) => match &d.id {
                    Option::Some(id) => self.render_variable(*id),
                    Option::None => None,
                },
                DatexExpressionData::VariableAssignment(a) => match &a.id {
                    Option::Some(id) => self.render_variable(*id),
                    Option::None => None,
                },
                DatexExpressionData::Variable(id, _) => self.render_variable(*id),
                DatexExpressionData::Statements(_) => None,
                DatexExpressionData::Integer(t) => Some(copy_bytes(t.as_slice())),
                DatexExpressionData::TypedInteger(t) => Some(copy_bytes(t.as_slice())),
                DatexExpressionData::Decimal(t) => Some(copy_bytes(t.as_slice())),
                DatexExpressionData::TypedDecimal(t) => Some(copy_bytes(t.as_slice())),
                DatexExpressionData::Text(t) => Some(copy_bytes(t.as_slice())),
                DatexExpressionData::Endpoint(t) => Some(copy_bytes(t.as_slice())),
                DatexExpressionData::Boolean(b) => {
                    let mut out: Vec<u8> = Vec::new();
                    if *b {
                        out.push(116u8);
                        out.push(114u8);
                        out.push(117u8);
                        out.push(101u8);
                    } else {
                        out.push(102u8);
                        out.push(97u8);
                        out.push(108u8);
                        out.push(115u8);
                        out.push(101u8);
                    }
                    proof {
                        assert(Option::Some(out@) =~= literal_text(*e));
                    }
                    Some(out)
                },
                DatexExpressionData::Null => {
                    let mut out: Vec<u8> = Vec::new();
                    out.push(110u8);
                    out.push(117u8);
                    out.push(108u8);
                    out.push(108u8);
                    proof {
                        assert(Option::Some(out@) =~= literal_text(*e));
                    }
                    Some(out)
                },
            },
        }
    }

    /// Completion candidates at the given position: one per variable of the
    /// workspace whose name starts with the identifier prefix ending at the
    /// cursor.  An unknown path or an out-of-range line yields no
    /// candidates.
    #[verifier::loop_isolation(false)]
    pub fn completion(&self, path: &[u8], line: usize, character: usize) -> (r: Vec<CompletionItem>)
        ensures
            match lookup(self@, path@) {
                Option::None => r@.len() == 0,
                Option::Some(d) => if line <= count_newlines(d.content) {
                    exists|off: int|
                        #[trigger] is_offset_for(d.content, line as int, character as int, off)
                            && exists|prefix: Seq<u8>|
                            #[trigger] is_word_prefix(d.content, off, prefix) && items_view(r@)
                                == completion_items_for(self@, prefix)
                } else {
                    r@.len() == 0
                },
            },
    {
        let doc = match self.get(path) {
            Option::Some(d) => d,
            Option::None => {
                return Vec::new();
            },
        };
        let byte_offset = match line_char_to_byte_index(doc.content.as_slice(), line, character) {
            Option::Some(off) => off,
            Option::None => {
                return Vec::new();
            },
        };
        let word_start = previous_word_start(doc.content.as_slice(), byte_offset);
        let prefix = copy_range(doc.content.as_slice(), word_start, byte_offset);
        let variables = self.find_variable_starting_with(prefix.as_slice());
        let ghost vv = vars_view(variables@);
        let mut items: Vec<CompletionItem> = Vec::new();
        proof {
            assert(items_view(items@) =~= vv.subrange(0, 0).map_values(
                |v: VariableMetadataView| item_of(v),
            ));
        }
        let mut k: usize = 0;
        while k < variables.len()
            invariant
                k <= vv.len(),
                vv.len() == variables@.len(),
                items_view(items@) == vv.subrange(0, k as int).map_values(
                    |v: VariableMetadataView| item_of(v),
                ),
            decreases vv.len() - k,
        {
            let ghost prev = items@;
            let var = &variables[k];
            let label = copy_bytes(var.name.as_slice());
            let detail = render_variable_detail(var);
            items.push(CompletionItem { label, detail });
            proof {
                assert(vv[k as int] == variables@[k as int]@);
                assert(items_view(items@) =~= items_view(prev) + seq![
                    item_of(vv[k as int]),
                ]);
                assert(vv.subrange(0, k as int + 1).map_values(
                    |v: VariableMetadataView| item_of(v),
                ) =~= vv.subrange(0, k as int).map_values(|v: VariableMetadataView| item_of(v))
                    + seq![item_of(vv[k as int])]);
            }
            k = k + 1;
        }
        proof {
            assert(vv.subrange(0, vv.len() as int) =~= vv);
            assert(items_view(items@) =~= completion_items_for(self@, prefix@));
            assert(lookup(self@, path@) == Option::Some(doc@));
            assert(is_offset_for(doc@.content, line as int, character as int, byte_offset as int));
            assert(is_word_prefix(doc@.content, byte_offset as int, prefix@));
        }
        items
    }

    /// The stored diagnostics for the path, verbatim; empty when the path
    /// is unknown.
    #[verifier::loop_isolation(false)]
    pub fn diagnostics(&self, path: &[u8]) -> (r: Vec<Diagnostic>)
        ensures
            diags_view(r@) == match lookup(self@, path@) {
                Option::Some(d) => d.diagnostics,
                Option::None => Seq::<DiagnosticView>::empty(),
            },
    {
        let doc = match self.get(path) {
            Option::Some(d) => d,
            Option::None => {
                let r: Vec<Diagnostic> = Vec::new();
                proof {
                    assert(diags_view(r@) =~= Seq::<DiagnosticView>::empty());
                }
                return r;
            },
        };
        let mut out: Vec<Diagnostic> = Vec::new();
        proof {
            assert(diags_view(out@) =~= diags_view(doc.diagnostics@).subrange(0, 0));
        }
        let mut k: usize = 0;
        while k < doc.diagnostics.len()
            invariant
                k <= doc.diagnostics@.len(),
                diags_view(out@) == diags_view(doc.diagnostics@).subrange(0, k as int),
            decreases doc.diagnostics@.len() - k,
        {
            let ghost prev = out@;
            out.push(doc.diagnostics[k].clone());
            proof {
                assert(diags_view(out@) =~= diags_view(prev) + seq![
                    diags_view(doc.diagnostics@)[k as int],
                ]);
                assert(diags_view(doc.diagnostics@).subrange(0, k as int + 1) =~= diags_view(
                    doc.diagnostics@,
                ).subrange(0, k as int) + seq![diags_view(doc.diagnostics@)[k as int]]);
            }
            k = k + 1;
        }
        proof {
            assert(diags_view(doc.diagnostics@).subrange(0, doc.diagnostics@.len() as int)
                =~= diags_view(doc.diagnostics@));
        }
        out
    }
}

} // verus!
