//! Per-document state: the text of each open file, its last successful
//! parse tree and variable table, and the diagnostics of its last compile.
//!
//! The store maps file paths (UTF-8 bytes) to documents, in the order the
//! files were first opened.  Every change notification replaces a document's
//! state wholesale: on a successful compile the tree and table are replaced
//! and the diagnostics cleared; on a failed compile the text and diagnostics
//! are replaced while the last successful tree and table are kept, so hover
//! and completion keep working against stale-but-valid structure.

use crate::ast::DatexExpression;
use crate::ast::VariableShape;
use crate::ast::expr_wf;
use crate::ast::spans_nested;
use crate::bytes::bytes_eq;
use crate::bytes::bytes_start_with;
use crate::bytes::copy_bytes;
use crate::bytes::is_prefix_of;
use crate::errors::CompilerError;
use crate::errors::Diagnostic;
use crate::errors::DiagnosticView;
use crate::errors::collect_compiler_errors;
use crate::errors::diags_view;
use crate::errors::error_spans_within;
use crate::errors::flatten_spec;
use vstd::prelude::*;

verus! {

/// Metadata the compiler collaborator records for one variable: a unique
/// id, the name, the declaration qualifier and an optional declared type.
pub struct VariableMetadata {
    pub id: usize,
    pub name: Vec<u8>,
    pub shape: VariableShape,
    pub var_type: Option<Vec<u8>>,
}

/// The mathematical value of a variable's metadata.
pub struct VariableMetadataView {
    pub id: usize,
    pub name: Seq<u8>,
    pub shape: VariableShape,
    pub var_type: Option<Seq<u8>>,
}

impl View for VariableMetadata {
    type V = VariableMetadataView;

    open spec fn view(&self) -> VariableMetadataView {
        VariableMetadataView {
            id: self.id,
            name: self.name@,
            shape: self.shape,
            var_type: match self.var_type {
                Option::Some(t) => Option::Some(t@),
                Option::None => Option::None,
            },
        }
    }
}

impl Clone for VariableMetadata {
    fn clone(&self) -> (r: Self)
        ensures
            r@ == self@,
    {
        VariableMetadata {
            id: self.id,
            name: copy_bytes(self.name.as_slice()),
            shape: self.shape,
            var_type: match &self.var_type {
                Option::Some(t) => Option::Some(copy_bytes(t.as_slice())),
                Option::None => Option::None,
            },
        }
    }
}

/// The values of a variable table.
pub open spec fn vars_view(s: Seq<VariableMetadata>) -> Seq<VariableMetadataView> {
    s.map_values(|v: VariableMetadata| v@)
}

/// One open document: its text, its last successful parse tree (absent only
/// while no compile of the path has ever succeeded), the variable table of
/// that tree, and the diagnostics of the last compile.
pub struct TextDocument {
    pub content: Vec<u8>,
    pub ast: Option<DatexExpression>,
    pub variables: Vec<VariableMetadata>,
    pub diagnostics: Vec<Diagnostic>,
}

/// The mathematical value of a document.
pub struct TextDocumentView {
    pub content: Seq<u8>,
    pub ast: Option<DatexExpression>,
    pub variables: Seq<VariableMetadataView>,
    pub diagnostics: Seq<DiagnosticView>,
}

impl View for TextDocument {
    type V = TextDocumentView;

    open spec fn view(&self) -> TextDocumentView {
        TextDocumentView {
            content: self.content@,
            ast: self.ast,
            variables: vars_view(self.variables@),
            diagnostics: diags_view(self.diagnostics@),
        }
    }
}

/// The outcome the compiler collaborator hands back for one document
/// version.
pub enum CompileResult {
    /// Compilation succeeded with a parse tree and the variable table.
    Success { ast: DatexExpression, variables: Vec<VariableMetadata> },
    /// Compilation failed with a tree of errors.
    Failure(CompilerError),
}

/// The document stored after compiling `content` with outcome `result`,
/// given the tree and table of the previous version.
pub open spec fn compiled_from(
    prev_ast: Option<DatexExpression>,
    prev_vars: Seq<VariableMetadataView>,
    content: Seq<u8>,
    result: CompileResult,
) -> TextDocumentView {
    match result {
        CompileResult::Success { ast, variables } => TextDocumentView {
            content,
            ast: Option::Some(ast),
            variables: vars_view(variables@),
            diagnostics: Seq::empty(),
        },
        CompileResult::Failure(err) => TextDocumentView {
            content,
            ast: prev_ast,
            variables: prev_vars,
            diagnostics: flatten_spec(err, content),
        },
    }
}

/// As `compiled_from`, starting from a whole previous document (or none).
pub open spec fn compiled_document(
    prev: Option<TextDocumentView>,
    content: Seq<u8>,
    result: CompileResult,
) -> TextDocumentView {
    match prev {
        Option::Some(d) => compiled_from(d.ast, d.variables, content, result),
        Option::None => compiled_from(Option::None, Seq::empty(), content, result),
    }
}

/// The index of the entry for `path`, or -1 when the path is unknown.
pub open spec fn find_index(s: Seq<(Seq<u8>, TextDocumentView)>, path: Seq<u8>) -> int
    decreases s,
{
    if s.len() == 0 {
        -1
    } else if s[0].0 == path {
        0
    } else {
        let r = find_index(s.subrange(1, s.len() as int), path);
        if r < 0 {
            -1
        } else {
            r + 1
        }
    }
}

/// The stored document for `path`, if any.
pub open spec fn lookup(s: Seq<(Seq<u8>, TextDocumentView)>, path: Seq<u8>) -> Option<
    TextDocumentView,
> {
    let i = find_index(s, path);
    if i >= 0 {
        Option::Some(s[i].1)
    } else {
        Option::None
    }
}

/// `find_index` returns the position of the first entry for `path`, or -1
/// when there is none.
pub proof fn lemma_find_index_props(s: Seq<(Seq<u8>, TextDocumentView)>, path: Seq<u8>)
    ensures
        find_index(s, path) == -1 || (0 <= find_index(s, path) < s.len()),
        find_index(s, path) == -1 ==> forall|j: int| 0 <= j < s.len() ==> s[j].0 != path,
        find_index(s, path) >= 0 ==> s[find_index(s, path)].0 == path && forall|j: int|
            0 <= j < find_index(s, path) ==> s[j].0 != path,
    decreases s,
{
    if s.len() > 0 && s[0].0 != path {
        let rest = s.subrange(1, s.len() as int);
        lemma_find_index_props(rest, path);
        if find_index(s, path) == -1 {
            assert forall|j: int| 0 <= j < s.len() implies s[j].0 != path by {
                if j > 0 {
                    assert(rest[j - 1] == s[j]);
                }
            }
        } else {
            let i = find_index(s, path);
            assert(rest[i - 1] == s[i]);
            assert forall|j: int| 0 <= j < i implies s[j].0 != path by {
                if j > 0 {
                    assert(rest[j - 1] == s[j]);
                }
            }
        }
    }
}

/// `find_index` finds exactly the first match.
pub proof fn lemma_find_index_at(s: Seq<(Seq<u8>, TextDocumentView)>, path: Seq<u8>, i: int)
    requires
        0 <= i < s.len(),
        s[i].0 == path,
        forall|j: int| 0 <= j < i ==> s[j].0 != path,
    ensures
        find_index(s, path) == i,
{
    lemma_find_index_props(s, path);
}

/// No entry for `path` means `find_index` misses.
pub proof fn lemma_find_index_none(s: Seq<(Seq<u8>, TextDocumentView)>, path: Seq<u8>)
    requires
        forall|j: int| 0 <= j < s.len() ==> s[j].0 != path,
    ensures
        find_index(s, path) == -1,
{
    lemma_find_index_props(s, path);
}

/// No two entries share a path.
pub open spec fn paths_unique(s: Seq<(Seq<u8>, TextDocumentView)>) -> bool {
    forall|i: int, j: int| 0 <= i < j < s.len() ==> s[i].0 != s[j].0
}

/// The stored tree, if any, is well-formed: every span a real range, and
/// every child's span within its parent's (the containment invariant of the
/// parse tree).
pub open spec fn stored_ast_wf(d: TextDocumentView) -> bool {
    match d.ast {
        Option::Some(e) => expr_wf(e) && spans_nested(e),
        Option::None => true,
    }
}

/// Every stored tree is well-formed.
pub open spec fn asts_wf(s: Seq<(Seq<u8>, TextDocumentView)>) -> bool {
    forall|i: int| 0 <= i < s.len() ==> stored_ast_wf(#[trigger] s[i].1)
}

/// The store after recording a new version of `path`: the entry for the
/// path is replaced in place, or appended when the path is new.
pub open spec fn update_spec(
    s: Seq<(Seq<u8>, TextDocumentView)>,
    path: Seq<u8>,
    content: Seq<u8>,
    result: CompileResult,
) -> Seq<(Seq<u8>, TextDocumentView)> {
    let i = find_index(s, path);
    if i >= 0 {
        s.update(i, (path, compiled_document(Option::Some(s[i].1), content, result)))
    } else {
        s.push((path, compiled_document(Option::None, content, result)))
    }
}

/// The per-file state of the language service: one document per opened
/// path, in first-open order.
pub struct LanguageServerBackend {
    pub files: Vec<(Vec<u8>, TextDocument)>,
}

impl View for LanguageServerBackend {
    type V = Seq<(Seq<u8>, TextDocumentView)>;

    open spec fn view(&self) -> Seq<(Seq<u8>, TextDocumentView)> {
        self.files@.map_values(|p: (Vec<u8>, TextDocument)| (p.0@, p.1@))
    }
}

impl LanguageServerBackend {
    /// The store never holds two entries for one path, and every stored
    /// tree is well-formed.
    pub open spec fn wf(&self) -> bool {
        paths_unique(self@) && asts_wf(self@)
    }

    /// An empty store.
    pub fn new() -> (r: Self)
        ensures
            r@ == Seq::<(Seq<u8>, TextDocumentView)>::empty(),
            r.wf(),
    {
        let r = LanguageServerBackend { files: Vec::new() };
        proof {
            assert(r@ =~= Seq::<(Seq<u8>, TextDocumentView)>::empty());
        }
        r
    }

    /// Builds the document stored for a new version, keeping the previous
    /// tree and table when the compile failed.
    fn recompiled(
        prev_ast: Option<DatexExpression>,
        prev_variables: Vec<VariableMetadata>,
        content: Vec<u8>,
        result: CompileResult,
    ) -> (d: TextDocument)
        requires
            result matches CompileResult::Failure(err) ==> error_spans_within(
                err,
                content@.len() as int,
            ),
        ensures
            d@ == compiled_from(prev_ast, vars_view(prev_variables@), content@, result),
    {
        match result {
            CompileResult::Success { ast, variables } => {
                let d = TextDocument {
                    content,
                    ast: Some(ast),
                    variables,
                    diagnostics: Vec::new(),
                };
                proof {
                    assert(diags_view(Seq::<Diagnostic>::empty()) =~= Seq::<
                        DiagnosticView,
                    >::empty());
                }
                d
            },
            CompileResult::Failure(err) => {
                let diagnostics = collect_compiler_errors(&err, content.as_slice());
                TextDocument { content, ast: prev_ast, variables: prev_variables, diagnostics }
            },
        }
    }

    /// Records a new version of a document, given the text and the outcome
    /// of compiling it.  Compile failures always resolve into diagnostics,
    /// never into a propagated failure.  The outcome must be what the
    /// compiler collaborator guarantees: a successful outcome carries a
    /// well-formed tree (every span a real range, children's spans within
    /// their parent's), and a failed one carries errors whose spans point
    /// into the compiled text.
    #[verifier::loop_isolation(false)]
    pub fn update_file_contents(&mut self, path: Vec<u8>, content: Vec<u8>, result: CompileResult)
        requires
            old(self).wf(),
            result matches CompileResult::Success { ast, variables } ==> expr_wf(ast)
                && spans_nested(ast),
            result matches CompileResult::Failure(err) ==> error_spans_within(
                err,
                content@.len() as int,
            ),
        ensures
            final(self).wf(),
            final(self)@ == update_spec(old(self)@, path@, content@, result),
    {
        let mut i: usize = 0;
        let mut found: bool = false;
        while i < self.files.len() && !found
            invariant
                i <= self@.len(),
                *self == *old(self),
                forall|j: int| 0 <= j < i ==> self@[j].0 != path@,
                found ==> i < self@.len() && self@[i as int].0 == path@,
            decreases self@.len() - i, if found { 0int } else { 1int },
        {
            if bytes_eq(self.files[i].0.as_slice(), path.as_slice()) {
                found = true;
            } else {
                i = i + 1;
            }
        }
        if found {
            proof {
                lemma_find_index_at(self@, path@, i as int);
            }
            let (stored_path, old_doc) = self.files.remove(i);
            let doc = Self::recompiled(old_doc.ast, old_doc.variables, content, result);
            self.files.insert(i, (path, doc));
            proof {
                assert(self@ =~= update_spec(old(self)@, path@, content@, result));
                assert forall|a: int, b: int| 0 <= a < b < self@.len() implies self@[a].0
                    != self@[b].0 by {
                    assert(old(self)@[a].0 != old(self)@[b].0);
                }
                assert forall|a: int| 0 <= a < self@.len() implies stored_ast_wf(
                    #[trigger] self@[a].1,
                ) by {
                    if a != i as int {
                        assert(stored_ast_wf(old(self)@[a].1));
                    } else {
                        assert(stored_ast_wf(old(self)@[a].1));
                    }
                }
            }
        } else {
            proof {
                lemma_find_index_none(self@, path@);
            }
            let doc = Self::recompiled(None, Vec::new(), content, result);
            self.files.push((path, doc));
            proof {
                assert(vars_view(Seq::<VariableMetadata>::empty()) =~= Seq::<
                    VariableMetadataView,
                >::empty());
                assert(self@ =~= update_spec(old(self)@, path@, content@, result));
                assert forall|a: int, b: int| 0 <= a < b < self@.len() implies self@[a].0
                    != self@[b].0 by {
                    if b < self@.len() - 1 {
                        assert(old(self)@[a].0 != old(self)@[b].0);
                    }
                }
                assert forall|a: int| 0 <= a < self@.len() implies stored_ast_wf(
                    #[trigger] self@[a].1,
                ) by {
                    if a < self@.len() - 1 {
                        assert(stored_ast_wf(old(self)@[a].1));
                    }
                }
            }
        }
    }

    /// The stored document for `path`, if the path has been opened.
    #[verifier::loop_isolation(false)]
    pub fn get(&self, path: &[u8]) -> (r: Option<&TextDocument>)
        ensures
            match r {
                Option::Some(d) => lookup(self@, path@) == Option::Some(d@),
                Option::None => lookup(self@, path@) is None,
            },
    {
        let mut i: usize = 0;
        while i < self.files.len()
            invariant
                i <= self@.len(),
                forall|j: int| 0 <= j < i ==> self@[j].0 != path@,
            decreases self@.len() - i,
        {
            if bytes_eq(self.files[i].0.as_slice(), path) {
                proof {
                    lemma_find_index_at(self@, path@, i as int);
                }
                return Some(&self.files[i].1);
            }
            i = i + 1;
        }
        proof {
            lemma_find_index_none(self@, path@);
        }
        None
    }
}

} // verus!

verus! {

/// Variables of one table whose name begins with `prefix`, in table order.
pub open spec fn filter_matching(vars: Seq<VariableMetadataView>, prefix: Seq<u8>) -> Seq<
    VariableMetadataView,
>
    decreases vars,
{
    if vars.len() == 0 {
        Seq::empty()
    } else {
        (if is_prefix_of(prefix, vars[0].name) {
            seq![vars[0]]
        } else {
            Seq::empty()
        }) + filter_matching(vars.subrange(1, vars.len() as int), prefix)
    }
}

/// All variables of the store whose name begins with `prefix`, preserving
/// per-file then per-variable order.
pub open spec fn matching_variables(
    s: Seq<(Seq<u8>, TextDocumentView)>,
    prefix: Seq<u8>,
) -> Seq<VariableMetadataView>
    decreases s,
{
    if s.len() == 0 {
        Seq::empty()
    } else {
        filter_matching(s[0].1.variables, prefix) + matching_variables(
            s.subrange(1, s.len() as int),
            prefix,
        )
    }
}

/// The first of two optional findings.
pub open spec fn or_else(
    a: Option<VariableMetadataView>,
    b: Option<VariableMetadataView>,
) -> Option<VariableMetadataView> {
    match a {
        Option::Some(v) => Option::Some(v),
        Option::None => b,
    }
}

/// The first variable of one table whose id is `id`.
pub open spec fn variable_by_id_in(vars: Seq<VariableMetadataView>, id: usize) -> Option<
    VariableMetadataView,
>
    decreases vars,
{
    if vars.len() == 0 {
        Option::None
    } else if vars[0].id == id {
        Option::Some(vars[0])
    } else {
        variable_by_id_in(vars.subrange(1, vars.len() as int), id)
    }
}

/// The first variable of the store (in per-file then per-variable order)
/// whose id is `id`.
pub open spec fn variable_with_id(s: Seq<(Seq<u8>, TextDocumentView)>, id: usize) -> Option<
    VariableMetadataView,
>
    decreases s,
{
    if s.len() == 0 {
        Option::None
    } else {
        or_else(
            variable_by_id_in(s[0].1.variables, id),
            variable_with_id(s.subrange(1, s.len() as int), id),
        )
    }
}

impl LanguageServerBackend {
    /// Finds all variables in the workspace whose names start with the
    /// given prefix (a literal, case-sensitive byte-prefix test).
    #[verifier::loop_isolation(false)]
    pub fn find_variable_starting_with(&self, prefix: &[u8]) -> (r: Vec<VariableMetadata>)
        ensures
            vars_view(r@) == matching_variables(self@, prefix@),
    {
        let mut results: Vec<VariableMetadata> = Vec::new();
        proof {
            assert(vars_view(results@) =~= Seq::<VariableMetadataView>::empty());
            assert(self@.subrange(0, self@.len() as int) =~= self@);
        }
        let mut i: usize = 0;
        while i < self.files.len()
            invariant
                i <= self@.len(),
                matching_variables(self@, prefix@) == vars_view(results@) + matching_variables(
                    self@.subrange(i as int, self@.len() as int),
                    prefix@,
                ),
            decreases self@.len() - i,
        {
            let doc = &self.files[i].1;
            let ghost tail = self@.subrange(i as int, self@.len() as int);
            let ghost vv = vars_view(doc.variables@);
            proof {
                assert(tail[0] == self@[i as int]);
                assert(self@[i as int].1 == doc@);
                assert(tail.subrange(1, tail.len() as int) =~= self@.subrange(
                    i as int + 1,
                    self@.len() as int,
                ));
                assert(vv.subrange(0, vv.len() as int) =~= vv);
            }
            let mut k: usize = 0;
            while k < doc.variables.len()
                invariant
                    k <= vv.len(),
                    vv.len() == doc.variables@.len(),
                    matching_variables(self@, prefix@) == vars_view(results@) + filter_matching(
                        vv.subrange(k as int, vv.len() as int),
                        prefix@,
                    ) + matching_variables(
                        self@.subrange(i as int + 1, self@.len() as int),
                        prefix@,
                    ),
                decreases vv.len() - k,
            {
                let ghost vtail = vv.subrange(k as int, vv.len() as int);
                proof {
                    assert(vtail[0] == vv[k as int]);
                    assert(vv[k as int] == doc.variables@[k as int]@);
                    assert(vtail.subrange(1, vtail.len() as int) =~= vv.subrange(
                        k as int + 1,
                        vv.len() as int,
                    ));
                }
                let ghost prev = results@;
                let v = &doc.variables[k];
                if bytes_start_with(v.name.as_slice(), prefix) {
                    results.push(v.clone());
                    proof {
                        assert(vars_view(results@) =~= vars_view(prev) + seq![vv[k as int]]);
                        assert(vars_view(results@) + filter_matching(
                            vv.subrange(k as int + 1, vv.len() as int),
                            prefix@,
                        ) =~= vars_view(prev) + filter_matching(vtail, prefix@));
                    }
                } else {
                    proof {
                        assert(vars_view(results@) + filter_matching(
                            vv.subrange(k as int + 1, vv.len() as int),
                            prefix@,
                        ) =~= vars_view(prev) + filter_matching(vtail, prefix@));
                    }
                }
                k = k + 1;
            }
            proof {
                assert(vv.subrange(vv.len() as int, vv.len() as int) =~= Seq::<
                    VariableMetadataView,
                >::empty());
                assert(vars_view(results@) + matching_variables(
                    self@.subrange(i as int + 1, self@.len() as int),
                    prefix@,
                ) =~= vars_view(results@) + filter_matching(
                    vv.subrange(vv.len() as int, vv.len() as int),
                    prefix@,
                ) + matching_variables(self@.subrange(i as int + 1, self@.len() as int), prefix@));
            }
            i = i + 1;
        }
        proof {
            assert(self@.subrange(self@.len() as int, self@.len() as int) =~= Seq::<
                (Seq<u8>, TextDocumentView),
            >::empty());
            assert(vars_view(results@) + Seq::<VariableMetadataView>::empty() =~= vars_view(
                results@,
            ));
        }
        results
    }

    /// Retrieves variable metadata by its unique id: the first variable of
    /// any open file whose id matches, scanning files in first-open order.
    #[verifier::loop_isolation(false)]
    pub fn get_variable_by_id(&self, id: usize) -> (r: Option<VariableMetadata>)
        ensures
            match r {
                Option::Some(v) => variable_with_id(self@, id) == Option::Some(v@),
                Option::None => variable_with_id(self@, id) is None,
            },
    {
        proof {
            assert(self@.subrange(0, self@.len() as int) =~= self@);
        }
        let mut i: usize = 0;
        while i < self.files.len()
            invariant
                i <= self@.len(),
                variable_with_id(self@, id) == variable_with_id(
                    self@.subrange(i as int, self@.len() as int),
                    id,
                ),
            decreases self@.len() - i,
        {
            let doc = &self.files[i].1;
            let ghost tail = self@.subrange(i as int, self@.len() as int);
            let ghost vv = vars_view(doc.variables@);
            proof {
                assert(tail[0] == self@[i as int]);
                assert(self@[i as int].1 == doc@);
                assert(tail.subrange(1, tail.len() as int) =~= self@.subrange(
                    i as int + 1,
                    self@.len() as int,
                ));
                assert(vv.subrange(0, vv.len() as int) =~= vv);
            }
            let mut k: usize = 0;
            while k < doc.variables.len()
                invariant
                    k <= vv.len(),
                    vv.len() == doc.variables@.len(),
                    variable_with_id(self@, id) == or_else(
                        variable_by_id_in(vv.subrange(k as int, vv.len() as int), id),
                        variable_with_id(self@.subrange(i as int + 1, self@.len() as int), id),
                    ),
                decreases vv.len() - k,
            {
                let ghost vtail = vv.subrange(k as int, vv.len() as int);
                proof {
                    assert(vtail[0] == vv[k as int]);
                    assert(vv[k as int] == doc.variables@[k as int]@);
                    assert(vtail.subrange(1, vtail.len() as int) =~= vv.subrange(
                        k as int + 1,
                        vv.len() as int,
                    ));
                }
                let v = &doc.variables[k];
                if v.id == id {
                    return Some(v.clone());
                }
                k = k + 1;
            }
            proof {
                assert(vv.subrange(vv.len() as int, vv.len() as int) =~= Seq::<
                    VariableMetadataView,
                >::empty());
            }
            i = i + 1;
        }
        proof {
            assert(self@.subrange(self@.len() as int, self@.len() as int) =~= Seq::<
                (Seq<u8>, TextDocumentView),
            >::empty());
        }
        None
    }
}

/// After recording a version of a path, the stored document for that path
/// is exactly the one compiled from that version.
pub proof fn lemma_update_lookup(
    s: Seq<(Seq<u8>, TextDocumentView)>,
    path: Seq<u8>,
    content: Seq<u8>,
    result: CompileResult,
)
    ensures
        lookup(update_spec(s, path, content, result), path) == Option::Some(
            compiled_document(lookup(s, path), content, result),
        ),
{
    lemma_find_index_props(s, path);
    let i = find_index(s, path);
    if i >= 0 {
        let s2 = s.update(i, (path, compiled_document(Option::Some(s[i].1), content, result)));
        lemma_find_index_at(s2, path, i);
    } else {
        let s2 = s.push((path, compiled_document(Option::None, content, result)));
        lemma_find_index_at(s2, path, s.len() as int);
    }
}

/// Diagnostics replacement: after any recorded version of a path, recording
/// a version that compiled successfully leaves the path with an empty
/// diagnostics list; nothing from the earlier version leaks through.
pub proof fn lemma_diagnostics_replaced(
    s: Seq<(Seq<u8>, TextDocumentView)>,
    path: Seq<u8>,
    first_content: Seq<u8>,
    first_result: CompileResult,
    second_content: Seq<u8>,
    ast: DatexExpression,
    variables: Vec<VariableMetadata>,
)
    ensures
        ({
            let after_first = update_spec(s, path, first_content, first_result);
            let after_second = update_spec(
                after_first,
                path,
                second_content,
                CompileResult::Success { ast, variables },
            );
            lookup(after_second, path) matches Some(d) && d.diagnostics == Seq::<
                DiagnosticView,
            >::empty()
        }),
{
    let after_first = update_spec(s, path, first_content, first_result);
    lemma_update_lookup(after_first, path, second_content, CompileResult::Success { ast, variables });
}

} // verus!
