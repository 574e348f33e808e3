//! The state of the semantic analysis of one module: its constants, kept ordered by name, the
//! names of its procedures and the errors found so far; and the evaluation of constants.

use vstd::prelude::*;

use crate::constants::{
    Constant, ConstantExpr, ConstantOp, Ident, SourceSpan, apply_op, eval, fold, ints_are_felts,
    is_literal, lemma_eval_literal,
};
use crate::felt::{felt_add, felt_mul, felt_sub, is_felt};
use crate::felt::felt_inv;

verus! {

broadcast use vstd::std_specs::vec::group_vec_axioms;

// ------------------------------------------------------------------------------------------
// Names and their order
// ------------------------------------------------------------------------------------------

/// The key of a name: its UTF-8 bytes, by which names are compared and ordered.
pub open spec fn name_key(id: Ident) -> Seq<u8> {
    vstd::utf8::encode_utf8(id.name@)
}

/// Lexicographic order of byte strings: the order of `String`s.
pub open spec fn bytes_lt(a: Seq<u8>, b: Seq<u8>) -> bool
    decreases a.len(),
{
    if a.len() == 0 {
        b.len() > 0
    } else if b.len() == 0 {
        false
    } else if a[0] != b[0] {
        a[0] < b[0]
    } else {
        bytes_lt(a.skip(1), b.skip(1))
    }
}

/// No byte string comes before itself.
pub proof fn lemma_bytes_lt_irreflexive(a: Seq<u8>)
    ensures
        !bytes_lt(a, a),
    decreases a.len(),
{
    if a.len() > 0 {
        lemma_bytes_lt_irreflexive(a.skip(1));
    }
}

/// The order of byte strings is transitive.
pub proof fn lemma_bytes_lt_transitive(a: Seq<u8>, b: Seq<u8>, c: Seq<u8>)
    requires
        bytes_lt(a, b),
        bytes_lt(b, c),
    ensures
        bytes_lt(a, c),
    decreases a.len(),
{
    if a.len() > 0 && b.len() > 0 && c.len() > 0 && a[0] == b[0] && b[0] == c[0] {
        lemma_bytes_lt_transitive(a.skip(1), b.skip(1), c.skip(1));
    }
}

/// Of two different byte strings, one comes before the other.
pub proof fn lemma_bytes_lt_total(a: Seq<u8>, b: Seq<u8>)
    requires
        a != b,
    ensures
        bytes_lt(a, b) || bytes_lt(b, a),
    decreases a.len(),
{
    if a.len() == 0 {
        assert(b.len() > 0) by {
            if b.len() == 0 {
                assert(a =~= b);
            }
        }
    } else if b.len() > 0 && a[0] == b[0] {
        if a.skip(1) == b.skip(1) {
            assert(a =~= seq![a[0]] + a.skip(1));
            assert(b =~= seq![b[0]] + b.skip(1));
        }
        lemma_bytes_lt_total(a.skip(1), b.skip(1));
    }
}

/// Returns the key of a name.
fn name_bytes(id: &Ident) -> (r: &[u8])
    ensures
        r@ == name_key(*id),
{
    id.name.as_str().as_bytes()
}

/// Whether two byte strings are equal.
fn bytes_eq(a: &[u8], b: &[u8]) -> (r: bool)
    ensures
        r == (a@ == b@),
{
    if a.len() != b.len() {
        return false;
    }
    let mut i: usize = 0;
    while i < a.len()
        invariant
            a@.len() == b@.len(),
            i <= a@.len(),
            forall|j: int| 0 <= j < i ==> a@[j] == b@[j],
        decreases a.len() - i,
    {
        if a[i] != b[i] {
            return false;
        }
        i = i + 1;
    }
    assert(a@ =~= b@);
    true
}

/// Whether `a` comes before `b`.
fn bytes_less(a: &[u8], b: &[u8]) -> (r: bool)
    ensures
        r == bytes_lt(a@, b@),
{
    let mut i: usize = 0;
    assert(a@.skip(0) =~= a@);
    assert(b@.skip(0) =~= b@);
    while i < a.len() && i < b.len() && a[i] == b[i]
        invariant
            i <= a@.len(),
            i <= b@.len(),
            bytes_lt(a@, b@) == bytes_lt(a@.skip(i as int), b@.skip(i as int)),
        decreases a.len() - i,
    {
        assert(a@.skip(i as int).skip(1) =~= a@.skip(i + 1));
        assert(b@.skip(i as int).skip(1) =~= b@.skip(i + 1));
        i = i + 1;
    }
    if i == a.len() {
        i < b.len()
    } else if i == b.len() {
        false
    } else {
        a[i] < b[i]
    }
}

// ------------------------------------------------------------------------------------------
// The analysis context
// ------------------------------------------------------------------------------------------

/// Errors found in the semantic analysis of a module.
#[derive(Clone, Copy, Debug, PartialEq, Eq, Structural)]
pub enum SemanticAnalysisError {
    /// A name is defined twice.
    SymbolConflict { span: SourceSpan, prev_span: SourceSpan },
    /// A name is used but not defined.
    SymbolUndefined { span: SourceSpan },
    /// The definition of a constant depends on itself.
    ConstEvalCycle { start: SourceSpan, detected: SourceSpan },
    /// A constant expression divides by zero.
    DivisionByZero { span: SourceSpan },
}

/// How serious a diagnostic is.
#[derive(Clone, Copy, Debug, PartialEq, Eq, Structural)]
pub enum Severity {
    Advice,
    Warning,
    Error,
}

impl SemanticAnalysisError {
    /// The severity of this diagnostic: every one of these is an error.
    pub fn severity(&self) -> (r: Severity)
        ensures
            r == Severity::Error,
    {
        Severity::Error
    }
}

/// A source file: where it came from and what it holds.
pub struct SourceFile {
    pub uri: String,
    pub content: String,
}

impl SourceFile {
    /// Returns a copy of this source file.
    pub fn duplicate(&self) -> (r: SourceFile)
        ensures
            r == *self,
    {
        SourceFile { uri: self.uri.clone(), content: self.content.clone() }
    }
}

/// The errors of the analysis of a source file.
pub struct SyntaxError {
    pub source_file: SourceFile,
    pub errors: Vec<SemanticAnalysisError>,
}

/// The constants of a table are ordered by name, so no name occurs twice.
pub open spec fn sorted(t: Seq<Constant>) -> bool {
    forall|i: int, j: int|
        0 <= i < j < t.len() ==> bytes_lt(#[trigger] name_key(t[i].name), #[trigger] name_key(t[j].name))
}

/// Whether a constant of the table has the name with key `k`.
pub open spec fn has_key(t: Seq<Constant>, k: Seq<u8>) -> bool {
    exists|i: int| 0 <= i < t.len() && #[trigger] name_key(t[i].name) == k
}

/// The position of the constant with the name with key `k`.
pub open spec fn key_index(t: Seq<Constant>, k: Seq<u8>) -> int {
    choose|i: int| 0 <= i < t.len() && #[trigger] name_key(t[i].name) == k
}

/// In an ordered table, the constant with a given key is the one at its position.
pub proof fn lemma_key_index(t: Seq<Constant>, i: int)
    requires
        sorted(t),
        0 <= i < t.len(),
    ensures
        has_key(t, name_key(t[i].name)),
        key_index(t, name_key(t[i].name)) == i,
{
    let k = name_key(t[i].name);
    assert(has_key(t, k));
    let j = key_index(t, k);
    if j < i {
        lemma_bytes_lt_irreflexive(k);
    } else if j > i {
        lemma_bytes_lt_irreflexive(k);
    }
}

/// Two tables hold the same names at the same positions.
pub open spec fn same_names(a: Seq<Constant>, b: Seq<Constant>) -> bool {
    a.len() == b.len() && forall|i: int| 0 <= i < a.len() ==> #[trigger] a[i].name == b[i].name
}

/// A table with the names of an ordered table is ordered.
pub proof fn lemma_same_names_sorted(a: Seq<Constant>, b: Seq<Constant>)
    requires
        sorted(b),
        same_names(a, b),
    ensures
        sorted(a),
{
    assert forall|i: int, j: int| 0 <= i < j < a.len() implies bytes_lt(
        #[trigger] name_key(a[i].name),
        #[trigger] name_key(a[j].name),
    ) by {
        assert(a[i].name == b[i].name);
        assert(a[j].name == b[j].name);
        assert(bytes_lt(name_key(b[i].name), name_key(b[j].name)));
    }
}

/// The state of the semantic analysis of a module.
pub struct AnalysisContext {
    constants: Vec<Constant>,
    procedures: Vec<String>,
    errors: Vec<SemanticAnalysisError>,
    source_file: SourceFile,
    warnings_as_errors: bool,
}

impl AnalysisContext {
    /// The constants defined so far, ordered by name.
    pub closed spec fn table(&self) -> Seq<Constant> {
        self.constants@
    }

    /// The names of the procedures registered so far.
    pub closed spec fn procedure_names(&self) -> Set<Seq<char>> {
        self.procedures@.map_values(|p: String| p@).to_set()
    }

    /// The errors found so far, in order.
    pub closed spec fn found_errors(&self) -> Seq<SemanticAnalysisError> {
        self.errors@
    }

    /// The source file being analysed.
    pub closed spec fn source(&self) -> SourceFile {
        self.source_file
    }

    /// Whether warnings count as errors.
    pub closed spec fn strict(&self) -> bool {
        self.warnings_as_errors
    }

    /// The table is ordered by name.
    pub closed spec fn wf(&self) -> bool {
        sorted(self.constants@)
    }

    /// A well-formed context holds its constants ordered by name, so no name occurs twice.
    pub proof fn lemma_wf_sorted(&self)
        requires
            self.wf(),
        ensures
            sorted(self.table()),
    {
    }

    /// Returns the context of the analysis of `source_file`, with nothing found yet.
    pub fn new(source_file: SourceFile) -> (r: Self)
        ensures
            r.wf(),
            r.table() == Seq::<Constant>::empty(),
            r.procedure_names() == Set::<Seq<char>>::empty(),
            r.found_errors() == Seq::<SemanticAnalysisError>::empty(),
            r.source() == source_file,
            !r.strict(),
    {
        let r = AnalysisContext {
            constants: Vec::new(),
            procedures: Vec::new(),
            errors: Vec::new(),
            source_file,
            warnings_as_errors: false,
        };
        assert(r.procedures@.map_values(|p: String| p@).to_set() =~= Set::<Seq<char>>::empty());
        r
    }

    /// Sets whether warnings count as errors.
    pub fn set_warnings_as_errors(&mut self, yes: bool)
        ensures
            final(self).strict() == yes,
            final(self).table() == old(self).table(),
            final(self).procedure_names() == old(self).procedure_names(),
            final(self).found_errors() == old(self).found_errors(),
            final(self).source() == old(self).source(),
            final(self).wf() == old(self).wf(),
    {
        self.warnings_as_errors = yes;
    }

    /// Whether warnings count as errors.
    pub fn warnings_as_errors(&self) -> (r: bool)
        ensures
            r == self.strict(),
    {
        self.warnings_as_errors
    }

    /// Records the name of a procedure.
    pub fn register_procedure_name(&mut self, name: String)
        ensures
            final(self).procedure_names() == old(self).procedure_names().insert(name@),
            final(self).table() == old(self).table(),
            final(self).found_errors() == old(self).found_errors(),
            final(self).source() == old(self).source(),
            final(self).strict() == old(self).strict(),
            final(self).wf() == old(self).wf(),
    {
        let mut i: usize = 0;
        while i < self.procedures.len()
            invariant
                i <= self.procedures@.len(),
                forall|j: int| 0 <= j < i ==> self.procedures@[j]@ != name@,
            decreases self.procedures.len() - i,
        {
            if self.procedures[i] == name {
                proof {
                    assert(self.procedures@.map_values(|p: String| p@)[i as int] == name@);
                    assert(self.procedure_names().insert(name@) =~= self.procedure_names());
                }
                return;
            }
            i = i + 1;
        }
        let ghost before = self.procedures@;
        self.procedures.push(name);
        proof {
            assert(self.procedures@.map_values(|p: String| p@) =~= before.map_values(
                |p: String| p@,
            ).push(name@));
            before.map_values(|p: String| p@).lemma_push_to_set_commute(name@);
            assert(self.procedures@.map_values(|p: String| p@).to_set() =~= before.map_values(
                |p: String| p@,
            ).to_set().insert(name@));
        }
    }

    /// Returns the position of the constant named like `key`, if one is defined.
    fn find(&self, key: &[u8]) -> (r: Option<usize>)
        ensures
            r matches Some(i) ==> i < self.constants@.len() && name_key(self.constants@[i as int].name) == key@,
            r is None ==> !has_key(self.constants@, key@),
    {
        let mut i: usize = 0;
        while i < self.constants.len()
            invariant
                i <= self.constants@.len(),
                forall|j: int| 0 <= j < i ==> name_key(#[trigger] self.constants@[j].name) != key@,
            decreases self.constants.len() - i,
        {
            if bytes_eq(name_bytes(&self.constants[i].name), key) {
                return Some(i);
            }
            i = i + 1;
        }
        None
    }

    /// Defines a constant. Returns `Err` if a constant with the same name is already defined:
    /// the existing definition is kept, and the `SymbolConflict` error is both returned and
    /// recorded, so that it is also reported when the analysis ends.
    pub fn define_constant(&mut self, constant: Constant) -> (r: Result<(), SyntaxError>)
        requires
            old(self).wf(),
        ensures
            final(self).wf(),
            has_key(old(self).table(), name_key(constant.name)) ==> {
                let conflict = SemanticAnalysisError::SymbolConflict {
                    span: constant.span,
                    prev_span: old(self).table()[key_index(
                        old(self).table(),
                        name_key(constant.name),
                    )].span,
                };
                &&& r matches Err(e) && e.source_file == old(self).source() && e.errors@ == seq![conflict]
                &&& final(self).table() == old(self).table()
                &&& final(self).found_errors() == old(self).found_errors().push(conflict)
            },
            !has_key(old(self).table(), name_key(constant.name)) ==> {
                &&& r is Ok
                &&& final(self).found_errors() == old(self).found_errors()
                &&& final(self).table().to_multiset() == old(self).table().to_multiset().insert(
                    constant,
                )
                &&& final(self).table()[key_index(final(self).table(), name_key(constant.name))]
                    == constant
            },
            has_key(final(self).table(), name_key(constant.name)),
            final(self).procedure_names() == old(self).procedure_names(),
            final(self).source() == old(self).source(),
            final(self).strict() == old(self).strict(),
    {
        let key = name_bytes(&constant.name);
        let mut i: usize = 0;
        while i < self.constants.len() && bytes_less(name_bytes(&self.constants[i].name), key)
            invariant
                i <= self.constants@.len(),
                sorted(self.constants@),
                key@ == name_key(constant.name),
                forall|j: int| 0 <= j < i ==> bytes_lt(#[trigger] name_key(self.constants@[j].name), key@),
            decreases self.constants.len() - i,
        {
            i = i + 1;
        }
        if i < self.constants.len() && bytes_eq(name_bytes(&self.constants[i].name), key) {
            proof {
                lemma_key_index(self.constants@, i as int);
            }
            let prev_span = self.constants[i].span;
            self.errors.push(SemanticAnalysisError::SymbolConflict { span: constant.span, prev_span });
            let mut errors: Vec<SemanticAnalysisError> = Vec::new();
            errors.push(SemanticAnalysisError::SymbolConflict { span: constant.span, prev_span });
            proof {
                assert(errors@ =~= seq![SemanticAnalysisError::SymbolConflict { span: constant.span, prev_span }]);
            }
            return Err(SyntaxError { source_file: self.source_file.duplicate(), errors });
        }
        proof {
            assert forall|j: int| i <= j < self.constants@.len() implies bytes_lt(key@, #[trigger] name_key(self.constants@[j].name)) by {
                let ki = name_key(self.constants@[i as int].name);
                lemma_bytes_lt_total(key@, ki);
                if j > i {
                    lemma_bytes_lt_transitive(key@, ki, name_key(self.constants@[j].name));
                }
            }
            assert(!has_key(self.constants@, key@)) by {
                if has_key(self.constants@, key@) {
                    let j = key_index(self.constants@, key@);
                    lemma_bytes_lt_irreflexive(key@);
                }
            }
        }
        let ghost before = self.constants@;
        self.constants.insert(i, constant);
        proof {
            let t = self.constants@;
            assert(t =~= before.insert(i as int, constant));
            assert forall|a: int, b: int| 0 <= a < b < t.len() implies bytes_lt(
                #[trigger] name_key(t[a].name),
                #[trigger] name_key(t[b].name),
            ) by {
                if a < i && b == i {
                } else if a < i && b > i {
                    assert(t[b] == before[b - 1]);
                } else if a == i {
                    assert(t[b] == before[b - 1]);
                } else if b < i {
                } else {
                    assert(t[a] == before[a - 1]);
                    assert(t[b] == before[b - 1]);
                }
            }
            vstd::seq_lib::to_multiset_insert(before, i as int, constant);
            lemma_key_index(t, i as int);
            assert(t[i as int] == constant);
        }
        Ok(())
    }
}

impl AnalysisContext {
    /// Returns the expression that defines the constant named `name`; fails with
    /// `SymbolUndefined` at the name's span if none is defined.
    pub fn get_constant(&self, name: &Ident) -> (r: Result<&ConstantExpr, SemanticAnalysisError>)
        requires
            self.wf(),
        ensures
            has_key(self.table(), name_key(*name)) ==> (r matches Ok(v) && *v == self.table()[key_index(
                self.table(),
                name_key(*name),
            )].value),
            !has_key(self.table(), name_key(*name)) ==> r == Err::<&ConstantExpr, SemanticAnalysisError>(
                SemanticAnalysisError::SymbolUndefined { span: name.span },
            ),
    {
        match self.find(name_bytes(name)) {
            Some(i) => {
                proof {
                    lemma_key_index(self.constants@, i as int);
                }
                Ok(&self.constants[i].value)
            },
            None => Err(SemanticAnalysisError::SymbolUndefined { span: name.span }),
        }
    }

    /// Returns the text of the string constant named `name`; fails with `SymbolUndefined` at
    /// the name's span if none is defined.
    pub fn get_error(&self, name: &Ident) -> (r: Result<String, SemanticAnalysisError>)
        requires
            self.wf(),
            has_key(self.table(), name_key(*name)) ==> self.table()[key_index(
                self.table(),
                name_key(*name),
            )].value is String,
        ensures
            has_key(self.table(), name_key(*name)) ==> (r matches Ok(text) && text@ == self.table()[key_index(
                self.table(),
                name_key(*name),
            )].value->String_0.name@),
            !has_key(self.table(), name_key(*name)) ==> r == Err::<String, SemanticAnalysisError>(
                SemanticAnalysisError::SymbolUndefined { span: name.span },
            ),
    {
        match self.get_constant(name) {
            Ok(ConstantExpr::String(text)) => Ok(text.name.clone()),
            Ok(_) => Err(SemanticAnalysisError::SymbolUndefined { span: name.span }),
            Err(e) => Err(e),
        }
    }

    /// Records an error.
    pub fn error(&mut self, diagnostic: SemanticAnalysisError)
        ensures
            final(self).found_errors() == old(self).found_errors().push(diagnostic),
            final(self).table() == old(self).table(),
            final(self).procedure_names() == old(self).procedure_names(),
            final(self).source() == old(self).source(),
            final(self).strict() == old(self).strict(),
            final(self).wf() == old(self).wf(),
    {
        self.errors.push(diagnostic);
    }

    /// Whether an error was found: with warnings as errors, any diagnostic; otherwise any of
    /// error severity, which every diagnostic of this analysis has.
    pub fn has_errors(&self) -> (r: bool)
        ensures
            r == (self.found_errors().len() > 0),
    {
        if self.warnings_as_errors() {
            return self.errors.len() > 0;
        }
        let mut i: usize = 0;
        while i < self.errors.len()
            invariant
                i == 0,
            decreases self.errors.len() - i,
        {
            if self.errors[i].severity() == Severity::Error {
                return true;
            }
            i = i + 1;
        }
        false
    }

    /// Fails with the errors found so far, handing them over, if there are any.
    pub fn has_failed(&mut self) -> (r: Result<(), SyntaxError>)
        ensures
            old(self).found_errors().len() == 0 ==> r is Ok && final(self).found_errors()
                == old(self).found_errors(),
            old(self).found_errors().len() > 0 ==> (r matches Err(e) && e.source_file == old(
                self,
            ).source() && e.errors@ == old(self).found_errors() && final(self).found_errors()
                == Seq::<SemanticAnalysisError>::empty()),
            final(self).table() == old(self).table(),
            final(self).procedure_names() == old(self).procedure_names(),
            final(self).source() == old(self).source(),
            final(self).strict() == old(self).strict(),
            final(self).wf() == old(self).wf(),
    {
        if self.has_errors() {
            let mut errors: Vec<SemanticAnalysisError> = Vec::new();
            std::mem::swap(&mut errors, &mut self.errors);
            Err(SyntaxError { source_file: self.source_file.duplicate(), errors })
        } else {
            Ok(())
        }
    }

    /// Ends the analysis: fails with the errors found, if there are any.
    pub fn into_result(self) -> (r: Result<(), SyntaxError>)
        ensures
            self.found_errors().len() == 0 ==> r is Ok,
            self.found_errors().len() > 0 ==> (r matches Err(e) && e.source_file == self.source()
                && e.errors@ == self.found_errors()),
    {
        if self.has_errors() {
            Err(SyntaxError { source_file: self.source_file, errors: self.errors })
        } else {
            Ok(())
        }
    }
}

// ------------------------------------------------------------------------------------------
// Evaluation of constants
// ------------------------------------------------------------------------------------------

/// A value that refers to nothing and computes nothing: an integer, a string, a word or a
/// string to hash.
pub open spec fn is_leaf(e: ConstantExpr) -> bool {
    !(e is Var) && !(e is BinaryOp)
}

/// Whether a name with key `k` is on the stack of constants being evaluated.
pub open spec fn on_stack(stack: Seq<Ident>, k: Seq<u8>) -> bool {
    exists|j: int| 0 <= j < stack.len() && #[trigger] name_key(stack[j]) == k
}

/// The table with the constant at position `i` set to `v`.
pub open spec fn set_value(t: Seq<Constant>, i: int, v: ConstantExpr) -> Seq<Constant> {
    t.update(i, Constant { value: v, ..t[i] })
}

/// The table after evaluating the constant at position `i` to `v`: its definition is replaced
/// by `v` unless it was already a leaf.
pub open spec fn rewrite(t: Seq<Constant>, i: int, v: ConstantExpr) -> Seq<Constant> {
    if is_leaf(t[i].value) {
        t
    } else {
        set_value(t, i, v)
    }
}

/// Whether `op` divides.
pub open spec fn is_division(op: ConstantOp) -> bool {
    op == ConstantOp::Div || op == ConstantOp::IntDiv
}

/// Evaluating `e` while the constants on `stack` are being evaluated, in the table `t` of at
/// most `n` constants: the value or the first error, and the table after the definitions of
/// the constants evaluated on the way were replaced by their values. The right operand of an
/// operation is evaluated before the left one. A division by zero is a `DivisionByZero` error.
///
/// `None` where evaluation would apply arithmetic to something other than two field elements,
/// which the evaluator does not handle, or where the stack would outgrow the
/// bound `n`; from a stack of different names defined in an ordered table of `n` constants it
/// cannot (`lemma_stack_bound`, `lemma_eval_const_bound`).
pub open spec fn eval_const(e: ConstantExpr, stack: Seq<Ident>, t: Seq<Constant>, n: nat) -> Option<
    (Result<ConstantExpr, SemanticAnalysisError>, Seq<Constant>),
>
    decreases n - stack.len(), e,
{
    match e {
        ConstantExpr::Var(id) => {
            if on_stack(stack, name_key(id)) {
                Some(
                    (
                        Err(SemanticAnalysisError::ConstEvalCycle { start: stack[0].span, detected: id.span }),
                        t,
                    ),
                )
            } else if !has_key(t, name_key(id)) {
                Some((Err(SemanticAnalysisError::SymbolUndefined { span: id.span }), t))
            } else if stack.len() >= n {
                None
            } else {
                let i = key_index(t, name_key(id));
                match eval_const(t[i].value, stack.push(id), t, n) {
                    None => None,
                    Some((Ok(v), t1)) => Some((Ok(v), rewrite(t1, i, v))),
                    Some((Err(err), t1)) => Some((Err(err), t1)),
                }
            }
        },
        ConstantExpr::BinaryOp { span, op, lhs, rhs } => match eval_const(*rhs, stack, t, n) {
            None => None,
            Some((Err(err), t1)) => Some((Err(err), t1)),
            Some((Ok(rv), t1)) => match eval_const(*lhs, stack, t1, n) {
                None => None,
                Some((Err(err), t2)) => Some((Err(err), t2)),
                Some((Ok(lv), t2)) => match (lv, rv) {
                    (ConstantExpr::Int { value: a, .. }, ConstantExpr::Int { value: b, .. }) => {
                        if !is_felt(a as int) || !is_felt(b as int) {
                            None
                        } else if is_division(op) && b == 0 {
                            Some((Err(SemanticAnalysisError::DivisionByZero { span }), t2))
                        } else {
                            Some((Ok(ConstantExpr::Int { span, value: apply_op(op, a, b) as u64 }), t2))
                        }
                    },
                    _ => None,
                },
            },
        },
        _ => Some((Ok(e), t)),
    }
}

/// Evaluation keeps the names of the table in place, keeps the definitions that are leaves,
/// and gives leaves.
pub proof fn lemma_eval_const_shape(e: ConstantExpr, stack: Seq<Ident>, t: Seq<Constant>, n: nat)
    requires
        eval_const(e, stack, t, n) is Some,
    ensures
        same_names(eval_const(e, stack, t, n).unwrap().1, t),
        forall|i: int| 0 <= i < t.len() && is_leaf(t[i].value) ==> #[trigger] eval_const(e, stack, t, n).unwrap().1[i] == t[i],
        eval_const(e, stack, t, n).unwrap().0 matches Ok(v) ==> is_leaf(v),
    decreases n - stack.len(), e,
{
    match e {
        ConstantExpr::Var(id) => {
            if !on_stack(stack, name_key(id)) && has_key(t, name_key(id)) && stack.len() < n {
                let i = key_index(t, name_key(id));
                lemma_eval_const_shape(t[i].value, stack.push(id), t, n);
            }
        },
        ConstantExpr::BinaryOp { span, op, lhs, rhs } => {
            lemma_eval_const_shape(*rhs, stack, t, n);
            let t1 = eval_const(*rhs, stack, t, n).unwrap().1;
            if eval_const(*rhs, stack, t, n).unwrap().0 is Ok {
                lemma_eval_const_shape(*lhs, stack, t1, n);
            }
        },
        _ => {},
    }
}

impl AnalysisContext {
    /// Evaluates `e` while the constants on `stack` are being evaluated, replacing the
    /// definitions of the constants evaluated on the way by their values.
    fn eval_expr(&mut self, e: &ConstantExpr, stack: &mut Vec<Ident>) -> (r: Result<ConstantExpr, SemanticAnalysisError>)
        requires
            sorted(old(self).constants@),
            eval_const(*e, old(stack)@, old(self).constants@, old(self).constants@.len()) is Some,
        ensures
            final(stack)@ == old(stack)@,
            final(self).procedures == old(self).procedures,
            final(self).errors == old(self).errors,
            final(self).source_file == old(self).source_file,
            final(self).warnings_as_errors == old(self).warnings_as_errors,
            eval_const(*e, old(stack)@, old(self).constants@, old(self).constants@.len()) == Some(
                (r, final(self).constants@),
            ),
        decreases old(self).constants@.len() - old(stack)@.len(), e,
    {
        let ghost t0 = self.constants@;
        let ghost n = t0.len();
        proof {
            lemma_eval_const_shape(*e, stack@, t0, n);
        }
        match e {
            ConstantExpr::Var(id) => {
                let key = name_bytes(id);
                let mut j: usize = 0;
                while j < stack.len()
                    invariant
                        j <= stack@.len(),
                        key@ == name_key(*id),
                        *self == *old(self),
                        stack@ == old(stack)@,
                        *e == ConstantExpr::Var(*id),
                        t0 == old(self).constants@,
                        n == t0.len(),
                        forall|k: int| 0 <= k < j ==> name_key(#[trigger] stack@[k]) != key@,
                    decreases stack.len() - j,
                {
                    if bytes_eq(name_bytes(&stack[j]), key) {
                        proof {
                            assert(name_key(stack@[j as int]) == name_key(*id));
                            assert(on_stack(stack@, name_key(*id)));
                        }
                        return Err(SemanticAnalysisError::ConstEvalCycle { start: stack[0].span, detected: id.span });
                    }
                    j = j + 1;
                }
                let i = match self.find(key) {
                    Some(i) => i,
                    None => return Err(SemanticAnalysisError::SymbolUndefined { span: id.span }),
                };
                proof {
                    lemma_key_index(t0, i as int);
                }
                let value = self.constants[i].value.duplicate();
                stack.push(id.duplicate());
                let r = self.eval_expr(&value, stack);
                stack.pop();
                proof {
                    lemma_eval_const_shape(value, old(stack)@.push(*id), t0, n);
                    assert(stack@ =~= old(stack)@);
                }
                match r {
                    Ok(v) => {
                        let leaf = match &self.constants[i].value {
                            ConstantExpr::Var(_) => false,
                            ConstantExpr::BinaryOp { .. } => false,
                            _ => true,
                        };
                        if !leaf {
                            let updated = Constant {
                                span: self.constants[i].span,
                                docs: match &self.constants[i].docs {
                                    Some(d) => Some(d.clone()),
                                    None => None,
                                },
                                name: self.constants[i].name.duplicate(),
                                value: v.duplicate(),
                            };
                            self.constants.set(i, updated);
                        }
                        Ok(v)
                    },
                    Err(err) => Err(err),
                }
            },
            ConstantExpr::BinaryOp { span, op, lhs, rhs } => {
                let rv = match self.eval_expr(rhs, stack) {
                    Ok(v) => v,
                    Err(err) => return Err(err),
                };
                proof {
                    lemma_eval_const_shape(**rhs, stack@, t0, n);
                }
                let lv = match self.eval_expr(lhs, stack) {
                    Ok(v) => v,
                    Err(err) => return Err(err),
                };
                match (lv, rv) {
                    (ConstantExpr::Int { value: a, .. }, ConstantExpr::Int { value: b, .. }) => {
                        let divides = match op {
                            ConstantOp::Div => true,
                            ConstantOp::IntDiv => true,
                            _ => false,
                        };
                        if divides && b == 0 {
                            return Err(SemanticAnalysisError::DivisionByZero { span: *span });
                        }
                        let value = match op {
                            ConstantOp::Add => felt_add(a, b),
                            ConstantOp::Sub => felt_sub(a, b),
                            ConstantOp::Mul => felt_mul(a, b),
                            ConstantOp::Div => felt_mul(a, felt_inv(b)),
                            ConstantOp::IntDiv => felt_mul(a, felt_inv(b)),
                        };
                        Ok(ConstantExpr::Int { span: *span, value })
                    },
                    _ => Err(SemanticAnalysisError::SymbolUndefined { span: *span }),
                }
            },
            ConstantExpr::Int { span, value } => Ok(ConstantExpr::Int { span: *span, value: *value }),
            ConstantExpr::String(id) => Ok(ConstantExpr::String(id.duplicate())),
            ConstantExpr::Word { span, value } => Ok(ConstantExpr::Word { span: *span, value: *value }),
            ConstantExpr::Hash(kind, id) => Ok(ConstantExpr::Hash(*kind, id.duplicate())),
        }
    }
}

/// What simplifying the constants from position `i` on gives, with the errors `errs` found
/// before: each constant in turn is evaluated by name; its definition becomes its value, or the
/// error is recorded. `None` where an evaluation is outside what the evaluator handles.
pub open spec fn simplify_from(t: Seq<Constant>, errs: Seq<SemanticAnalysisError>, i: nat) -> Option<
    (Seq<Constant>, Seq<SemanticAnalysisError>),
>
    decreases t.len() - i,
{
    if i >= t.len() {
        Some((t, errs))
    } else {
        match eval_const(ConstantExpr::Var(t[i as int].name), Seq::empty(), t, t.len()) {
            None => None,
            Some((res, t1)) => if t1.len() != t.len() {
                None
            } else {
                match res {
                    Ok(v) => simplify_from(set_value(t1, i as int, v), errs, i + 1),
                    Err(err) => simplify_from(t1, errs.push(err), i + 1),
                }
            },
        }
    }
}

impl AnalysisContext {
    /// Evaluates a constant expression, replacing the definitions of the constants evaluated on
    /// the way by their values.
    fn const_eval(&mut self, value: &ConstantExpr) -> (r: Result<ConstantExpr, SemanticAnalysisError>)
        requires
            old(self).wf(),
            eval_const(*value, Seq::empty(), old(self).table(), old(self).table().len()) is Some,
        ensures
            final(self).wf(),
            eval_const(*value, Seq::empty(), old(self).table(), old(self).table().len()) == Some(
                (r, final(self).table()),
            ),
            final(self).procedure_names() == old(self).procedure_names(),
            final(self).found_errors() == old(self).found_errors(),
            final(self).source() == old(self).source(),
            final(self).strict() == old(self).strict(),
    {
        let mut stack: Vec<Ident> = Vec::new();
        proof {
            assert(stack@ =~= Seq::<Ident>::empty());
            lemma_eval_const_shape(*value, Seq::empty(), self.constants@, self.constants@.len());
        }
        let r = self.eval_expr(value, &mut stack);
        proof {
            lemma_same_names_sorted(self.constants@, old(self).constants@);
        }
        r
    }

    /// Replaces the definition of every constant by its value, in the order of their names;
    /// records the error of each constant whose evaluation fails.
    pub fn simplify_constants(&mut self)
        requires
            old(self).wf(),
            simplify_from(old(self).table(), old(self).found_errors(), 0) is Some,
        ensures
            final(self).wf(),
            simplify_from(old(self).table(), old(self).found_errors(), 0) == Some(
                (final(self).table(), final(self).found_errors()),
            ),
            final(self).procedure_names() == old(self).procedure_names(),
            final(self).source() == old(self).source(),
            final(self).strict() == old(self).strict(),
    {
        let n = self.constants.len();
        let mut i: usize = 0;
        while i < n
            invariant
                self.wf(),
                self.constants@.len() == n,
                i <= n,
                simplify_from(old(self).table(), old(self).found_errors(), 0) is Some,
                simplify_from(old(self).table(), old(self).found_errors(), 0) == simplify_from(
                    self.constants@,
                    self.errors@,
                    i as nat,
                ),
                self.procedure_names() == old(self).procedure_names(),
                self.source() == old(self).source(),
                self.strict() == old(self).strict(),
            decreases n - i,
        {
            let name = self.constants[i].name.duplicate();
            let expr = ConstantExpr::Var(name);
            let ghost t = self.constants@;
            proof {
                assert(expr == ConstantExpr::Var(t[i as int].name));
                assert(simplify_from(t, self.errors@, i as nat) is Some);
                assert(eval_const(expr, Seq::empty(), t, t.len()) is Some);
                lemma_eval_const_shape(expr, Seq::empty(), t, t.len());
            }
            match self.const_eval(&expr) {
                Ok(value) => {
                    let c = Constant {
                        span: self.constants[i].span,
                        docs: match &self.constants[i].docs {
                            Some(d) => Some(d.clone()),
                            None => None,
                        },
                        name: self.constants[i].name.duplicate(),
                        value,
                    };
                    let ghost t1 = self.constants@;
                    self.constants.set(i, c);
                    proof {
                        assert(self.constants@ =~= set_value(t1, i as int, value));
                        assert(same_names(self.constants@, t1));
                        lemma_same_names_sorted(self.constants@, t1);
                    }
                },
                Err(err) => {
                    self.errors.push(err);
                },
            }
            i = i + 1;
        }
    }
}

// ------------------------------------------------------------------------------------------
// Laws of evaluation
// ------------------------------------------------------------------------------------------

/// An expression that refers to no constant and has a value evaluates to what folding it
/// gives, and leaves the table as it is.
pub proof fn lemma_eval_const_folds(e: ConstantExpr, stack: Seq<Ident>, t: Seq<Constant>, n: nat)
    requires
        ints_are_felts(e),
        eval(e) is Some,
    ensures
        fold(e) is Ok,
        eval_const(e, stack, t, n) == Some(
            (Ok::<ConstantExpr, SemanticAnalysisError>(fold(e)->Ok_0), t),
        ),
        fold(e)->Ok_0 matches ConstantExpr::Int { value, .. } && value == eval(e)->0,
    decreases e,
{
    lemma_eval_literal(e);
    crate::constants::lemma_fold_evaluates(e);
    if let ConstantExpr::BinaryOp { span, op, lhs, rhs } = e {
        lemma_eval_const_folds(*rhs, stack, t, n);
        lemma_eval_const_folds(*lhs, stack, t, n);
        lemma_eval_literal(*lhs);
        lemma_eval_literal(*rhs);
    }
}

/// A constant whose definition is a leaf evaluates, by name, to that leaf and leaves the table
/// as it is.
pub proof fn lemma_eval_leaf_constant(t: Seq<Constant>, i: int)
    requires
        sorted(t),
        0 <= i < t.len(),
        is_leaf(t[i].value),
    ensures
        eval_const(ConstantExpr::Var(t[i].name), Seq::empty(), t, t.len()) == Some(
            (Ok::<ConstantExpr, SemanticAnalysisError>(t[i].value), t),
        ),
{
    lemma_key_index(t, i);
    let stack = Seq::<Ident>::empty();
    assert(!on_stack(stack, name_key(t[i].name)));
    assert(eval_const(t[i].value, stack.push(t[i].name), t, t.len()) == Some(
        (Ok::<ConstantExpr, SemanticAnalysisError>(t[i].value), t),
    ));
}

/// Simplifying from position `i` on keeps the names in place, only appends errors, at most one
/// per constant, and keeps the definitions that are leaves; a constant from `i` on that is not a
/// leaf afterwards had an error recorded.
pub proof fn lemma_simplify_from(t: Seq<Constant>, errs: Seq<SemanticAnalysisError>, i: nat)
    requires
        sorted(t),
        i <= t.len(),
        simplify_from(t, errs, i) is Some,
    ensures
        ({
            let (t2, e2) = simplify_from(t, errs, i).unwrap();
            &&& same_names(t2, t)
            &&& e2.len() >= errs.len()
            &&& e2.len() - errs.len() <= t.len() - i
            &&& e2.subrange(0, errs.len() as int) == errs
            &&& forall|j: int| 0 <= j < t.len() && is_leaf(t[j].value) ==> #[trigger] t2[j] == t[j]
            &&& e2.len() == errs.len() ==> forall|j: int| i <= j < t.len() ==> is_leaf(#[trigger] t2[j].value)
        }),
    decreases t.len() - i,
{
    if i < t.len() {
        let name = t[i as int].name;
        let stack = Seq::<Ident>::empty();
        lemma_eval_const_shape(ConstantExpr::Var(name), stack, t, t.len());
        let (res, t1) = eval_const(ConstantExpr::Var(name), stack, t, t.len()).unwrap();
        lemma_same_names_sorted(t1, t);
        match res {
            Ok(v) => {
                let t2 = set_value(t1, i as int, v);
                assert(same_names(t2, t1));
                lemma_same_names_sorted(t2, t1);
                lemma_simplify_from(t2, errs, i + 1);
                if is_leaf(t[i as int].value) {
                    lemma_eval_leaf_constant(t, i as int);
                    assert(t2[i as int] == t[i as int]);
                }
                let (t3, e3) = simplify_from(t2, errs, i + 1).unwrap();
                assert forall|j: int| 0 <= j < t.len() && is_leaf(t[j].value) implies #[trigger] t3[j] == t[j] by {
                    assert(t1[j] == t[j]);
                    if j != i {
                        assert(t2[j] == t1[j]);
                    }
                }
                if e3.len() == errs.len() {
                    assert forall|j: int| i <= j < t.len() implies is_leaf(#[trigger] t3[j].value) by {
                        if j == i {
                            assert(is_leaf(t2[j].value));
                            assert(t3[j] == t2[j]);
                        }
                    }
                }
            },
            Err(err) => {
                lemma_simplify_from(t1, errs.push(err), i + 1);
                let (t3, e3) = simplify_from(t1, errs.push(err), i + 1).unwrap();
                assert(e3.subrange(0, errs.len() as int) =~= errs) by {
                    assert(e3.subrange(0, errs.len() + 1int) == errs.push(err));
                    assert forall|k: int| 0 <= k < errs.len() implies e3.subrange(0, errs.len() as int)[k] == errs[k] by {
                        assert(e3.subrange(0, errs.len() + 1int)[k] == errs.push(err)[k]);
                    }
                }
                assert forall|j: int| 0 <= j < t.len() && is_leaf(t[j].value) implies #[trigger] t3[j] == t[j] by {
                    assert(t1[j] == t[j]);
                }
            },
        }
    } else {
        assert(errs.subrange(0, errs.len() as int) =~= errs);
    }
}

/// Simplifying the constants of a table keeps their names in place and the definitions that
/// are leaves, records at most one error per constant after the errors found before, and, if it
/// records none, leaves every constant defined by a leaf.
pub proof fn lemma_simplify_constants(t: Seq<Constant>, errs: Seq<SemanticAnalysisError>)
    requires
        sorted(t),
        simplify_from(t, errs, 0) is Some,
    ensures
        ({
            let (t2, e2) = simplify_from(t, errs, 0).unwrap();
            &&& same_names(t2, t)
            &&& errs.len() <= e2.len() <= errs.len() + t.len()
            &&& e2.subrange(0, errs.len() as int) == errs
            &&& forall|j: int| 0 <= j < t.len() && is_leaf(t[j].value) ==> #[trigger] t2[j] == t[j]
            &&& e2.len() == errs.len() ==> forall|j: int| 0 <= j < t.len() ==> is_leaf(#[trigger] t2[j].value)
        }),
{
    lemma_simplify_from(t, errs, 0);
}

/// A definition that refers to no other constant and folds without error: a leaf, or
/// arithmetic on field elements with no division by zero.
pub open spec fn self_contained(v: ConstantExpr) -> bool {
    is_leaf(v) || (ints_are_felts(v) && eval(v) is Some)
}

/// The table with the definitions of its first `i` constants folded.
pub open spec fn folded_prefix(t: Seq<Constant>, i: int) -> Seq<Constant> {
    Seq::new(
        t.len(),
        |j: int|
            if j < i {
                Constant { value: fold(t[j].value)->Ok_0, ..t[j] }
            } else {
                t[j]
            },
    )
}

/// A self-contained definition evaluates, by name, to what folding it gives, and the
/// definition becomes that value.
proof fn lemma_eval_self_contained(t: Seq<Constant>, i: int)
    requires
        sorted(t),
        0 <= i < t.len(),
        self_contained(t[i].value),
    ensures
        fold(t[i].value) is Ok,
        ({
            let v = fold(t[i].value)->Ok_0;
            eval_const(ConstantExpr::Var(t[i].name), Seq::empty(), t, t.len()) == Some(
                (Ok::<ConstantExpr, SemanticAnalysisError>(v), rewrite(t, i, v)),
            )
        }),
{
    lemma_key_index(t, i);
    let stack = Seq::<Ident>::empty();
    assert(!on_stack(stack, name_key(t[i].name)));
    let v = t[i].value;
    assert(key_index(t, name_key(t[i].name)) == i);
    if is_leaf(v) {
        assert(fold(v) == Ok::<ConstantExpr, crate::constants::ParsingError>(v));
        assert(eval_const(v, stack.push(t[i].name), t, t.len()) == Some(
            (Ok::<ConstantExpr, SemanticAnalysisError>(v), t),
        ));
    } else {
        lemma_eval_const_folds(v, stack.push(t[i].name), t, t.len());
        assert(eval_const(v, stack.push(t[i].name), t, t.len()) == Some(
            (Ok::<ConstantExpr, SemanticAnalysisError>(fold(v)->Ok_0), t),
        ));
    }
    let fv = fold(v)->Ok_0;
    assert(eval_const(ConstantExpr::Var(t[i].name), stack, t, t.len()) == Some(
        (Ok::<ConstantExpr, SemanticAnalysisError>(fv), rewrite(t, i, fv)),
    ));
}

/// Simplifying constants whose definitions refer to no other constant and fold without
/// error replaces each definition by its folded value and records no error.
pub proof fn lemma_simplify_self_contained(t: Seq<Constant>, errs: Seq<SemanticAnalysisError>)
    requires
        sorted(t),
        forall|j: int| 0 <= j < t.len() ==> self_contained(#[trigger] t[j].value),
    ensures
        simplify_from(t, errs, 0) == Some((folded_prefix(t, t.len() as int), errs)),
{
    assert(folded_prefix(t, 0) =~= t);
    lemma_simplify_self_contained_from(t, errs, 0);
}

/// The step of [`lemma_simplify_self_contained`]: from position `i` on, with the first `i`
/// definitions already folded.
proof fn lemma_simplify_self_contained_from(t: Seq<Constant>, errs: Seq<SemanticAnalysisError>, i: nat)
    requires
        sorted(t),
        i <= t.len(),
        forall|j: int| 0 <= j < t.len() ==> self_contained(#[trigger] t[j].value),
    ensures
        simplify_from(folded_prefix(t, i as int), errs, i) == Some(
            (folded_prefix(t, t.len() as int), errs),
        ),
    decreases t.len() - i,
{
    let ti = folded_prefix(t, i as int);
    if i < t.len() {
        assert(same_names(ti, t));
        lemma_same_names_sorted(ti, t);
        assert(ti[i as int] == t[i as int]);
        lemma_eval_self_contained(ti, i as int);
        let v = fold(t[i as int].value)->Ok_0;
        let t1 = rewrite(ti, i as int, v);
        assert(set_value(t1, i as int, v) =~= folded_prefix(t, i + 1int)) by {
            if is_leaf(t[i as int].value) {
                assert(fold(t[i as int].value) == Ok::<ConstantExpr, crate::constants::ParsingError>(t[i as int].value));
            }
        }
        lemma_simplify_self_contained_from(t, errs, i + 1);
    } else {
        assert(ti =~= folded_prefix(t, t.len() as int));
    }
}

/// The constants on an evaluation stack are defined in the table and have different names.
pub open spec fn stack_ok(stack: Seq<Ident>, t: Seq<Constant>) -> bool {
    &&& forall|j: int| 0 <= j < stack.len() ==> has_key(t, #[trigger] name_key(stack[j]))
    &&& forall|i: int, j: int|
        0 <= i < j < stack.len() ==> name_key(#[trigger] stack[i]) != name_key(#[trigger] stack[j])
}

/// A stack of different names defined in an ordered table, and one more such name not on it,
/// together fit in the table: the stack is shorter than the table.
pub proof fn lemma_stack_bound(stack: Seq<Ident>, t: Seq<Constant>, k: Seq<u8>)
    requires
        sorted(t),
        stack_ok(stack, t),
        has_key(t, k),
        !on_stack(stack, k),
    ensures
        stack.len() < t.len(),
{
    let idx = Seq::new(stack.len(), |j: int| key_index(t, name_key(stack[j]))).push(key_index(t, k));
    assert forall|a: int| 0 <= a < idx.len() implies 0 <= #[trigger] idx[a] < t.len() && name_key(
        t[idx[a]].name,
    ) == (if a < stack.len() {
        name_key(stack[a])
    } else {
        k
    }) by {
        if a < stack.len() {
            assert(has_key(t, name_key(stack[a])));
        }
    }
    assert(idx.no_duplicates()) by {
        assert forall|a: int, b: int| 0 <= a < idx.len() && 0 <= b < idx.len() && a != b implies idx[a]
            != idx[b] by {
            if a < stack.len() && b < stack.len() {
                if a < b {
                    assert(name_key(stack[a]) != name_key(stack[b]));
                } else {
                    assert(name_key(stack[b]) != name_key(stack[a]));
                }
            } else if a < stack.len() {
                assert(name_key(stack[a]) != k);
            } else if b < stack.len() {
                assert(name_key(stack[b]) != k);
            }
        }
    }
    idx.unique_seq_to_set();
    vstd::set_lib::lemma_int_range(0, t.len() as int);
    assert(idx.to_set().subset_of(vstd::set_lib::set_int_range(0, t.len() as int)));
    vstd::set_lib::lemma_len_subset(idx.to_set(), vstd::set_lib::set_int_range(0, t.len() as int));
}

/// Evaluating from a stack of different names defined in an ordered table never outgrows the
/// table: the result is the same with any larger bound.
pub proof fn lemma_eval_const_bound(e: ConstantExpr, stack: Seq<Ident>, t: Seq<Constant>, m: nat)
    requires
        sorted(t),
        stack_ok(stack, t),
    ensures
        eval_const(e, stack, t, t.len()) == eval_const(e, stack, t, t.len() + m),
    decreases t.len() - stack.len(), e,
{
    match e {
        ConstantExpr::Var(id) => {
            if !on_stack(stack, name_key(id)) && has_key(t, name_key(id)) {
                lemma_stack_bound(stack, t, name_key(id));
                let i = key_index(t, name_key(id));
                let s2 = stack.push(id);
                assert(stack_ok(s2, t)) by {
                    assert forall|a: int, b: int| 0 <= a < b < s2.len() implies name_key(#[trigger] s2[a])
                        != name_key(#[trigger] s2[b]) by {
                        if b == stack.len() {
                            assert(s2[a] == stack[a]);
                        } else {
                            assert(s2[a] == stack[a] && s2[b] == stack[b]);
                        }
                    }
                    assert forall|j: int| 0 <= j < s2.len() implies has_key(t, #[trigger] name_key(s2[j])) by {
                        if j < stack.len() {
                            assert(s2[j] == stack[j]);
                        }
                    }
                }
                lemma_eval_const_bound(t[i].value, s2, t, m);
            }
        },
        ConstantExpr::BinaryOp { span, op, lhs, rhs } => {
            lemma_eval_const_bound(*rhs, stack, t, m);
            if eval_const(*rhs, stack, t, t.len()) is Some {
                lemma_eval_const_shape(*rhs, stack, t, t.len());
                let t1 = eval_const(*rhs, stack, t, t.len()).unwrap().1;
                lemma_same_names_sorted(t1, t);
                assert(stack_ok(stack, t1)) by {
                    assert forall|j: int| 0 <= j < stack.len() implies has_key(t1, #[trigger] name_key(stack[j])) by {
                        let w = key_index(t, name_key(stack[j]));
                        assert(t1[w].name == t[w].name);
                    }
                }
                lemma_eval_const_bound(*lhs, stack, t1, m);
            }
        },
        _ => {},
    }
}

} // verus!
