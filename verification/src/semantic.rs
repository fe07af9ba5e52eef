//! The semantic check: name resolution, arity checking and duplicate
//! function detection over the surface AST. All errors are accumulated in
//! one pass, in source order; nothing short-circuits on the first error.
//!
//! Scoping is lexical: a parameter or `let` introduces a name into the
//! enclosing scope; the bodies of `if` and `while` see a copy of the scope,
//! so their bindings do not escape; `=` requires the name to exist already.

use vstd::prelude::*;
use vstd::string::StringExecFns;
use crate::ast;
use crate::decimal::{dec_usize_string, spec_dec_nat};
use crate::env::{assoc_find, assoc_set, lemma_assoc_find_skip, lemma_assoc_set_at,
    lemma_assoc_set_absent};

verus! {

/// An error found by the semantic check.
#[derive(Debug)]
pub enum SemanticError {
    /// A name was used where no parameter or `let` binding is in scope.
    UndefinedVariable { func_name: String, var_name: String },
    /// A call names a function that is not defined.
    UndefinedFunction { func_name: String, called_from: String },
    /// A call passes a different number of arguments than the callee takes.
    ArityMismatch { func_name: String, expected: usize, actual: usize, called_from: String },
    /// Two functions share one name.
    DuplicateFunction { func_name: String },
}

/// The model of a semantic error.
pub enum SemErrV {
    UndefinedVariable { func_name: Seq<char>, var_name: Seq<char> },
    UndefinedFunction { func_name: Seq<char>, called_from: Seq<char> },
    ArityMismatch { func_name: Seq<char>, expected: usize, actual: usize, called_from: Seq<char> },
    DuplicateFunction { func_name: Seq<char> },
}

impl View for SemanticError {
    type V = SemErrV;

    open spec fn view(&self) -> SemErrV {
        match self {
            SemanticError::UndefinedVariable { func_name, var_name } => SemErrV::UndefinedVariable {
                func_name: func_name@,
                var_name: var_name@,
            },
            SemanticError::UndefinedFunction { func_name, called_from } => SemErrV::UndefinedFunction {
                func_name: func_name@,
                called_from: called_from@,
            },
            SemanticError::ArityMismatch { func_name, expected, actual, called_from } => SemErrV::ArityMismatch {
                func_name: func_name@,
                expected: *expected,
                actual: *actual,
                called_from: called_from@,
            },
            SemanticError::DuplicateFunction { func_name } => SemErrV::DuplicateFunction {
                func_name: func_name@,
            },
        }
    }
}

/// The models of a sequence of semantic errors.
pub open spec fn errs_view(s: Seq<SemanticError>) -> Seq<SemErrV> {
    s.map_values(|e: SemanticError| e@)
}

/// The one-line rendering of a semantic error.
pub open spec fn spec_render_sem_err(e: SemErrV) -> Seq<char> {
    match e {
        SemErrV::UndefinedVariable { func_name, var_name } => "Undefined variable '"@ + var_name
            + "' in function '"@ + func_name + "'"@,
        SemErrV::UndefinedFunction { func_name, called_from } => "Undefined function '"@ + func_name
            + "' called from '"@ + called_from + "'"@,
        SemErrV::ArityMismatch { func_name, expected, actual, called_from } => "Function '"@
            + func_name + "' expects "@ + spec_dec_nat(expected as nat) + " argument(s) but "@
            + spec_dec_nat(actual as nat) + " provided, called from '"@ + called_from + "'"@,
        SemErrV::DuplicateFunction { func_name } => "Duplicate function definition '"@ + func_name
            + "'"@,
    }
}

impl SemanticError {
    /// Renders the error as the compiler's one-line diagnostic.
    pub fn render(&self) -> (r: String)
        ensures
            r@ == spec_render_sem_err(self@),
    {
        match self {
            SemanticError::UndefinedVariable { func_name, var_name } => {
                let mut s: String = "Undefined variable '".to_owned();
                s.append(var_name.as_str());
                s.append("' in function '");
                s.append(func_name.as_str());
                s.append("'");
                s
            },
            SemanticError::UndefinedFunction { func_name, called_from } => {
                let mut s: String = "Undefined function '".to_owned();
                s.append(func_name.as_str());
                s.append("' called from '");
                s.append(called_from.as_str());
                s.append("'");
                s
            },
            SemanticError::ArityMismatch { func_name, expected, actual, called_from } => {
                let mut s: String = "Function '".to_owned();
                s.append(func_name.as_str());
                s.append("' expects ");
                s.append(dec_usize_string(*expected).as_str());
                s.append(" argument(s) but ");
                s.append(dec_usize_string(*actual).as_str());
                s.append(" provided, called from '");
                s.append(called_from.as_str());
                s.append("'");
                s
            },
            SemanticError::DuplicateFunction { func_name } => {
                let mut s: String = "Duplicate function definition '".to_owned();
                s.append(func_name.as_str());
                s.append("'");
                s
            },
        }
    }
}

/// The names in scope at some program point.
#[derive(Debug)]
pub struct ScopeSet {
    pub names: Vec<String>,
}

impl View for ScopeSet {
    type V = Set<Seq<char>>;

    open spec fn view(&self) -> Set<Seq<char>> {
        Set::new(
            |n: Seq<char>|
                exists|i: int| 0 <= i < self.names@.len() && (#[trigger] self.names@[i])@ == n,
        )
    }
}

impl ScopeSet {
    pub fn new() -> (r: Self)
        ensures
            r@ =~= Set::<Seq<char>>::empty(),
    {
        let r = ScopeSet { names: Vec::new() };
        proof {
            assert(r@ =~= Set::<Seq<char>>::empty());
        }
        r
    }

    pub fn contains(&self, name: &String) -> (r: bool)
        ensures
            r == self@.contains(name@),
    {
        let mut i: usize = 0;
        while i < self.names.len()
            invariant
                i <= self.names@.len(),
                forall|j: int| 0 <= j < i ==> (#[trigger] self.names@[j])@ != name@,
            decreases self.names@.len() - i,
        {
            if self.names[i] == *name {
                proof {
                    assert(self@.contains(name@));
                }
                return true;
            }
            i = i + 1;
        }
        proof {
            assert(!self@.contains(name@));
        }
        false
    }

    pub fn insert(&mut self, name: &String)
        ensures
            final(self)@ =~= old(self)@.insert(name@),
    {
        self.names.push(name.clone());
        proof {
            let n0 = old(self).names@.len() as int;
            assert forall|n: Seq<char>| final(self)@.contains(n) implies old(self)@.insert(
                name@,
            ).contains(n) by {
                let i = choose|i: int|
                    0 <= i < final(self).names@.len() && (#[trigger] final(self).names@[i])@ == n;
                if i < n0 {
                    assert((old(self).names@[i])@ == n);
                }
            }
            assert forall|n: Seq<char>|
                old(self)@.insert(name@).contains(n) implies final(self)@.contains(n) by {
                if old(self)@.contains(n) {
                    let i = choose|i: int|
                        0 <= i < old(self).names@.len() && (#[trigger] old(self).names@[i])@ == n;
                    assert((final(self).names@[i])@ == n);
                } else {
                    assert((final(self).names@[n0])@ == n);
                }
            }
            assert(final(self)@ =~= old(self)@.insert(name@));
        }
    }

    /// An independent copy with the same contents; bindings made in the copy
    /// do not escape into the original.
    pub fn duplicate(&self) -> (r: Self)
        ensures
            r@ =~= self@,
    {
        let mut names: Vec<String> = Vec::new();
        let mut i: usize = 0;
        while i < self.names.len()
            invariant
                i <= self.names@.len(),
                names@.len() == i,
                forall|j: int| 0 <= j < i ==> (#[trigger] names@[j])@ == (self.names@[j])@,
            decreases self.names@.len() - i,
        {
            names.push(self.names[i].clone());
            i = i + 1;
        }
        let r = ScopeSet { names };
        proof {
            assert forall|n: Seq<char>| r@.contains(n) implies self@.contains(n) by {
                let j = choose|j: int| 0 <= j < r.names@.len() && (#[trigger] r.names@[j])@ == n;
                assert((self.names@[j])@ == n);
            }
            assert forall|n: Seq<char>| self@.contains(n) implies r@.contains(n) by {
                let j = choose|j: int|
                    0 <= j < self.names@.len() && (#[trigger] self.names@[j])@ == n;
                assert((r.names@[j])@ == n);
            }
            assert(r@ =~= self@);
        }
        r
    }
}

/// Function name to parameter count. A later definition under the same name
/// overwrites an earlier one's count, as the duplicate is reported anyway.
#[derive(Debug)]
pub struct ArityMap {
    pub entries: Vec<(String, usize)>,
}

impl View for ArityMap {
    type V = Seq<(Seq<char>, usize)>;

    open spec fn view(&self) -> Seq<(Seq<char>, usize)> {
        self.entries@.map_values(|p: (String, usize)| (p.0@, p.1))
    }
}

impl ArityMap {
    pub fn new() -> (r: Self)
        ensures
            r@ =~= Seq::<(Seq<char>, usize)>::empty(),
    {
        ArityMap { entries: Vec::new() }
    }

    pub fn get(&self, name: &String) -> (r: Option<usize>)
        ensures
            r == assoc_find(self@, name@),
    {
        let mut i: usize = 0;
        while i < self.entries.len()
            invariant
                i <= self@.len(),
                forall|j: int| 0 <= j < i ==> (#[trigger] self@[j]).0 != name@,
            decreases self@.len() - i,
        {
            if self.entries[i].0 == *name {
                proof {
                    lemma_assoc_find_skip(self@, name@, i as int);
                    assert(self@.skip(i as int)[0] == self@[i as int]);
                }
                return Some(self.entries[i].1);
            }
            i = i + 1;
        }
        proof {
            lemma_assoc_find_skip(self@, name@, self@.len() as int);
        }
        None
    }

    pub fn set(&mut self, name: &String, arity: usize)
        ensures
            final(self)@ =~= assoc_set(old(self)@, name@, arity),
    {
        let mut i: usize = 0;
        while i < self.entries.len()
            invariant
                i <= self@.len(),
                self@ == old(self)@,
                forall|j: int| 0 <= j < i ==> (#[trigger] self@[j]).0 != name@,
            decreases self@.len() - i,
        {
            if self.entries[i].0 == *name {
                self.entries.set(i, (name.clone(), arity));
                proof {
                    lemma_assoc_set_at(old(self)@, name@, arity, i as int);
                    assert(final(self)@ =~= old(self)@.update(i as int, (name@, arity)));
                }
                return ;
            }
            i = i + 1;
        }
        self.entries.push((name.clone(), arity));
        proof {
            lemma_assoc_set_absent(old(self)@, name@, arity);
            assert(final(self)@ =~= old(self)@.push((name@, arity)));
        }
    }
}

/// The arity map a program gives rise to: each function's parameter count
/// under its name, a later duplicate overwriting an earlier count.
pub open spec fn spec_build_arities(funcs: Seq<ast::Function>) -> Seq<(Seq<char>, usize)>
    decreases funcs.len(),
{
    if funcs.len() == 0 {
        Seq::empty()
    } else {
        assoc_set(
            spec_build_arities(funcs.drop_last()),
            funcs.last().name@,
            funcs.last().args@.len() as usize,
        )
    }
}

/// The duplicate-function errors, in declaration order: one for each
/// function whose name already appeared earlier.
pub open spec fn spec_dup_errors(funcs: Seq<ast::Function>) -> Seq<SemErrV>
    decreases funcs.len(),
{
    if funcs.len() == 0 {
        Seq::empty()
    } else {
        spec_dup_errors(funcs.drop_last()) + (if (exists|j: int|
            0 <= j < funcs.len() - 1 && (#[trigger] funcs[j]).name@ == funcs.last().name@) {
            seq![SemErrV::DuplicateFunction { func_name: funcs.last().name@ }]
        } else {
            Seq::empty()
        })
    }
}

/// The set of names a function's parameters bring into scope.
pub open spec fn spec_params_set(args: Seq<(String, ast::Type)>) -> Set<Seq<char>> {
    Set::new(|n: Seq<char>| exists|i: int| 0 <= i < args.len() && (#[trigger] args[i]).0@ == n)
}

/// The errors an expression contributes, in source order: for a variable,
/// an undefined-variable error when it is not in scope; for a call, an
/// undefined-function or arity error for the callee, then the arguments'
/// errors left to right; subexpressions in evaluation order.
pub open spec fn spec_check_expr(
    e: ast::Expr,
    func_name: Seq<char>,
    arities: Seq<(Seq<char>, usize)>,
    scope: Set<Seq<char>>,
) -> Seq<SemErrV>
    decreases e,
{
    match e {
        ast::Expr::IntLit { .. } => Seq::empty(),
        ast::Expr::Variable { name } => {
            if scope.contains(name@) {
                Seq::empty()
            } else {
                seq![SemErrV::UndefinedVariable { func_name: func_name, var_name: name@ }]
            }
        },
        ast::Expr::Binary { op: _, left, right } => spec_check_expr(
            *left,
            func_name,
            arities,
            scope,
        ) + spec_check_expr(*right, func_name, arities, scope),
        ast::Expr::Unary { op: _, operand } => spec_check_expr(*operand, func_name, arities, scope),
        ast::Expr::FnCall { name, args } => {
            (match assoc_find(arities, name@) {
                None => seq![
                    SemErrV::UndefinedFunction { func_name: name@, called_from: func_name },
                ],
                Some(expected) => {
                    if args@.len() != expected {
                        seq![
                            SemErrV::ArityMismatch {
                                func_name: name@,
                                expected: expected,
                                actual: args@.len() as usize,
                                called_from: func_name,
                            },
                        ]
                    } else {
                        Seq::empty()
                    }
                },
            }) + spec_check_exprs(args@, func_name, arities, scope)
        },
        ast::Expr::PeripheralRead { .. } => Seq::empty(),
    }
}

/// The errors of a sequence of expressions, left to right.
pub open spec fn spec_check_exprs(
    es: Seq<ast::Expr>,
    func_name: Seq<char>,
    arities: Seq<(Seq<char>, usize)>,
    scope: Set<Seq<char>>,
) -> Seq<SemErrV>
    decreases es,
{
    if es.len() == 0 {
        Seq::empty()
    } else {
        spec_check_expr(es[0], func_name, arities, scope) + spec_check_exprs(
            es.drop_first(),
            func_name,
            arities,
            scope,
        )
    }
}

/// The errors one statement contributes and the scope it leaves behind.
/// `let` checks its expression and then binds the name; `=` requires the
/// name to exist already; `if` and `while` check their bodies in a copy of
/// the scope.
pub open spec fn spec_check_stmt(
    stmt: ast::Statement,
    func_name: Seq<char>,
    arities: Seq<(Seq<char>, usize)>,
    scope: Set<Seq<char>>,
) -> (Seq<SemErrV>, Set<Seq<char>>)
    decreases stmt,
{
    match stmt {
        ast::Statement::Let { var_name, value } => (
            spec_check_expr(value, func_name, arities, scope),
            scope.insert(var_name@),
        ),
        ast::Statement::Assign { var_name, value } => (
            (if scope.contains(var_name@) {
                Seq::empty()
            } else {
                seq![SemErrV::UndefinedVariable { func_name: func_name, var_name: var_name@ }]
            }) + spec_check_expr(value, func_name, arities, scope),
            scope,
        ),
        ast::Statement::Expr { expr } => (spec_check_expr(expr, func_name, arities, scope), scope),
        ast::Statement::Return { expr } => (
            match expr {
                Some(e) => spec_check_expr(e, func_name, arities, scope),
                None => Seq::empty(),
            },
            scope,
        ),
        ast::Statement::If { cond, then_block, else_block } => (
            spec_check_expr(cond, func_name, arities, scope) + spec_check_stmts(
                then_block@,
                func_name,
                arities,
                scope,
            ).0 + spec_check_stmts(else_block@, func_name, arities, scope).0,
            scope,
        ),
        ast::Statement::While { cond, body } => (
            spec_check_expr(cond, func_name, arities, scope) + spec_check_stmts(
                body@,
                func_name,
                arities,
                scope,
            ).0,
            scope,
        ),
        ast::Statement::PeripheralWrite { peripheral: _, register: _, value } => (
            spec_check_expr(value, func_name, arities, scope),
            scope,
        ),
    }
}

/// The errors of a statement sequence, threading the scope left to right.
pub open spec fn spec_check_stmts(
    stmts: Seq<ast::Statement>,
    func_name: Seq<char>,
    arities: Seq<(Seq<char>, usize)>,
    scope: Set<Seq<char>>,
) -> (Seq<SemErrV>, Set<Seq<char>>)
    decreases stmts,
{
    if stmts.len() == 0 {
        (Seq::empty(), scope)
    } else {
        let head = spec_check_stmt(stmts[0], func_name, arities, scope);
        let rest = spec_check_stmts(stmts.drop_first(), func_name, arities, head.1);
        (head.0 + rest.0, rest.1)
    }
}

/// The errors one function contributes: its body checked in the scope of
/// its parameters.
pub open spec fn spec_check_function(
    func: ast::Function,
    arities: Seq<(Seq<char>, usize)>,
) -> Seq<SemErrV> {
    spec_check_stmts(func.body@, func.name@, arities, spec_params_set(func.args@)).0
}

/// The errors of the functions from index `i` on, in order.
pub open spec fn spec_fn_errors_from(
    funcs: Seq<ast::Function>,
    arities: Seq<(Seq<char>, usize)>,
    i: int,
) -> Seq<SemErrV>
    decreases funcs.len() - i,
{
    if i < 0 || i >= funcs.len() {
        Seq::empty()
    } else {
        spec_check_function(funcs[i], arities) + spec_fn_errors_from(funcs, arities, i + 1)
    }
}

/// Every error the semantic check reports for a program, in source order:
/// the duplicate-function errors of the declaration pass, then each
/// function's errors.
pub open spec fn spec_check_program(p: ast::Program) -> Seq<SemErrV> {
    spec_dup_errors(p.functions@) + spec_fn_errors_from(
        p.functions@,
        spec_build_arities(p.functions@),
        0,
    )
}

/// Whether any of the first `upto` functions is named `name`.
fn name_seen(funcs: &Vec<ast::Function>, upto: usize, name: &String) -> (r: bool)
    requires
        upto <= funcs@.len(),
    ensures
        r == exists|j: int| 0 <= j < upto && (#[trigger] funcs@[j]).name@ == name@,
{
    let mut j: usize = 0;
    while j < upto
        invariant
            j <= upto,
            upto <= funcs@.len(),
            forall|j2: int| 0 <= j2 < j ==> (#[trigger] funcs@[j2]).name@ != name@,
        decreases upto - j,
    {
        if funcs[j].name == *name {
            return true;
        }
        j = j + 1;
    }
    false
}

/// Appends one error; the recorded sequence grows by exactly its model.
fn push_err(errors: &mut Vec<SemanticError>, e: SemanticError)
    ensures
        errs_view(final(errors)@) =~= errs_view(old(errors)@).push(e@),
{
    let ghost ev: SemErrV = e@;
    errors.push(e);
    proof {
        assert(errs_view(final(errors)@) =~= errs_view(old(errors)@).push(ev));
    }
}

/// Appends the errors of one expression, in source order.
pub fn check_expr(
    expr: &ast::Expr,
    func_name: &String,
    arities: &ArityMap,
    scope: &ScopeSet,
    errors: &mut Vec<SemanticError>,
)
    ensures
        errs_view(final(errors)@) =~= errs_view(old(errors)@) + spec_check_expr(
            *expr,
            func_name@,
            arities@,
            scope@,
        ),
    decreases *expr,
{
    match expr {
        ast::Expr::IntLit { .. } => {},
        ast::Expr::Variable { name } => {
            if !scope.contains(name) {
                push_err(
                    errors,
                    SemanticError::UndefinedVariable {
                        func_name: func_name.clone(),
                        var_name: name.clone(),
                    },
                );
            }
        },
        ast::Expr::Binary { op: _, left, right } => {
            check_expr(left, func_name, arities, scope, errors);
            check_expr(right, func_name, arities, scope, errors);
        },
        ast::Expr::Unary { op: _, operand } => {
            check_expr(operand, func_name, arities, scope, errors);
        },
        ast::Expr::FnCall { name, args } => {
            match arities.get(name) {
                None => {
                    push_err(
                        errors,
                        SemanticError::UndefinedFunction {
                            func_name: name.clone(),
                            called_from: func_name.clone(),
                        },
                    );
                },
                Some(expected) => {
                    if args.len() != expected {
                        push_err(
                            errors,
                            SemanticError::ArityMismatch {
                                func_name: name.clone(),
                                expected,
                                actual: args.len(),
                                called_from: func_name.clone(),
                            },
                        );
                    }
                },
            }
            check_exprs(args, func_name, arities, scope, errors);
        },
        ast::Expr::PeripheralRead { .. } => {},
    }
}

/// Appends the errors of an expression sequence, left to right.
pub fn check_exprs(
    es: &Vec<ast::Expr>,
    func_name: &String,
    arities: &ArityMap,
    scope: &ScopeSet,
    errors: &mut Vec<SemanticError>,
)
    ensures
        errs_view(final(errors)@) =~= errs_view(old(errors)@) + spec_check_exprs(
            es@,
            func_name@,
            arities@,
            scope@,
        ),
    decreases *es,
{
    proof {
        assert(es@.skip(0) =~= es@);
    }
    let mut i: usize = 0;
    while i < es.len()
        invariant
            i <= es@.len(),
            errs_view(errors@) + spec_check_exprs(es@.skip(i as int), func_name@, arities@, scope@)
                =~= errs_view(old(errors)@) + spec_check_exprs(es@, func_name@, arities@, scope@),
        decreases es@.len() - i,
    {
        proof {
            assert(es@.skip(i as int)[0] == es@[i as int]);
            assert(es@.skip(i as int).drop_first() =~= es@.skip(i + 1));
        }
        check_expr(&es[i], func_name, arities, scope, errors);
        i = i + 1;
    }
    proof {
        assert(es@.skip(es@.len() as int) =~= Seq::<ast::Expr>::empty());
    }
}

/// Applies one statement: appends its errors and updates the scope.
pub fn check_statement(
    stmt: &ast::Statement,
    func_name: &String,
    arities: &ArityMap,
    scope: &mut ScopeSet,
    errors: &mut Vec<SemanticError>,
)
    ensures
        errs_view(final(errors)@) =~= errs_view(old(errors)@) + spec_check_stmt(
            *stmt,
            func_name@,
            arities@,
            old(scope)@,
        ).0,
        final(scope)@ =~= spec_check_stmt(*stmt, func_name@, arities@, old(scope)@).1,
    decreases *stmt,
{
    match stmt {
        ast::Statement::Let { var_name, value } => {
            check_expr(value, func_name, arities, scope, errors);
            scope.insert(var_name);
        },
        ast::Statement::Assign { var_name, value } => {
            if !scope.contains(var_name) {
                push_err(
                    errors,
                    SemanticError::UndefinedVariable {
                        func_name: func_name.clone(),
                        var_name: var_name.clone(),
                    },
                );
            }
            check_expr(value, func_name, arities, scope, errors);
        },
        ast::Statement::Expr { expr } => {
            check_expr(expr, func_name, arities, scope, errors);
        },
        ast::Statement::Return { expr } => {
            match expr {
                Some(e) => {
                    check_expr(e, func_name, arities, scope, errors);
                },
                None => {},
            }
        },
        ast::Statement::If { cond, then_block, else_block } => {
            check_expr(cond, func_name, arities, scope, errors);
            let mut then_scope = scope.duplicate();
            check_block(then_block, func_name, arities, &mut then_scope, errors);
            let mut else_scope = scope.duplicate();
            check_block(else_block, func_name, arities, &mut else_scope, errors);
        },
        ast::Statement::While { cond, body } => {
            check_expr(cond, func_name, arities, scope, errors);
            let mut body_scope = scope.duplicate();
            check_block(body, func_name, arities, &mut body_scope, errors);
        },
        ast::Statement::PeripheralWrite { peripheral: _, register: _, value } => {
            check_expr(value, func_name, arities, scope, errors);
        },
    }
}

/// Applies a statement sequence in order, threading the scope.
pub fn check_block(
    stmts: &Vec<ast::Statement>,
    func_name: &String,
    arities: &ArityMap,
    scope: &mut ScopeSet,
    errors: &mut Vec<SemanticError>,
)
    ensures
        errs_view(final(errors)@) =~= errs_view(old(errors)@) + spec_check_stmts(
            stmts@,
            func_name@,
            arities@,
            old(scope)@,
        ).0,
        final(scope)@ =~= spec_check_stmts(stmts@, func_name@, arities@, old(scope)@).1,
    decreases *stmts,
{
    let ghost scope0: Set<Seq<char>> = scope@;
    proof {
        assert(stmts@.skip(0) =~= stmts@);
    }
    let mut i: usize = 0;
    while i < stmts.len()
        invariant
            i <= stmts@.len(),
            errs_view(errors@) + spec_check_stmts(
                stmts@.skip(i as int),
                func_name@,
                arities@,
                scope@,
            ).0 =~= errs_view(old(errors)@) + spec_check_stmts(
                stmts@,
                func_name@,
                arities@,
                scope0,
            ).0,
            spec_check_stmts(stmts@.skip(i as int), func_name@, arities@, scope@).1
                =~= spec_check_stmts(stmts@, func_name@, arities@, scope0).1,
            scope0 == old(scope)@,
        decreases stmts@.len() - i,
    {
        proof {
            assert(stmts@.skip(i as int)[0] == stmts@[i as int]);
            assert(stmts@.skip(i as int).drop_first() =~= stmts@.skip(i + 1));
        }
        check_statement(&stmts[i], func_name, arities, scope, errors);
        i = i + 1;
    }
    proof {
        assert(stmts@.skip(stmts@.len() as int) =~= Seq::<ast::Statement>::empty());
    }
}

/// Checks one function: its body in the scope of its parameters.
pub fn check_function(
    func: &ast::Function,
    arities: &ArityMap,
    errors: &mut Vec<SemanticError>,
)
    ensures
        errs_view(final(errors)@) =~= errs_view(old(errors)@) + spec_check_function(
            *func,
            arities@,
        ),
{
    let mut scope = ScopeSet::new();
    let mut j: usize = 0;
    while j < func.args.len()
        invariant
            j <= func.args@.len(),
            errors@ == old(errors)@,
            forall|n: Seq<char>|
                scope@.contains(n) <==> exists|k: int|
                    0 <= k < j && (#[trigger] func.args@[k]).0@ == n,
        decreases func.args@.len() - j,
    {
        let ghost pre: Set<Seq<char>> = scope@;
        scope.insert(&func.args[j].0);
        proof {
            assert forall|n: Seq<char>| scope@.contains(n) implies exists|k: int|
                0 <= k < j + 1 && (#[trigger] func.args@[k]).0@ == n by {
                if pre.contains(n) {
                } else {
                    assert(func.args@[j as int].0@ == n);
                }
            }
        }
        j = j + 1;
    }
    proof {
        assert(scope@ =~= spec_params_set(func.args@));
    }
    check_block(&func.body, &func.name, arities, &mut scope, errors);
}

/// Checks a whole program: collects every semantic error in source order,
/// and succeeds exactly when there are none. The declaration pass reports
/// duplicate function names and records each function's arity; the second
/// pass checks every function body.
pub fn check(program: &ast::Program) -> (r: Result<(), Vec<SemanticError>>)
    ensures
        match r {
            Ok(()) => spec_check_program(*program).len() == 0,
            Err(v) => errs_view(v@) =~= spec_check_program(*program) && v@.len() > 0,
        },
{
    let mut errors: Vec<SemanticError> = Vec::new();
    let mut arities = ArityMap::new();

    let mut i: usize = 0;
    while i < program.functions.len()
        invariant
            i <= program.functions@.len(),
            errs_view(errors@) =~= spec_dup_errors(program.functions@.take(i as int)),
            arities@ =~= spec_build_arities(program.functions@.take(i as int)),
        decreases program.functions@.len() - i,
    {
        let func = &program.functions[i];
        let seen = name_seen(&program.functions, i, &func.name);
        if seen {
            push_err(&mut errors, SemanticError::DuplicateFunction { func_name: func.name.clone() });
        }
        arities.set(&func.name, func.args.len());
        proof {
            let taken = program.functions@.take(i + 1);
            assert(taken.drop_last() =~= program.functions@.take(i as int));
            assert(taken.last() == program.functions@[i as int]);
            if seen {
                let j0 = choose|j: int|
                    0 <= j < i && (#[trigger] program.functions@[j]).name@ == func.name@;
                assert(taken[j0] == program.functions@[j0]);
                assert(0 <= j0 < taken.len() - 1 && taken[j0].name@ == taken.last().name@);
            } else {
                assert forall|j: int|
                    0 <= j < taken.len() - 1 implies (#[trigger] taken[j]).name@
                        != taken.last().name@ by {
                    assert(taken[j] == program.functions@[j]);
                }
            }
            assert(errs_view(errors@) =~= spec_dup_errors(taken));
        }
        i = i + 1;
    }
    proof {
        assert(program.functions@.take(program.functions@.len() as int) =~= program.functions@);
    }

    let ghost dup_errs: Seq<SemErrV> = errs_view(errors@);
    let mut k: usize = 0;
    while k < program.functions.len()
        invariant
            k <= program.functions@.len(),
            arities@ =~= spec_build_arities(program.functions@),
            dup_errs == spec_dup_errors(program.functions@),
            errs_view(errors@) + spec_fn_errors_from(program.functions@, arities@, k as int)
                =~= dup_errs + spec_fn_errors_from(program.functions@, arities@, 0),
        decreases program.functions@.len() - k,
    {
        check_function(&program.functions[k], &arities, &mut errors);
        k = k + 1;
    }

    if errors.len() == 0 {
        proof {
            assert(spec_check_program(*program) =~= dup_errs + spec_fn_errors_from(
                program.functions@,
                spec_build_arities(program.functions@),
                0,
            ));
        }
        Ok(())
    } else {
        proof {
            assert(errs_view(errors@) =~= spec_check_program(*program));
        }
        Err(errors)
    }
}

} // verus!

verus! {

/// Every name in the expression resolves: variables are in scope, callees
/// are defined, and call arities match.
pub open spec fn expr_resolved(
    e: ast::Expr,
    arities: Seq<(Seq<char>, usize)>,
    scope: Set<Seq<char>>,
) -> bool
    decreases e,
{
    match e {
        ast::Expr::IntLit { .. } => true,
        ast::Expr::Variable { name } => scope.contains(name@),
        ast::Expr::Binary { op: _, left, right } => expr_resolved(*left, arities, scope)
            && expr_resolved(*right, arities, scope),
        ast::Expr::Unary { op: _, operand } => expr_resolved(*operand, arities, scope),
        ast::Expr::FnCall { name, args } => (match assoc_find(arities, name@) {
            Some(expected) => expected == args@.len(),
            None => false,
        }) && exprs_resolved(args@, arities, scope),
        ast::Expr::PeripheralRead { .. } => true,
    }
}

pub open spec fn exprs_resolved(
    es: Seq<ast::Expr>,
    arities: Seq<(Seq<char>, usize)>,
    scope: Set<Seq<char>>,
) -> bool
    decreases es,
{
    es.len() == 0 || (expr_resolved(es[0], arities, scope) && exprs_resolved(
        es.drop_first(),
        arities,
        scope,
    ))
}

/// The names in scope after one statement: `let` binds its name, nothing
/// else changes the scope.
pub open spec fn stmt_scope_after(stmt: ast::Statement, scope: Set<Seq<char>>) -> Set<Seq<char>> {
    match stmt {
        ast::Statement::Let { var_name, .. } => scope.insert(var_name@),
        _ => scope,
    }
}

/// Every name in the statement resolves, under lexical scoping: branch and
/// loop bodies see a copy of the scope.
pub open spec fn stmt_resolved(
    stmt: ast::Statement,
    arities: Seq<(Seq<char>, usize)>,
    scope: Set<Seq<char>>,
) -> bool
    decreases stmt,
{
    match stmt {
        ast::Statement::Let { var_name: _, value } => expr_resolved(value, arities, scope),
        ast::Statement::Assign { var_name, value } => scope.contains(var_name@) && expr_resolved(
            value,
            arities,
            scope,
        ),
        ast::Statement::Expr { expr } => expr_resolved(expr, arities, scope),
        ast::Statement::Return { expr } => match expr {
            Some(e) => expr_resolved(e, arities, scope),
            None => true,
        },
        ast::Statement::If { cond, then_block, else_block } => expr_resolved(cond, arities, scope)
            && stmts_resolved(then_block@, arities, scope) && stmts_resolved(
            else_block@,
            arities,
            scope,
        ),
        ast::Statement::While { cond, body } => expr_resolved(cond, arities, scope)
            && stmts_resolved(body@, arities, scope),
        ast::Statement::PeripheralWrite { peripheral: _, register: _, value } => expr_resolved(
            value,
            arities,
            scope,
        ),
    }
}

pub open spec fn stmts_resolved(
    stmts: Seq<ast::Statement>,
    arities: Seq<(Seq<char>, usize)>,
    scope: Set<Seq<char>>,
) -> bool
    decreases stmts,
{
    stmts.len() == 0 || (stmt_resolved(stmts[0], arities, scope) && stmts_resolved(
        stmts.drop_first(),
        arities,
        scope.union(stmt_scope_after(stmts[0], scope)),
    ))
}

/// A clean expression check means every name in the expression resolves.
proof fn lemma_check_expr_empty(
    e: ast::Expr,
    func_name: Seq<char>,
    arities: Seq<(Seq<char>, usize)>,
    scope: Set<Seq<char>>,
)
    ensures
        spec_check_expr(e, func_name, arities, scope).len() == 0 <==> expr_resolved(
            e,
            arities,
            scope,
        ),
    decreases e,
{
    match e {
        ast::Expr::Binary { op: _, left, right } => {
            lemma_check_expr_empty(*left, func_name, arities, scope);
            lemma_check_expr_empty(*right, func_name, arities, scope);
        },
        ast::Expr::Unary { op: _, operand } => {
            lemma_check_expr_empty(*operand, func_name, arities, scope);
        },
        ast::Expr::FnCall { name: _, args } => {
            lemma_check_exprs_empty(args@, func_name, arities, scope);
        },
        _ => {},
    }
}

proof fn lemma_check_exprs_empty(
    es: Seq<ast::Expr>,
    func_name: Seq<char>,
    arities: Seq<(Seq<char>, usize)>,
    scope: Set<Seq<char>>,
)
    ensures
        spec_check_exprs(es, func_name, arities, scope).len() == 0 <==> exprs_resolved(
            es,
            arities,
            scope,
        ),
    decreases es,
{
    if es.len() > 0 {
        lemma_check_expr_empty(es[0], func_name, arities, scope);
        lemma_check_exprs_empty(es.drop_first(), func_name, arities, scope);
    }
}

/// A clean statement check means every name in the statement resolves, and
/// the checker's scope afterwards is the lexical one.
proof fn lemma_check_stmt_empty(
    stmt: ast::Statement,
    func_name: Seq<char>,
    arities: Seq<(Seq<char>, usize)>,
    scope: Set<Seq<char>>,
)
    ensures
        spec_check_stmt(stmt, func_name, arities, scope).0.len() == 0 <==> stmt_resolved(
            stmt,
            arities,
            scope,
        ),
        spec_check_stmt(stmt, func_name, arities, scope).1 == scope.union(
            stmt_scope_after(stmt, scope),
        ),
    decreases stmt,
{
    assert(scope.union(stmt_scope_after(stmt, scope)) =~= stmt_scope_after(stmt, scope));
    match stmt {
        ast::Statement::Let { var_name: _, value } => {
            lemma_check_expr_empty(value, func_name, arities, scope);
        },
        ast::Statement::Assign { var_name: _, value } => {
            lemma_check_expr_empty(value, func_name, arities, scope);
        },
        ast::Statement::Expr { expr } => {
            lemma_check_expr_empty(expr, func_name, arities, scope);
        },
        ast::Statement::Return { expr } => {
            match expr {
                Some(e) => {
                    lemma_check_expr_empty(e, func_name, arities, scope);
                },
                None => {},
            }
        },
        ast::Statement::If { cond, then_block, else_block } => {
            lemma_check_expr_empty(cond, func_name, arities, scope);
            lemma_check_stmts_empty(then_block@, func_name, arities, scope);
            lemma_check_stmts_empty(else_block@, func_name, arities, scope);
        },
        ast::Statement::While { cond, body } => {
            lemma_check_expr_empty(cond, func_name, arities, scope);
            lemma_check_stmts_empty(body@, func_name, arities, scope);
        },
        ast::Statement::PeripheralWrite { peripheral: _, register: _, value } => {
            lemma_check_expr_empty(value, func_name, arities, scope);
        },
    }
}

proof fn lemma_check_stmts_empty(
    stmts: Seq<ast::Statement>,
    func_name: Seq<char>,
    arities: Seq<(Seq<char>, usize)>,
    scope: Set<Seq<char>>,
)
    ensures
        spec_check_stmts(stmts, func_name, arities, scope).0.len() == 0 <==> stmts_resolved(
            stmts,
            arities,
            scope,
        ),
    decreases stmts,
{
    if stmts.len() > 0 {
        lemma_check_stmt_empty(stmts[0], func_name, arities, scope);
        lemma_check_stmts_empty(
            stmts.drop_first(),
            func_name,
            arities,
            scope.union(stmt_scope_after(stmts[0], scope)),
        );
    }
}

/// Every name in every function of the program resolves: each body under
/// the scope of its parameters, against the program's arity map.
pub open spec fn program_resolved(p: ast::Program) -> bool {
    forall|i: int|
        0 <= i < p.functions@.len() ==> stmts_resolved(
            (#[trigger] p.functions@[i]).body@,
            spec_build_arities(p.functions@),
            spec_params_set(p.functions@[i].args@),
        )
}

proof fn lemma_fn_errors_empty(
    funcs: Seq<ast::Function>,
    arities: Seq<(Seq<char>, usize)>,
    i: int,
)
    requires
        spec_fn_errors_from(funcs, arities, i).len() == 0,
        0 <= i,
    ensures
        forall|j: int|
            i <= j < funcs.len() ==> stmts_resolved(
                (#[trigger] funcs[j]).body@,
                arities,
                spec_params_set(funcs[j].args@),
            ),
    decreases funcs.len() - i,
{
    if i < funcs.len() {
        lemma_check_stmts_empty(
            funcs[i].body@,
            funcs[i].name@,
            arities,
            spec_params_set(funcs[i].args@),
        );
        lemma_fn_errors_empty(funcs, arities, i + 1);
    }
}

proof fn lemma_dup_errors_empty(funcs: Seq<ast::Function>)
    requires
        spec_dup_errors(funcs).len() == 0,
    ensures
        forall|i: int, j: int|
            0 <= i < j < funcs.len() ==> (#[trigger] funcs[i]).name@ != (#[trigger] funcs[j]).name@,
    decreases funcs.len(),
{
    if funcs.len() > 0 {
        lemma_dup_errors_empty(funcs.drop_last());
        assert forall|i: int, j: int|
            0 <= i < j < funcs.len() implies (#[trigger] funcs[i]).name@ != (
        #[trigger] funcs[j]).name@ by {
            if j < funcs.len() - 1 {
                assert(funcs.drop_last()[i] == funcs[i]);
                assert(funcs.drop_last()[j] == funcs[j]);
            } else {
                assert(!(exists|w: int|
                    0 <= w < funcs.len() - 1 && (#[trigger] funcs[w]).name@
                        == funcs.last().name@));
            }
        }
    }
}

/// Name-resolution completeness: when the semantic check reports no error,
/// every variable is in scope at its use site, every callee is a defined
/// function called with the right number of arguments, and no two functions
/// share a name.
pub proof fn lemma_name_resolution_complete(p: ast::Program)
    requires
        spec_check_program(p).len() == 0,
    ensures
        program_resolved(p),
        forall|i: int, j: int|
            0 <= i < j < p.functions@.len() ==> (#[trigger] p.functions@[i]).name@ != (
            #[trigger] p.functions@[j]).name@,
{
    assert(spec_dup_errors(p.functions@).len() == 0);
    assert(spec_fn_errors_from(p.functions@, spec_build_arities(p.functions@), 0).len() == 0);
    lemma_dup_errors_empty(p.functions@);
    lemma_fn_errors_empty(p.functions@, spec_build_arities(p.functions@), 0);
}

} // verus!
