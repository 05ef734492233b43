//! The complexity scoring engine: a nesting-aware recursive fold over the
//! syntax tree of one source file.
//!
//! Scoring rules:
//! - `if` (and each `else if` in a chain), `match`, `for` and `while` add a
//!   base increment of 1 and evaluate their scored children one nesting level
//!   deeper.
//! - A closure adds no base increment but evaluates its body one level deeper.
//! - Method calls, blocks used as expressions and `let` conditions pass the
//!   current level through unchanged.
//! - Any node whose aggregate (base plus children) is nonzero receives the
//!   current nesting level once, when it returns its value to its parent; a
//!   node whose aggregate is zero adds nothing.
//! - Boolean operator chains are not scored: the model keeps them as
//!   `Expr::Other`, a documented limitation.
//!
//! The mathematical score is unbounded, so the executable walker saturates:
//! it returns the exact score whenever that fits the result type, and the
//! type's maximum otherwise.  Nesting levels saturate at `u64::MAX`, a depth
//! no tree held in memory can reach.

use vstd::prelude::*;

use crate::ast::{Block, Expr, FunctionItem, Item, SourceTree, Stmt};

verus! {

/// The score of one function: its name and its cognitive complexity value.
#[derive(PartialEq, Eq, Debug)]
pub struct FunctionComplexity {
    pub function: String,
    pub cognitive_complexity_value: u16,
}

/// The source grammars a caller can name.  Only Rust is implemented;
/// selecting any other grammar fails fast with `UnsupportedLanguage`.
pub enum ProgrammingLang {
    Rust,
    Python,
    Go,
}

/// The errors the scoring engine itself can report.
#[derive(PartialEq, Eq, Debug)]
pub enum ComplexityError {
    /// The selected grammar has no evaluator yet.
    UnsupportedLanguage,
}

/// The nesting level one step deeper, saturating at `u64::MAX`.
pub open spec fn next_level(lvl: u64) -> u64 {
    if lvl < u64::MAX {
        (lvl + 1) as u64
    } else {
        lvl
    }
}

/// A mathematical score clamped to what a `u64` can carry.
pub open spec fn capped(n: nat) -> u64 {
    if n > u64::MAX {
        u64::MAX
    } else {
        n as u64
    }
}

/// A mathematical score clamped to what a `u16` can carry.
pub open spec fn capped16(n: nat) -> u16 {
    if n > u16::MAX {
        u16::MAX
    } else {
        n as u16
    }
}

/// The aggregate an expression reports before its nesting bonus: its base
/// increment plus its children's scores.
pub open spec fn expr_weight(e: Expr, lvl: u64) -> nat
    decreases e, 0int,
{
    match e {
        Expr::If { cond, then_branch, else_branch } => {
            let else_score = match else_branch {
                Some(els) => expr_score(*els, next_level(lvl)),
                None => 0,
            };
            1 + expr_score(*cond, next_level(lvl)) + block_score(then_branch, next_level(lvl))
                + else_score
        },
        Expr::Match { arms } => 1 + exprs_score(arms@, next_level(lvl)),
        Expr::ForLoop { body } => 1 + block_score(body, next_level(lvl)),
        Expr::WhileLoop { body } => 1 + block_score(body, next_level(lvl)),
        Expr::MethodCall { receiver, args } => exprs_score(args@, lvl) + expr_score(
            *receiver,
            lvl,
        ),
        Expr::Closure { inner } => expr_score(*inner, next_level(lvl)),
        Expr::Block { block } => block_score(block, lvl),
        Expr::LetBinding { expr } => expr_score(*expr, lvl),
        Expr::Other => 0,
    }
}

/// The score an expression returns to its parent: its weight, plus the
/// current nesting level once when the weight is nonzero.
pub open spec fn expr_score(e: Expr, lvl: u64) -> nat
    decreases e, 1int,
{
    if expr_weight(e, lvl) == 0 {
        0
    } else {
        (expr_weight(e, lvl) + lvl) as nat
    }
}

/// The sum of the scores of a sequence of expressions, all at one level.
pub open spec fn exprs_score(s: Seq<Expr>, lvl: u64) -> nat
    decreases s, 0int,
{
    if s.len() == 0 {
        0
    } else {
        exprs_score(s.drop_last(), lvl) + expr_score(s.last(), lvl)
    }
}

/// The score of one statement: that of the expression it carries, if any.
pub open spec fn stmt_score(st: Stmt, lvl: u64) -> nat
    decreases st, 0int,
{
    match st {
        Stmt::Expr(e) => expr_score(e, lvl),
        Stmt::Local(init) => match init {
            Some(e) => expr_score(e, lvl),
            None => 0,
        },
        Stmt::Other => 0,
    }
}

/// The sum of the scores of a sequence of statements, all at one level.
pub open spec fn stmts_score(s: Seq<Stmt>, lvl: u64) -> nat
    decreases s, 0int,
{
    if s.len() == 0 {
        0
    } else {
        stmts_score(s.drop_last(), lvl) + stmt_score(s.last(), lvl)
    }
}

/// The score of a block: the sum of its statements' scores at the block's
/// own level.  A block adds no base score and no nesting of its own.
pub open spec fn block_score(b: Block, lvl: u64) -> nat
    decreases b, 1int,
{
    stmts_score(b.stmts@, lvl)
}

/// The score of a whole function: its body, starting at nesting level zero.
pub open spec fn function_score(f: FunctionItem) -> nat {
    block_score(f.body, 0)
}

/// The top-level function declarations of an item sequence, in source
/// order; every other item kind is skipped.
pub open spec fn extracted_functions(items: Seq<Item>) -> Seq<FunctionItem>
    decreases items,
{
    if items.len() == 0 {
        Seq::empty()
    } else {
        extracted_functions(items.drop_last()) + (match items.last() {
            Item::Fn(f) => seq![f],
            Item::Other => Seq::<FunctionItem>::empty(),
        })
    }
}

/// How many top-level function declarations an item sequence holds.
pub open spec fn function_count(items: Seq<Item>) -> nat
    decreases items,
{
    if items.len() == 0 {
        0
    } else {
        function_count(items.drop_last()) + (match items.last() {
            Item::Fn(_) => 1nat,
            Item::Other => 0nat,
        })
    }
}

/// The record the engine produces for one extracted function.
pub open spec fn function_complexity_of(f: FunctionItem) -> FunctionComplexity {
    FunctionComplexity {
        function: f.name,
        cognitive_complexity_value: capped16(function_score(f)),
    }
}

/// The engine's whole output for one file: one record per extracted
/// function, in extraction order.
pub open spec fn complexities_of(items: Seq<Item>) -> Seq<FunctionComplexity> {
    extracted_functions(items).map_values(|f: FunctionItem| function_complexity_of(f))
}

proof fn lemma_extracted_take_step(items: Seq<Item>, i: int)
    requires
        0 <= i < items.len(),
    ensures
        extracted_functions(items.take(i + 1)) == extracted_functions(items.take(i)) + (
        match items[i] {
            Item::Fn(f) => seq![f],
            Item::Other => Seq::<FunctionItem>::empty(),
        }),
{
    assert(items.take(i + 1).drop_last() =~= items.take(i));
    assert(items.take(i + 1).last() == items[i]);
}

proof fn lemma_exprs_score_take_step(s: Seq<Expr>, lvl: u64, i: int)
    requires
        0 <= i < s.len(),
    ensures
        exprs_score(s.take(i + 1), lvl) == exprs_score(s.take(i), lvl) + expr_score(s[i], lvl),
{
    assert(s.take(i + 1).drop_last() =~= s.take(i));
    assert(s.take(i + 1).last() == s[i]);
}

proof fn lemma_stmts_score_take_step(s: Seq<Stmt>, lvl: u64, i: int)
    requires
        0 <= i < s.len(),
    ensures
        stmts_score(s.take(i + 1), lvl) == stmts_score(s.take(i), lvl) + stmt_score(s[i], lvl),
{
    assert(s.take(i + 1).drop_last() =~= s.take(i));
    assert(s.take(i + 1).last() == s[i]);
}

/// The nesting level at which every function body starts.
pub const NESTING_LEVEL_ZERO: u64 = 0;

/// Scores one expression.  The returned value is the mathematical score of
/// the node, saturated at `u64::MAX`.
pub fn cognitive_complexity_expr(expr: &Expr, nesting_level: u64) -> (r: u64)
    ensures
        r == capped(expr_score(*expr, nesting_level)),
    decreases *expr, 1int,
{
    let next: u64 = nesting_level.saturating_add(1);
    let expr_cognitive_index: u64 = match expr {
        Expr::If { cond, then_branch, else_branch } => {
            let cond_score = cognitive_complexity_expr(&**cond, next);
            let then_score = cognitive_complexity_block(then_branch, next);
            let else_score = match else_branch {
                Some(els) => cognitive_complexity_expr(&**els, next),
                None => 0,
            };
            1u64.saturating_add(cond_score).saturating_add(then_score).saturating_add(else_score)
        },
        Expr::Match { arms } => {
            let mut total: u64 = 1;
            let mut i: usize = 0;
            #[verifier::loop_isolation(false)]
            while i < arms.len()
                invariant
                    i <= arms.len(),
                    next == next_level(nesting_level),
                    total == capped(1 + exprs_score(arms@.take(i as int), next)),
                decreases arms.len() - i,
            {
                proof {
                    assert((*expr)->arms == *arms);
                    assert(decreases_to!(*expr => (*expr)->arms@[i as int]));
                }
                let arm_score = cognitive_complexity_expr(&arms[i], next);
                proof {
                    lemma_exprs_score_take_step(arms@, next, i as int);
                }
                total = total.saturating_add(arm_score);
                i = i + 1;
            }
            proof {
                assert(arms@.take(arms@.len() as int) =~= arms@);
            }
            total
        },
        Expr::ForLoop { body } => {
            1u64.saturating_add(cognitive_complexity_block(body, next))
        },
        Expr::WhileLoop { body } => {
            1u64.saturating_add(cognitive_complexity_block(body, next))
        },
        Expr::MethodCall { receiver, args } => {
            let mut total: u64 = 0;
            let mut i: usize = 0;
            #[verifier::loop_isolation(false)]
            while i < args.len()
                invariant
                    i <= args.len(),
                    total == capped(exprs_score(args@.take(i as int), nesting_level)),
                decreases args.len() - i,
            {
                proof {
                    assert((*expr)->args == *args);
                    assert(decreases_to!(*expr => (*expr)->args@[i as int]));
                }
                let arg_score = cognitive_complexity_expr(&args[i], nesting_level);
                proof {
                    lemma_exprs_score_take_step(args@, nesting_level, i as int);
                }
                total = total.saturating_add(arg_score);
                i = i + 1;
            }
            proof {
                assert(args@.take(args@.len() as int) =~= args@);
            }
            total.saturating_add(cognitive_complexity_expr(&**receiver, nesting_level))
        },
        Expr::Closure { inner } => {
            cognitive_complexity_expr(&**inner, next)
        },
        Expr::Block { block } => {
            cognitive_complexity_block(block, nesting_level)
        },
        Expr::LetBinding { expr: scrutinee } => {
            cognitive_complexity_expr(&**scrutinee, nesting_level)
        },
        Expr::Other => 0,
    };
    assert(expr_cognitive_index == capped(expr_weight(*expr, nesting_level)));
    // A node whose aggregate is zero reports zero: it receives no nesting
    // bonus, so an empty subtree never inflates the score.
    if expr_cognitive_index == 0 {
        return 0;
    }
    expr_cognitive_index.saturating_add(nesting_level)
}

/// Scores one statement: the expression it carries, if any.
pub fn cognitive_complexity_stmt(stmt: &Stmt, nesting_level: u64) -> (r: u64)
    ensures
        r == capped(stmt_score(*stmt, nesting_level)),
    decreases *stmt, 0int,
{
    match stmt {
        Stmt::Expr(e) => cognitive_complexity_expr(e, nesting_level),
        Stmt::Local(init) => match init {
            Some(e) => cognitive_complexity_expr(e, nesting_level),
            None => 0,
        },
        Stmt::Other => 0,
    }
}

/// Scores a block: the sum of its statements' scores, at the block's level.
pub fn cognitive_complexity_block(block: &Block, nesting_level: u64) -> (r: u64)
    ensures
        r == capped(block_score(*block, nesting_level)),
    decreases *block, 1int,
{
    let mut total: u64 = 0;
    let mut i: usize = 0;
    while i < block.stmts.len()
        invariant
            i <= block.stmts.len(),
            total == capped(stmts_score(block.stmts@.take(i as int), nesting_level)),
        decreases block.stmts.len() - i,
    {
        let stmt_score_value = cognitive_complexity_stmt(&block.stmts[i], nesting_level);
        proof {
            lemma_stmts_score_take_step(block.stmts@, nesting_level, i as int);
        }
        total = total.saturating_add(stmt_score_value);
        i = i + 1;
    }
    proof {
        assert(block.stmts@.take(block.stmts@.len() as int) =~= block.stmts@);
    }
    total
}

/// Scores a whole function, starting at nesting level zero.  The result is
/// exact whenever the mathematical score fits a `u16`, and `u16::MAX`
/// otherwise.
pub fn cognitive_complexity_func(func: &FunctionItem) -> (r: u16)
    ensures
        r == capped16(function_score(*func)),
{
    let value = cognitive_complexity_block(&func.body, NESTING_LEVEL_ZERO);
    if value > u16::MAX as u64 {
        u16::MAX
    } else {
        value as u16
    }
}

/// The function extractor: scans a parsed file's top-level items and yields
/// the function declarations found, in declaration order.  A file with no
/// functions yields the empty sequence; there are no failure modes.
pub fn extract_functions(syntax_tree: SourceTree) -> (r: Vec<FunctionItem>)
    ensures
        r@ == extracted_functions(syntax_tree.items@),
{
    let mut items = syntax_tree.items;
    let ghost orig: Seq<Item> = items@;
    let ghost mut k: int = 0;
    let mut functions: Vec<FunctionItem> = Vec::new();
    while items.len() > 0
        invariant
            0 <= k <= orig.len(),
            items@ == orig.subrange(k, orig.len() as int),
            functions@ == extracted_functions(orig.take(k)),
        decreases items.len(),
    {
        let item = items.remove(0);
        proof {
            assert(item == orig[k]);
            assert(orig.subrange(k, orig.len() as int).remove(0) =~= orig.subrange(
                k + 1,
                orig.len() as int,
            ));
            lemma_extracted_take_step(orig, k);
        }
        match item {
            Item::Fn(f) => {
                functions.push(f);
                proof {
                    assert(extracted_functions(orig.take(k + 1)) =~= extracted_functions(
                        orig.take(k),
                    ).push(orig[k]->0));
                }
            },
            Item::Other => {},
        }
        proof {
            k = k + 1;
        }
    }
    proof {
        assert(orig.take(orig.len() as int) =~= orig);
    }
    functions
}

/// A function's identifier, as it will appear in the output record.
pub fn get_function_name(item_fn: &FunctionItem) -> (r: String)
    ensures
        r == item_fn.name,
{
    item_fn.name.clone()
}

/// Extracts every top-level function of the file and scores each one
/// independently, pairing its name with its value in extraction order.
pub fn calc_complexities_by_function(syntax_tree: SourceTree) -> (r: Result<
    Vec<FunctionComplexity>,
    ComplexityError,
>)
    ensures
        r matches Ok(v) && v@ == complexities_of(syntax_tree.items@),
{
    let mut functions = extract_functions(syntax_tree);
    let ghost all: Seq<FunctionItem> = functions@;
    let ghost mut k: int = 0;
    let mut functions_complexity: Vec<FunctionComplexity> = Vec::new();
    while functions.len() > 0
        invariant
            0 <= k <= all.len(),
            functions@ == all.subrange(k, all.len() as int),
            functions_complexity@ == all.take(k).map_values(
                |f: FunctionItem| function_complexity_of(f),
            ),
        decreases functions.len(),
    {
        let func = functions.remove(0);
        proof {
            assert(func == all[k]);
            assert(all.subrange(k, all.len() as int).remove(0) =~= all.subrange(
                k + 1,
                all.len() as int,
            ));
        }
        let cognitive_complexity_value = cognitive_complexity_func(&func);
        let name = get_function_name(&func);
        functions_complexity.push(
            FunctionComplexity { function: name, cognitive_complexity_value },
        );
        proof {
            assert(all.take(k + 1).map_values(|f: FunctionItem| function_complexity_of(f))
                =~= all.take(k).map_values(|f: FunctionItem| function_complexity_of(f)).push(
                function_complexity_of(all[k]),
            ));
            k = k + 1;
        }
    }
    proof {
        assert(all.take(all.len() as int) =~= all);
    }
    Ok(functions_complexity)
}

/// The evaluator for Rust source trees.
pub struct RustLangEvaluator;

impl RustLangEvaluator {
    /// Scores every top-level function of an already-parsed Rust file.
    pub fn eval(&self, syntax_tree: SourceTree) -> (r: Result<
        Vec<FunctionComplexity>,
        ComplexityError,
    >)
        ensures
            r matches Ok(v) && v@ == complexities_of(syntax_tree.items@),
    {
        calc_complexities_by_function(syntax_tree)
    }
}

/// The closed set of language evaluators.  Grammars without an implemented
/// evaluator have no variant here: selecting one fails at creation.
pub enum LangEvaluator {
    Rust(RustLangEvaluator),
}

impl LangEvaluator {
    /// Scores a parsed file with whichever evaluator this is.
    pub fn eval(&self, syntax_tree: SourceTree) -> (r: Result<
        Vec<FunctionComplexity>,
        ComplexityError,
    >)
        ensures
            r matches Ok(v) && v@ == complexities_of(syntax_tree.items@),
    {
        match self {
            LangEvaluator::Rust(evaluator) => evaluator.eval(syntax_tree),
        }
    }
}

/// Factory function to create language evaluators.  Only Rust has one;
/// naming any other grammar fails fast with `UnsupportedLanguage`.
pub fn create_lang_evaluator(prog_lang: ProgrammingLang) -> (r: Result<
    LangEvaluator,
    ComplexityError,
>)
    ensures
        prog_lang is Rust <==> (r matches Ok(ev) && ev is Rust),
        !(prog_lang is Rust) <==> (r matches Err(e) && e
            == ComplexityError::UnsupportedLanguage),
{
    match prog_lang {
        ProgrammingLang::Rust => Ok(LangEvaluator::Rust(RustLangEvaluator {})),
        _ => Err(ComplexityError::UnsupportedLanguage),
    }
}

/// Scores one parsed source file: one `(function, value)` record per
/// top-level function declaration, in declaration order.  For a grammar
/// with no evaluator the result is `UnsupportedLanguage`.
pub fn compute_cognitive_index(prog_lang: ProgrammingLang, syntax_tree: SourceTree) -> (r: Result<
    Vec<FunctionComplexity>,
    ComplexityError,
>)
    ensures
        prog_lang is Rust ==> (r matches Ok(v) && v@ == complexities_of(syntax_tree.items@)),
        !(prog_lang is Rust) ==> (r matches Err(e) && e
            == ComplexityError::UnsupportedLanguage),
{
    let lang_evaluator = match create_lang_evaluator(prog_lang) {
        Ok(evaluator) => evaluator,
        Err(e) => {
            return Err(e);
        },
    };
    lang_evaluator.eval(syntax_tree)
}

/// Whether an expression holds no control-flow construct anywhere: no
/// `if`, no `match` and no loop.  Method calls, closures, blocks and `let`
/// conditions may still appear; they carry no base increment.
pub open spec fn expr_control_free(e: Expr) -> bool
    decreases e, 0int,
{
    match e {
        Expr::If { .. } => false,
        Expr::Match { .. } => false,
        Expr::ForLoop { .. } => false,
        Expr::WhileLoop { .. } => false,
        Expr::MethodCall { receiver, args } => expr_control_free(*receiver)
            && exprs_control_free(args@),
        Expr::Closure { inner } => expr_control_free(*inner),
        Expr::Block { block } => block_control_free(block),
        Expr::LetBinding { expr } => expr_control_free(*expr),
        Expr::Other => true,
    }
}

/// Whether every expression of the sequence is control-free.
pub open spec fn exprs_control_free(s: Seq<Expr>) -> bool
    decreases s, 0int,
{
    if s.len() == 0 {
        true
    } else {
        exprs_control_free(s.drop_last()) && expr_control_free(s.last())
    }
}

/// Whether a statement holds no control-flow construct.
pub open spec fn stmt_control_free(st: Stmt) -> bool
    decreases st, 0int,
{
    match st {
        Stmt::Expr(e) => expr_control_free(e),
        Stmt::Local(init) => match init {
            Some(e) => expr_control_free(e),
            None => true,
        },
        Stmt::Other => true,
    }
}

/// Whether every statement of the sequence is control-free.
pub open spec fn stmts_control_free(s: Seq<Stmt>) -> bool
    decreases s, 0int,
{
    if s.len() == 0 {
        true
    } else {
        stmts_control_free(s.drop_last()) && stmt_control_free(s.last())
    }
}

/// Whether a block holds no control-flow construct.
pub open spec fn block_control_free(b: Block) -> bool
    decreases b, 1int,
{
    stmts_control_free(b.stmts@)
}

/// A control-free expression scores zero at every nesting level: with no
/// base increment anywhere in the subtree, there is nothing to report and
/// no nesting bonus is ever added.
pub proof fn lemma_control_free_expr_scores_zero(e: Expr, lvl: u64)
    requires
        expr_control_free(e),
    ensures
        expr_score(e, lvl) == 0,
    decreases e, 1int,
{
    match e {
        Expr::MethodCall { receiver, args } => {
            lemma_control_free_expr_scores_zero(*receiver, lvl);
            lemma_control_free_exprs_score_zero(args@, lvl);
        },
        Expr::Closure { inner } => {
            lemma_control_free_expr_scores_zero(*inner, next_level(lvl));
        },
        Expr::Block { block } => {
            lemma_control_free_block_scores_zero(block, lvl);
        },
        Expr::LetBinding { expr } => {
            lemma_control_free_expr_scores_zero(*expr, lvl);
        },
        _ => {},
    }
}

/// Control-free expressions in sequence sum to zero.
pub proof fn lemma_control_free_exprs_score_zero(s: Seq<Expr>, lvl: u64)
    requires
        exprs_control_free(s),
    ensures
        exprs_score(s, lvl) == 0,
    decreases s, 0int,
{
    if s.len() > 0 {
        lemma_control_free_exprs_score_zero(s.drop_last(), lvl);
        lemma_control_free_expr_scores_zero(s.last(), lvl);
    }
}

/// A control-free statement scores zero.
pub proof fn lemma_control_free_stmt_scores_zero(st: Stmt, lvl: u64)
    requires
        stmt_control_free(st),
    ensures
        stmt_score(st, lvl) == 0,
    decreases st, 0int,
{
    match st {
        Stmt::Expr(e) => lemma_control_free_expr_scores_zero(e, lvl),
        Stmt::Local(init) => match init {
            Some(e) => lemma_control_free_expr_scores_zero(e, lvl),
            None => {},
        },
        Stmt::Other => {},
    }
}

/// Control-free statements in sequence sum to zero.
pub proof fn lemma_control_free_stmts_score_zero(s: Seq<Stmt>, lvl: u64)
    requires
        stmts_control_free(s),
    ensures
        stmts_score(s, lvl) == 0,
    decreases s, 0int,
{
    if s.len() > 0 {
        lemma_control_free_stmts_score_zero(s.drop_last(), lvl);
        lemma_control_free_stmt_scores_zero(s.last(), lvl);
    }
}

/// A control-free block scores zero.
pub proof fn lemma_control_free_block_scores_zero(b: Block, lvl: u64)
    requires
        block_control_free(b),
    ensures
        block_score(b, lvl) == 0,
    decreases b, 1int,
{
    lemma_control_free_stmts_score_zero(b.stmts@, lvl);
}

/// A function with no control-flow construct in its body scores zero.
pub proof fn lemma_control_free_function_scores_zero(f: FunctionItem)
    requires
        block_control_free(f.body),
    ensures
        function_score(f) == 0,
{
    lemma_control_free_block_scores_zero(f.body, 0);
}

/// An `if` whose condition and branches are all control-free scores its
/// base increment of 1 plus the current nesting level, and nothing more.
/// At a function's top level that is 1.
pub proof fn lemma_single_if_score(e: Expr, lvl: u64)
    requires
        ({
            &&& e matches Expr::If { cond, then_branch, else_branch }
            &&& expr_control_free(*cond)
            &&& block_control_free(then_branch)
            &&& (else_branch matches Some(els) ==> expr_control_free(*els))
        }),
    ensures
        expr_score(e, lvl) == 1 + lvl,
{
    let nxt = next_level(lvl);
    if let Expr::If { cond, then_branch, else_branch } = e {
        lemma_control_free_expr_scores_zero(*cond, nxt);
        lemma_control_free_block_scores_zero(then_branch, nxt);
        if let Some(els) = else_branch {
            lemma_control_free_expr_scores_zero(*els, nxt);
        }
    }
}

/// A loop whose body is exactly one `if` with control-free parts scores
/// `1 + ((1 + (lvl + 1)) + lvl)`: loop base 1 at the current level, inner
/// `if` base 1 one level deeper with its nesting bonus, and the loop's own
/// nesting bonus.  At a function's top level that is `1 + (1 + 1) = 3`.
pub proof fn lemma_loop_with_nested_if_score(e: Expr, body: Block, lvl: u64)
    requires
        lvl < u64::MAX,
        e == (Expr::ForLoop { body }) || e == (Expr::WhileLoop { body }),
        ({
            &&& body.stmts@.len() == 1
            &&& body.stmts@[0] matches Stmt::Expr(inner)
            &&& inner matches Expr::If { cond, then_branch, else_branch }
            &&& expr_control_free(*cond)
            &&& block_control_free(then_branch)
            &&& (else_branch matches Some(els) ==> expr_control_free(*els))
        }),
    ensures
        expr_score(e, lvl) == 3 + 2 * lvl,
{
    let inner = body.stmts@[0]->Expr_0;
    let nxt = next_level(lvl);
    lemma_single_if_score(inner, nxt);
    assert(body.stmts@.drop_last() =~= Seq::<Stmt>::empty());
    assert(body.stmts@.last() == body.stmts@[0]);
    assert(block_score(body, nxt) == 2 + lvl);
}

/// Sibling statements score independently and sum: splitting a block's
/// statements anywhere splits its score into the two parts' scores.
pub proof fn lemma_stmts_score_additive(s1: Seq<Stmt>, s2: Seq<Stmt>, lvl: u64)
    ensures
        stmts_score(s1 + s2, lvl) == stmts_score(s1, lvl) + stmts_score(s2, lvl),
    decreases s2.len(),
{
    if s2.len() == 0 {
        assert(s1 + s2 =~= s1);
    } else {
        lemma_stmts_score_additive(s1, s2.drop_last(), lvl);
        assert((s1 + s2).drop_last() =~= s1 + s2.drop_last());
        assert((s1 + s2).last() == s2.last());
    }
}

/// A closure is no decision point: its whole weight is its body's score
/// one nesting level deeper, with no base increment of its own.  Like any
/// node, it still receives the current level once if that weight is
/// nonzero.
pub proof fn lemma_closure_adds_no_base(e: Expr, lvl: u64)
    requires
        e matches Expr::Closure { inner },
    ensures
        expr_weight(e, lvl) == expr_score(*e->inner, next_level(lvl)),
        expr_score(*e->inner, next_level(lvl)) == 0 ==> expr_score(e, lvl) == 0,
        expr_score(*e->inner, next_level(lvl)) != 0 ==> expr_score(e, lvl) == expr_score(
            *e->inner,
            next_level(lvl),
        ) + lvl,
{
}

/// Boolean operator chains are never scored: the model keeps them as
/// `Expr::Other`, which scores zero, so replacing an `if`'s condition by
/// any other zero-scoring condition leaves the score unchanged.
pub proof fn lemma_condition_operators_ignored(e1: Expr, e2: Expr, lvl: u64)
    requires
        ({
            &&& e1 matches Expr::If { cond: c1, then_branch: t1, else_branch: b1 }
            &&& e2 matches Expr::If { cond: c2, then_branch: t2, else_branch: b2 }
            &&& expr_score(*c1, next_level(lvl)) == expr_score(*c2, next_level(lvl))
            &&& t1 == t2
            &&& b1 == b2
        }),
    ensures
        expr_score(e1, lvl) == expr_score(e2, lvl),
{
}

/// The extractor's output length always equals the number of top-level
/// function declarations, whatever each function holds — and so does the
/// engine's whole output, one record per function.
pub proof fn lemma_extractor_length(items: Seq<Item>)
    ensures
        extracted_functions(items).len() == function_count(items),
        complexities_of(items).len() == function_count(items),
    decreases items,
{
    if items.len() > 0 {
        lemma_extractor_length(items.drop_last());
    }
}

/// Scoring is deterministic: every walk of one tree returns
/// `capped16(function_score(f))`, a function of the tree alone, so two
/// results for the same tree are always equal.
pub proof fn lemma_walker_deterministic(f: FunctionItem, r1: u16, r2: u16)
    requires
        r1 == capped16(function_score(f)),
        r2 == capped16(function_score(f)),
    ensures
        r1 == r2,
{
}

/// Reads function complexities out of flake8's cognitive-complexity linter
/// output.  The integration is not implemented yet, so every input yields
/// an empty listing.
pub fn get_function_complexities_from_flake8(_text: String) -> (r: Result<
    Vec<FunctionComplexity>,
    ComplexityError,
>)
    ensures
        r matches Ok(v) && v@ == Seq::<FunctionComplexity>::empty(),
{
    Ok(Vec::new())
}

} // verus!
