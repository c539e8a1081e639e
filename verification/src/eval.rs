//! The value model, the abstract syntax tree, and the tree-walking
//! evaluator.
//!
//! Evaluation is a pure function of the program, the starting
//! environment, the queue of input lines and a step budget: `Stmt::eval`
//! is proved to return exactly what the spec-level semantics
//! (`step_stmt` and friends) say, for every implementation of
//! `FloatOps`. Floating-point values are carried as their 64 bit
//! patterns; the arithmetic on them is the business of the `FloatOps`
//! implementation that the embedding program supplies.

use vstd::prelude::*;
use vstd::string::StringExecFns;

use crate::err::RuntimeError;
use crate::lex::Punctuation;
use crate::lex::is_digit_c;
use crate::lex::digits_val;
use crate::text::chars_of;
use crate::text::string_from_chars;
use crate::text::char_is_whitespace;
use crate::text::is_unicode_ws;
use crate::text::eq4;
use crate::text::eq5;
use crate::text::subvec;

verus! {

broadcast use vstd::std_specs::vec::axiom_vec_index_decreases;

// ---------------------------------------------------------------------
// Values
// ---------------------------------------------------------------------

/// A runtime value: one of the four primitive kinds of the language.
/// A float is carried as the 64 bits of an IEEE double; what those bits
/// mean is the business of the `FloatOps` implementation in use.
#[derive(Debug, Clone)]
pub enum PscObject {
    IntT(i64),
    FloatT(u64),
    StringT(String),
    BoolT(bool),
}

/// The mathematical shape of a value: text as a character sequence.
pub enum PscVal {
    IntT(i64),
    FloatT(u64),
    StringT(Seq<char>),
    BoolT(bool),
}

impl View for PscObject {
    type V = PscVal;

    open spec fn view(&self) -> PscVal {
        match self {
            PscObject::IntT(x) => PscVal::IntT(*x),
            PscObject::FloatT(b) => PscVal::FloatT(*b),
            PscObject::StringT(s) => PscVal::StringT(s@),
            PscObject::BoolT(b) => PscVal::BoolT(*b),
        }
    }
}

impl PscObject {
    /// A copy of this value, equal to it in the model.
    pub fn duplicate(&self) -> (r: PscObject)
        ensures
            r@ == self@,
    {
        match self {
            PscObject::IntT(x) => PscObject::IntT(*x),
            PscObject::FloatT(b) => PscObject::FloatT(*b),
            PscObject::StringT(s) => PscObject::StringT(s.clone()),
            PscObject::BoolT(b) => PscObject::BoolT(*b),
        }
    }
}

// ---------------------------------------------------------------------
// Floating-point operations, supplied from outside
// ---------------------------------------------------------------------

/// The floating-point operations of the language, over 64 bit patterns.
///
/// Nothing in this crate can compute with IEEE doubles, so every float
/// operation of the evaluator goes through a value of this trait. Each
/// executable method promises to agree with its own spec-level
/// counterpart; the implementation supplied by the embedding program
/// (ordinarily plain `f64` arithmetic) is relied upon, unverified, to
/// keep that promise: that each method answers as a function of its
/// arguments alone. All verified results about float-touching programs
/// hold relative to that trust. The spec functions say nothing of the
/// bits; their default bodies exist only so that an implementation
/// written outside the verifier compiles without supplying ghost code.
pub trait FloatOps {
    /// Meaning of `from_int`.
    open spec fn spec_from_int(&self, x: i64) -> u64 {
        arbitrary()
    }

    /// The float with the value of the given integer.
    fn from_int(&self, x: i64) -> (r: u64)
        ensures
            r == self.spec_from_int(x),
    ;

    /// Meaning of `add`.
    open spec fn spec_add(&self, a: u64, b: u64) -> u64 {
        arbitrary()
    }

    /// Float addition.
    fn add(&self, a: u64, b: u64) -> (r: u64)
        ensures
            r == self.spec_add(a, b),
    ;

    /// Meaning of `sub`.
    open spec fn spec_sub(&self, a: u64, b: u64) -> u64 {
        arbitrary()
    }

    /// Float subtraction.
    fn sub(&self, a: u64, b: u64) -> (r: u64)
        ensures
            r == self.spec_sub(a, b),
    ;

    /// Meaning of `mul`.
    open spec fn spec_mul(&self, a: u64, b: u64) -> u64 {
        arbitrary()
    }

    /// Float multiplication.
    fn mul(&self, a: u64, b: u64) -> (r: u64)
        ensures
            r == self.spec_mul(a, b),
    ;

    /// Meaning of `div`.
    open spec fn spec_div(&self, a: u64, b: u64) -> u64 {
        arbitrary()
    }

    /// Float division.
    fn div(&self, a: u64, b: u64) -> (r: u64)
        ensures
            r == self.spec_div(a, b),
    ;

    /// Meaning of `rem`.
    open spec fn spec_rem(&self, a: u64, b: u64) -> u64 {
        arbitrary()
    }

    /// Float remainder.
    fn rem(&self, a: u64, b: u64) -> (r: u64)
        ensures
            r == self.spec_rem(a, b),
    ;

    /// Meaning of `floor`.
    open spec fn spec_floor(&self, a: u64) -> u64 {
        arbitrary()
    }

    /// Largest integral float no greater than the argument.
    fn floor(&self, a: u64) -> (r: u64)
        ensures
            r == self.spec_floor(a),
    ;

    /// Meaning of `is_lt`.
    open spec fn spec_lt(&self, a: u64, b: u64) -> bool {
        arbitrary()
    }

    /// Float strictly-less comparison.
    fn is_lt(&self, a: u64, b: u64) -> (r: bool)
        ensures
            r == self.spec_lt(a, b),
    ;

    /// Meaning of `is_gt`.
    open spec fn spec_gt(&self, a: u64, b: u64) -> bool {
        arbitrary()
    }

    /// Float strictly-greater comparison.
    fn is_gt(&self, a: u64, b: u64) -> (r: bool)
        ensures
            r == self.spec_gt(a, b),
    ;

    /// Meaning of `is_eq`.
    open spec fn spec_eq(&self, a: u64, b: u64) -> bool {
        arbitrary()
    }

    /// Float equality comparison.
    fn is_eq(&self, a: u64, b: u64) -> (r: bool)
        ensures
            r == self.spec_eq(a, b),
    ;

    /// Meaning of `from_literal`.
    open spec fn spec_from_literal(&self, s: Seq<char>) -> u64 {
        arbitrary()
    }

    /// The float written by a source literal (decimal digits with one
    /// point).
    fn from_literal(&self, s: &str) -> (r: u64)
        ensures
            r == self.spec_from_literal(s@),
    ;

    /// Meaning of `parse_float`.
    open spec fn spec_parse_float(&self, s: Seq<char>) -> Option<u64> {
        arbitrary()
    }

    /// The float a free-form text denotes, if any.
    fn parse_float(&self, s: &str) -> (r: Option<u64>)
        ensures
            r == self.spec_parse_float(s@),
    ;

    /// Meaning of `to_text`.
    open spec fn spec_to_text(&self, a: u64) -> Seq<char> {
        arbitrary()
    }

    /// Canonical textual form of a float.
    fn to_text(&self, a: u64) -> (r: String)
        ensures
            r@ == self.spec_to_text(a),
    ;
}

// ---------------------------------------------------------------------
// The abstract syntax tree
// ---------------------------------------------------------------------

/// An expression: a literal, an identifier, or a binary operation.
#[derive(Debug)]
pub enum Expr {
    BinOp(Box<BinOp>),
    IntLit(i64),
    /// The source text of the literal; its value is taken on evaluation.
    FloatLit(String),
    BoolLit(bool),
    StrLit(String),
    Ident(String),
}

/// A binary operation: left and right operand and the operator.
#[derive(Debug)]
pub struct BinOp {
    pub left: Expr,
    pub right: Expr,
    pub op: Punctuation,
}

/// A statement of the language.
#[derive(Debug)]
pub enum Stmt {
    Assign(Assign),
    Input(Input),
    Output(Output),
    If(If),
    While(While),
    Until(Until),
    For(For),
}

/// A conditional: ordered (condition, body) branches; a bare `ELSE` is
/// a branch whose condition is the literal `true`.
#[derive(Debug)]
pub struct If {
    pub branches: Vec<(Expr, Vec<Stmt>)>,
}

/// A pre-test loop: repeats while the condition is the boolean `true`.
#[derive(Debug)]
pub struct While {
    pub cond: Expr,
    pub stmts: Vec<Stmt>,
}

/// A post-test-sense loop: repeats while the condition is the boolean
/// `false`.
#[derive(Debug)]
pub struct Until {
    pub cond: Expr,
    pub stmts: Vec<Stmt>,
}

/// A counting loop over an inclusive integer range.
#[derive(Debug)]
pub struct For {
    pub name: String,
    pub start: Expr,
    pub end: Expr,
    pub stmts: Vec<Stmt>,
}

/// An assignment of an expression's value to an identifier.
#[derive(Debug)]
pub struct Assign {
    pub ident: String,
    pub expr: Expr,
}

/// A statement reading one input line into an identifier.
#[derive(Debug)]
pub struct Input {
    pub ident: String,
}

/// A statement writing an expression's value to the output.
#[derive(Debug)]
pub struct Output {
    pub expr: Expr,
}

/// The mathematical shape of an expression.
pub enum ExprV {
    BinOp(Punctuation, Box<ExprV>, Box<ExprV>),
    IntLit(i64),
    FloatLit(Seq<char>),
    BoolLit(bool),
    StrLit(Seq<char>),
    Ident(Seq<char>),
}

/// The mathematical shape of a statement.
pub enum StmtV {
    Assign(Seq<char>, ExprV),
    Input(Seq<char>),
    Output(ExprV),
    If(Seq<(ExprV, Seq<StmtV>)>),
    While(ExprV, Seq<StmtV>),
    Until(ExprV, Seq<StmtV>),
    For(Seq<char>, ExprV, ExprV, Seq<StmtV>),
}

impl View for Expr {
    type V = ExprV;

    open spec fn view(&self) -> ExprV
        decreases self,
    {
        match self {
            Expr::BinOp(b) => ExprV::BinOp(b.op, Box::new(b.left@), Box::new(b.right@)),
            Expr::IntLit(x) => ExprV::IntLit(*x),
            Expr::FloatLit(s) => ExprV::FloatLit(s@),
            Expr::BoolLit(b) => ExprV::BoolLit(*b),
            Expr::StrLit(s) => ExprV::StrLit(s@),
            Expr::Ident(s) => ExprV::Ident(s@),
        }
    }
}

/// Views of the first `n` statements of a vector.
pub open spec fn stmts_view(v: Vec<Stmt>, n: int) -> Seq<StmtV>
    decreases v, 1int, n,
{
    if n <= 0 || n > v.len() {
        Seq::empty()
    } else {
        stmts_view(v, n - 1).push(v[n - 1]@)
    }
}

/// View of one conditional branch.
pub open spec fn branch_view(p: (Expr, Vec<Stmt>)) -> (ExprV, Seq<StmtV>)
    decreases p,
{
    (p.0@, stmts_view(p.1, p.1.len() as int))
}

/// Views of the first `n` branches of a conditional.
pub open spec fn branches_view(v: Vec<(Expr, Vec<Stmt>)>, n: int) -> Seq<(ExprV, Seq<StmtV>)>
    decreases v, 1int, n,
{
    if n <= 0 || n > v.len() {
        Seq::empty()
    } else {
        branches_view(v, n - 1).push(branch_view(v[n - 1]))
    }
}

impl View for Stmt {
    type V = StmtV;

    open spec fn view(&self) -> StmtV
        decreases self, 2int, 0int,
    {
        match self {
            Stmt::Assign(a) => StmtV::Assign(a.ident@, a.expr@),
            Stmt::Input(i) => StmtV::Input(i.ident@),
            Stmt::Output(o) => StmtV::Output(o.expr@),
            Stmt::If(f) => StmtV::If(branches_view(f.branches, f.branches.len() as int)),
            Stmt::While(w) => StmtV::While(w.cond@, stmts_view(w.stmts, w.stmts.len() as int)),
            Stmt::Until(u) => StmtV::Until(u.cond@, stmts_view(u.stmts, u.stmts.len() as int)),
            Stmt::For(f) => StmtV::For(
                f.name@,
                f.start@,
                f.end@,
                stmts_view(f.stmts, f.stmts.len() as int),
            ),
        }
    }
}

pub proof fn lemma_stmts_view(v: Vec<Stmt>, n: int)
    requires
        0 <= n <= v.len(),
    ensures
        stmts_view(v, n).len() == n,
        forall|j: int| 0 <= j < n ==> stmts_view(v, n)[j] == v[j]@,
    decreases n,
{
    if n > 0 {
        lemma_stmts_view(v, n - 1);
        assert(stmts_view(v, n) == stmts_view(v, n - 1).push(v[n - 1]@));
    } else {
        assert(stmts_view(v, n) == Seq::<StmtV>::empty());
    }
}

pub proof fn lemma_branches_view(v: Vec<(Expr, Vec<Stmt>)>, n: int)
    requires
        0 <= n <= v.len(),
    ensures
        branches_view(v, n).len() == n,
        forall|j: int| 0 <= j < n ==> branches_view(v, n)[j] == branch_view(v[j]),
    decreases n,
{
    if n > 0 {
        lemma_branches_view(v, n - 1);
    }
}

// ---------------------------------------------------------------------
// Environment, input and output
// ---------------------------------------------------------------------

/// The single flat variable environment of a program run: a history of
/// bindings, where the latest binding of a name is the one in force.
pub struct Env {
    pairs: Vec<(String, PscObject)>,
}

impl View for Env {
    type V = Seq<(Seq<char>, PscVal)>;

    closed spec fn view(&self) -> Seq<(Seq<char>, PscVal)> {
        self.pairs@.map_values(|p: (String, PscObject)| (p.0@, p.1@))
    }
}

/// The binding of `name` in force, searching the history from the most
/// recent end.
pub open spec fn env_find(env: Seq<(Seq<char>, PscVal)>, name: Seq<char>) -> Option<PscVal>
    decreases env.len(),
{
    if env.len() == 0 {
        None
    } else if env.last().0 == name {
        Some(env.last().1)
    } else {
        env_find(env.drop_last(), name)
    }
}

impl Env {
    /// The empty environment, as a run begins.
    pub fn new() -> (r: Env)
        ensures
            r@ == Seq::<(Seq<char>, PscVal)>::empty(),
    {
        let r = Env { pairs: Vec::new() };
        proof {
            assert(r@ =~= Seq::<(Seq<char>, PscVal)>::empty());
        }
        r
    }

    /// Binds `name` to `val`, shadowing any earlier binding.
    pub fn insert(&mut self, name: String, val: PscObject)
        ensures
            final(self)@ == old(self)@.push((name@, val@)),
    {
        let ghost before = self@;
        let ghost pair_v = (name@, val@);
        self.pairs.push((name, val));
        proof {
            assert(self@ =~= before.push(pair_v));
        }
    }

    fn get_from(&self, name: &Vec<char>, k: usize) -> (r: Option<PscObject>)
        requires
            k <= self.pairs@.len(),
        ensures
            match r {
                Some(v) => env_find(self@.take(k as int), name@) == Some(v@),
                None => env_find(self@.take(k as int), name@) is None,
            },
        decreases k,
{
        if k == 0 {
            proof {
                assert(self@.take(0).len() == 0);
            }
            None
        } else {
            let ghost pre = self@.take(k as int);
            proof {
                assert(pre.len() == k);
                assert(pre.last() == self@[k - 1]);
                assert(pre.drop_last() =~= self@.take(k - 1));
            }
            let hit = crate::text::chars_eq_string(name, &self.pairs[k - 1].0);
            if hit {
                Some(self.pairs[k - 1].1.duplicate())
            } else {
                self.get_from(name, k - 1)
            }
        }
    }

    /// The value bound to `name`, if any, as a fresh copy.
    pub fn get(&self, name: &str) -> (r: Option<PscObject>)
        ensures
            match r {
                Some(v) => env_find(self@, name@) == Some(v@),
                None => env_find(self@, name@) is None,
            },
    {
        let nv = chars_of(name);
        let n = self.pairs.len();
        proof {
            assert(self@.take(n as int) =~= self@);
        }
        self.get_from(&nv, n)
    }
}

/// The console of a run, modelled as plain data: the input lines still
/// to be read (each with its terminator, as a blocking line read would
/// deliver it) and the output lines written so far (each without its
/// terminator).
pub struct Io {
    pub ins: Vec<String>,
    pub outs: Vec<String>,
}

/// The views of a sequence of lines.
pub open spec fn lines_view(v: Seq<String>) -> Seq<Seq<char>> {
    v.map_values(|s: String| s@)
}

impl Io {
    /// A console with the given pending input lines and no output yet.
    pub fn new(ins: Vec<String>) -> (r: Io)
        ensures
            lines_view(r.ins@) == lines_view(ins@),
            lines_view(r.outs@) == Seq::<Seq<char>>::empty(),
    {
        let r = Io { ins, outs: Vec::new() };
        proof {
            assert(lines_view(r.outs@) =~= Seq::<Seq<char>>::empty());
        }
        r
    }
}

/// The whole mutable state of a run: environment, pending input,
/// written output.
#[verifier::ext_equal]
pub struct MState {
    pub env: Seq<(Seq<char>, PscVal)>,
    pub ins: Seq<Seq<char>>,
    pub outs: Seq<Seq<char>>,
}

/// Outcome of executing statements: ran to completion, stopped at the
/// first runtime error, or ran out of the step budget. Each carries the
/// state as it stood at that moment; output already written stays
/// written.
pub enum EvalOut {
    Done(MState),
    Failed(MState, Seq<char>),
    Spent(MState),
}

/// The model state a given environment and console stand for.
pub open spec fn state_of(env: Env, io: Io) -> MState {
    MState { env: env@, ins: lines_view(io.ins@), outs: lines_view(io.outs@) }
}

// ---------------------------------------------------------------------
// Integer arithmetic helpers
// ---------------------------------------------------------------------

/// 64-bit two's-complement wrap-around of an unbounded integer.
pub open spec fn wrap64(x: int) -> i64 {
    if x % 0x1_0000_0000_0000_0000 > i64::MAX {
        (x % 0x1_0000_0000_0000_0000 - 0x1_0000_0000_0000_0000) as i64
    } else {
        (x % 0x1_0000_0000_0000_0000) as i64
    }
}

/// Magnitude of an integer.
pub open spec fn abs_int(x: int) -> int {
    if x < 0 {
        -x
    } else {
        x
    }
}

/// Remainder with the sign of the dividend, as machine `%` computes it.
pub open spec fn trunc_rem64(a: i64, b: i64) -> int {
    if a >= 0 {
        (a as int) % abs_int(b as int)
    } else {
        -((-(a as int)) % abs_int(b as int))
    }
}

fn abs_u64(a: i64) -> (r: u64)
    ensures
        r == abs_int(a as int),
{
    if a >= 0 {
        a as u64
    } else {
        ((-(a + 1)) as u64) + 1
    }
}

fn wrapping_add64(a: i64, b: i64) -> (r: i64)
    ensures
        r == wrap64(a as int + b as int),
{
    a.wrapping_add(b)
}

fn wrapping_sub64(a: i64, b: i64) -> (r: i64)
    ensures
        r == wrap64(a as int - b as int),
{
    a.wrapping_sub(b)
}

fn wrapping_mul64(a: i64, b: i64) -> (r: i64)
    ensures
        r == wrap64(a as int * b as int),
{
    a.wrapping_mul(b)
}

fn trunc_rem_exec(a: i64, b: i64) -> (r: i64)
    requires
        b != 0,
    ensures
        r == trunc_rem64(a, b),
{
    let ua = abs_u64(a);
    let ub = abs_u64(b);
    let rr = ua % ub;
    if a >= 0 {
        rr as i64
    } else {
        -(rr as i64)
    }
}

// ---------------------------------------------------------------------
// Text helpers: trimming, integer parsing, decimal formatting
// ---------------------------------------------------------------------

/// First index at or after `i` whose character is not whitespace.
pub open spec fn ws_start(s: Seq<char>, i: int) -> int
    decreases s.len() - i,
{
    if 0 <= i < s.len() && is_unicode_ws(s[i]) {
        ws_start(s, i + 1)
    } else {
        i
    }
}

/// Last bound at or before `j` with no trailing whitespace before it.
pub open spec fn ws_end(s: Seq<char>, j: int) -> int
    decreases j,
{
    if 0 < j <= s.len() && is_unicode_ws(s[j - 1]) {
        ws_end(s, j - 1)
    } else {
        j
    }
}

/// The text with leading and trailing whitespace removed, as `trim`
/// computes it.
pub open spec fn trim_spec(s: Seq<char>) -> Seq<char> {
    let lo = ws_start(s, 0);
    let hi = ws_end(s, s.len() as int);
    if lo <= hi {
        s.subrange(lo, hi)
    } else {
        Seq::empty()
    }
}

proof fn lemma_ws_start(s: Seq<char>, i: int)
    requires
        0 <= i <= s.len(),
    ensures
        i <= ws_start(s, i) <= s.len(),
    decreases s.len() - i,
{
    if i < s.len() && is_unicode_ws(s[i]) {
        lemma_ws_start(s, i + 1);
    }
}

proof fn lemma_ws_end(s: Seq<char>, j: int)
    requires
        0 <= j <= s.len(),
    ensures
        0 <= ws_end(s, j) <= j,
    decreases j,
{
    if 0 < j && is_unicode_ws(s[j - 1]) {
        lemma_ws_end(s, j - 1);
    }
}

fn ws_start_exec(v: &Vec<char>, i: usize) -> (r: usize)
    requires
        i <= v.len(),
    ensures
        r == ws_start(v@, i as int),
        i <= r <= v.len(),
    decreases v.len() - i,
{
    if i < v.len() && char_is_whitespace(v[i]) {
        ws_start_exec(v, i + 1)
    } else {
        i
    }
}

fn ws_end_exec(v: &Vec<char>, j: usize) -> (r: usize)
    requires
        j <= v.len(),
    ensures
        r == ws_end(v@, j as int),
        r <= j,
    decreases j,
{
    if 0 < j && char_is_whitespace(v[j - 1]) {
        ws_end_exec(v, j - 1)
    } else {
        j
    }
}

/// The trimmed characters of `v`.
fn trim_chars(v: &Vec<char>) -> (r: Vec<char>)
    ensures
        r@ == trim_spec(v@),
{
    let lo = ws_start_exec(v, 0);
    let hi = ws_end_exec(v, v.len());
    if lo <= hi {
        subvec(v, lo, hi)
    } else {
        let r: Vec<char> = Vec::new();
        proof {
            assert(r@ =~= Seq::<char>::empty());
        }
        r
    }
}

/// The 64-bit signed integer a text denotes for `parse`: an optional
/// sign, then one or more decimal digits, nothing else, in range.
pub open spec fn parse_int_spec(t: Seq<char>) -> Option<i64> {
    let neg = t.len() > 0 && t[0] == '-';
    let signed = t.len() > 0 && (t[0] == '-' || t[0] == '+');
    let ds = if signed {
        t.drop_first()
    } else {
        t
    };
    if ds.len() == 0 || !all_digits_s(ds) {
        None
    } else {
        let v = digits_val(ds);
        if neg {
            if v <= 0x8000_0000_0000_0000 {
                Some((-v) as i64)
            } else {
                None
            }
        } else {
            if v <= i64::MAX {
                Some(v as i64)
            } else {
                None
            }
        }
    }
}

/// Whether every character of a text is a decimal digit.
pub open spec fn all_digits_s(s: Seq<char>) -> bool {
    forall|k: int| 0 <= k < s.len() ==> is_digit_c(s[k])
}

fn all_digits(v: &Vec<char>, start: usize) -> (r: bool)
    requires
        start <= v.len(),
    ensures
        r == all_digits_s(v@.subrange(start as int, v@.len() as int)),
{
    let ghost sub = v@.subrange(start as int, v@.len() as int);
    let mut k: usize = start;
    while k < v.len()
        invariant
            start <= k <= v.len(),
            sub == v@.subrange(start as int, v@.len() as int),
            forall|t: int| start <= t < k ==> is_digit_c(v@[t]),
        decreases v.len() - k,
    {
        let c = v[k];
        if !(48 <= c as u32 && c as u32 <= 57) {
            proof {
                assert(sub[k - start] == v@[k as int]);
                assert(!all_digits_s(sub));
            }
            return false;
        }
        k += 1;
    }
    proof {
        assert forall|t: int| 0 <= t < sub.len() implies is_digit_c(sub[t]) by {
            assert(sub[t] == v@[start + t]);
        }
    }
    true
}

/// Parses a trimmed text as a 64-bit signed integer, exactly as
/// `parse_int_spec` says.
fn parse_i64_chars(v: &Vec<char>) -> (r: Option<i64>)
    ensures
        r == parse_int_spec(v@),
{
    let signed = v.len() > 0 && (v[0] == '-' || v[0] == '+');
    let neg = v.len() > 0 && v[0] == '-';
    let start: usize = if signed {
        1
    } else {
        0
    };
    let ghost ds = if signed {
        v@.drop_first()
    } else {
        v@
    };
    proof {
        assert(ds =~= v@.subrange(start as int, v@.len() as int));
    }
    if start >= v.len() {
        return None;
    }
    if !all_digits(v, start) {
        return None;
    }
    proof {
        assert forall|k: int| start <= k < v@.len() implies is_digit_c(v@[k]) by {
            assert(v@.subrange(start as int, v@.len() as int)[k - start] == v@[k]);
        }
    }
    match crate::lex::digits_value(v, start, v.len()) {
        None => None,
        Some(x) => {
            if neg {
                if x <= 0x8000_0000_0000_0000u64 {
                    if x == 0x8000_0000_0000_0000u64 {
                        Some(i64::MIN)
                    } else {
                        Some(-(x as i64))
                    }
                } else {
                    None
                }
            } else {
                if x <= 0x7fff_ffff_ffff_ffffu64 {
                    Some(x as i64)
                } else {
                    None
                }
            }
        },
    }
}

/// The decimal digits of a non-negative integer, most significant
/// first.
pub open spec fn dec_digits(n: int) -> Seq<char>
    decreases n,
{
    if n < 10 {
        seq![((48 + n) as u8) as char]
    } else {
        dec_digits(n / 10).push(((48 + n % 10) as u8) as char)
    }
}

/// The canonical decimal text of a signed integer.
pub open spec fn int_dec(x: int) -> Seq<char> {
    if x < 0 {
        seq!['-'] + dec_digits(-x)
    } else {
        dec_digits(x)
    }
}

fn dec_digits_exec(n: u64) -> (r: Vec<char>)
    ensures
        r@ == dec_digits(n as int),
    decreases n,
{
    if n < 10 {
        let mut r: Vec<char> = Vec::new();
        r.push(((48 + n) as u8) as char);
        proof {
            assert(r@ =~= dec_digits(n as int));
        }
        r
    } else {
        let mut r = dec_digits_exec(n / 10);
        r.push(((48 + (n % 10)) as u8) as char);
        r
    }
}

/// The canonical decimal text of a 64-bit signed integer.
fn fmt_i64(x: i64) -> (r: String)
    ensures
        r@ == int_dec(x as int),
{
    if x >= 0 {
        string_from_chars(&dec_digits_exec(x as u64))
    } else {
        let m = abs_u64(x);
        let mut v = dec_digits_exec(m);
        let ghost before = v@;
        v.insert(0, '-');
        proof {
            assert(v@ =~= seq!['-'] + before);
        }
        string_from_chars(&v)
    }
}

// ---------------------------------------------------------------------
// Input classification and output formatting
// ---------------------------------------------------------------------

/// The value one input line binds: its trimmed text read as a boolean,
/// else an integer, else a float, else the raw untrimmed line as text.
pub open spec fn classify_input_spec<H: FloatOps>(h: H, line: Seq<char>) -> PscVal {
    let t = trim_spec(line);
    if t == seq!['t', 'r', 'u', 'e'] {
        PscVal::BoolT(true)
    } else if t == seq!['f', 'a', 'l', 's', 'e'] {
        PscVal::BoolT(false)
    } else {
        match parse_int_spec(t) {
            Some(x) => PscVal::IntT(x),
            None => match h.spec_parse_float(t) {
                Some(b) => PscVal::FloatT(b),
                None => PscVal::StringT(line),
            },
        }
    }
}

fn classify_input<H: FloatOps>(h: &H, line: &String) -> (r: PscObject)
    ensures
        r@ == classify_input_spec(*h, line@),
{
    let cs = chars_of(line.as_str());
    let t = trim_chars(&cs);
    if eq4(&t, 't', 'r', 'u', 'e') {
        PscObject::BoolT(true)
    } else if eq5(&t, 'f', 'a', 'l', 's', 'e') {
        PscObject::BoolT(false)
    } else {
        match parse_i64_chars(&t) {
            Some(x) => PscObject::IntT(x),
            None => {
                let ts = string_from_chars(&t);
                match h.parse_float(ts.as_str()) {
                    Some(b) => PscObject::FloatT(b),
                    None => PscObject::StringT(line.clone()),
                }
            },
        }
    }
}

/// The canonical textual form of a value: decimal for integers, the
/// host's rendering for floats, the raw characters for text,
/// `true`/`false` for booleans.
pub open spec fn fmt_val_spec<H: FloatOps>(h: H, v: PscVal) -> Seq<char> {
    match v {
        PscVal::IntT(x) => int_dec(x as int),
        PscVal::FloatT(b) => h.spec_to_text(b),
        PscVal::StringT(s) => s,
        PscVal::BoolT(b) => if b {
            seq!['t', 'r', 'u', 'e']
        } else {
            seq!['f', 'a', 'l', 's', 'e']
        },
    }
}

fn format_val<H: FloatOps>(h: &H, v: &PscObject) -> (r: String)
    ensures
        r@ == fmt_val_spec(*h, v@),
{
    match v {
        PscObject::IntT(x) => fmt_i64(*x),
        PscObject::FloatT(b) => h.to_text(*b),
        PscObject::StringT(s) => s.clone(),
        PscObject::BoolT(b) => {
            if *b {
                let r = String::from_str("true");
                proof {
                    reveal_strlit("true");
                    assert(r@ =~= seq!['t', 'r', 'u', 'e']);
                }
                r
            } else {
                let r = String::from_str("false");
                proof {
                    reveal_strlit("false");
                    assert(r@ =~= seq!['f', 'a', 'l', 's', 'e']);
                }
                r
            }
        },
    }
}

// ---------------------------------------------------------------------
// Binary operators
// ---------------------------------------------------------------------

/// The float a numeric value stands for: its own bits, or the integer
/// widened by the host.
pub open spec fn float_of<H: FloatOps>(h: H, v: PscVal) -> u64 {
    match v {
        PscVal::IntT(x) => h.spec_from_int(x),
        PscVal::FloatT(b) => b,
        _ => 0,
    }
}

/// Whether a value is numeric (integer or float).
pub open spec fn is_numeric(v: PscVal) -> bool {
    match v {
        PscVal::IntT(_) => true,
        PscVal::FloatT(_) => true,
        _ => false,
    }
}

/// Outcome of one relational operator from the three comparison flags
/// (greater, equal, less).
pub open spec fn rel_result(op: Punctuation, g: bool, e: bool, l: bool) -> Result<
    PscVal,
    Seq<char>,
> {
    match op {
        Punctuation::GE => Ok(PscVal::BoolT(g || e)),
        Punctuation::LE => Ok(PscVal::BoolT(l || e)),
        Punctuation::GT => Ok(PscVal::BoolT(g)),
        Punctuation::LT => Ok(PscVal::BoolT(l)),
        _ => Err("Mismatched types"@),
    }
}

/// One relational operator over two values: defined for numeric
/// operand pairs (an integer beside a float is widened), an error for
/// every other pair.
pub open spec fn rel_binop_spec<H: FloatOps>(h: H, op: Punctuation, l: PscVal, r: PscVal) -> Result<
    PscVal,
    Seq<char>,
> {
    match (l, r) {
        (PscVal::IntT(a), PscVal::IntT(b)) => rel_result(op, a > b, a == b, a < b),
        (PscVal::FloatT(a), PscVal::FloatT(b)) => rel_result(
            op,
            h.spec_gt(a, b),
            h.spec_eq(a, b),
            h.spec_lt(a, b),
        ),
        (PscVal::IntT(a), PscVal::FloatT(b)) => rel_result(
            op,
            h.spec_gt(h.spec_from_int(a), b),
            h.spec_eq(h.spec_from_int(a), b),
            h.spec_lt(h.spec_from_int(a), b),
        ),
        (PscVal::FloatT(a), PscVal::IntT(b)) => rel_result(
            op,
            h.spec_gt(a, h.spec_from_int(b)),
            h.spec_eq(a, h.spec_from_int(b)),
            h.spec_lt(a, h.spec_from_int(b)),
        ),
        _ => Err("Mismatched types"@),
    }
}

/// One binary operator applied to two already-evaluated values: the
/// full dispatch table of the language.
///
/// Integer `+ - *` wrap at 64 bits; `+` on two texts concatenates;
/// `/` and `div` always answer in floats; `mod` of two integers is the
/// machine remainder (a zero divisor is an error), and any float `mod`
/// is the floored float remainder; `==` compares equal kinds and mixed
/// integer/float; everything else is a "Mismatched types" error.
pub open spec fn eval_binop_spec<H: FloatOps>(h: H, op: Punctuation, l: PscVal, r: PscVal) -> Result<
    PscVal,
    Seq<char>,
> {
    match op {
        Punctuation::Plus => match (l, r) {
            (PscVal::IntT(a), PscVal::IntT(b)) => Ok(PscVal::IntT(wrap64(a + b))),
            (PscVal::FloatT(a), PscVal::FloatT(b)) => Ok(PscVal::FloatT(h.spec_add(a, b))),
            (PscVal::IntT(a), PscVal::FloatT(b)) => Ok(
                PscVal::FloatT(h.spec_add(h.spec_from_int(a), b)),
            ),
            (PscVal::FloatT(a), PscVal::IntT(b)) => Ok(
                PscVal::FloatT(h.spec_add(a, h.spec_from_int(b))),
            ),
            (PscVal::StringT(a), PscVal::StringT(b)) => Ok(PscVal::StringT(a + b)),
            _ => Err("Mismatched types"@),
        },
        Punctuation::Minus => match (l, r) {
            (PscVal::IntT(a), PscVal::IntT(b)) => Ok(PscVal::IntT(wrap64(a - b))),
            (PscVal::FloatT(a), PscVal::FloatT(b)) => Ok(PscVal::FloatT(h.spec_sub(a, b))),
            (PscVal::IntT(a), PscVal::FloatT(b)) => Ok(
                PscVal::FloatT(h.spec_sub(h.spec_from_int(a), b)),
            ),
            (PscVal::FloatT(a), PscVal::IntT(b)) => Ok(
                PscVal::FloatT(h.spec_sub(a, h.spec_from_int(b))),
            ),
            _ => Err("Mismatched types"@),
        },
        Punctuation::Mul => match (l, r) {
            (PscVal::IntT(a), PscVal::IntT(b)) => Ok(PscVal::IntT(wrap64(a * b))),
            (PscVal::FloatT(a), PscVal::FloatT(b)) => Ok(PscVal::FloatT(h.spec_mul(a, b))),
            (PscVal::IntT(a), PscVal::FloatT(b)) => Ok(
                PscVal::FloatT(h.spec_mul(h.spec_from_int(a), b)),
            ),
            (PscVal::FloatT(a), PscVal::IntT(b)) => Ok(
                PscVal::FloatT(h.spec_mul(a, h.spec_from_int(b))),
            ),
            _ => Err("Mismatched types"@),
        },
        Punctuation::Div => if is_numeric(l) && is_numeric(r) {
            Ok(PscVal::FloatT(h.spec_div(float_of(h, l), float_of(h, r))))
        } else {
            Err("Mismatched types"@)
        },
        Punctuation::FloorDiv => if is_numeric(l) && is_numeric(r) {
            Ok(PscVal::FloatT(h.spec_floor(h.spec_div(float_of(h, l), float_of(h, r)))))
        } else {
            Err("Mismatched types"@)
        },
        Punctuation::Mod => match (l, r) {
            (PscVal::IntT(a), PscVal::IntT(b)) => if b == 0 {
                Err("Division by zero"@)
            } else {
                Ok(PscVal::IntT(trunc_rem64(a, b) as i64))
            },
            _ => if is_numeric(l) && is_numeric(r) {
                Ok(PscVal::FloatT(h.spec_floor(h.spec_rem(float_of(h, l), float_of(h, r)))))
            } else {
                Err("Mismatched types"@)
            },
        },
        Punctuation::GT => rel_binop_spec(h, op, l, r),
        Punctuation::LT => rel_binop_spec(h, op, l, r),
        Punctuation::GE => rel_binop_spec(h, op, l, r),
        Punctuation::LE => rel_binop_spec(h, op, l, r),
        Punctuation::Equals => match (l, r) {
            (PscVal::IntT(a), PscVal::IntT(b)) => Ok(PscVal::BoolT(a == b)),
            (PscVal::FloatT(a), PscVal::FloatT(b)) => Ok(PscVal::BoolT(h.spec_eq(a, b))),
            (PscVal::StringT(a), PscVal::StringT(b)) => Ok(PscVal::BoolT(a == b)),
            (PscVal::BoolT(a), PscVal::BoolT(b)) => Ok(PscVal::BoolT(a == b)),
            (PscVal::IntT(a), PscVal::FloatT(b)) => Ok(
                PscVal::BoolT(h.spec_eq(h.spec_from_int(a), b)),
            ),
            (PscVal::FloatT(a), PscVal::IntT(b)) => Ok(
                PscVal::BoolT(h.spec_eq(a, h.spec_from_int(b))),
            ),
            _ => Err("Mismatched types"@),
        },
        Punctuation::Assign => Err("Invalid operator"@),
    }
}

fn mismatched() -> (r: RuntimeError)
    ensures
        r.msg@ == "Mismatched types"@,
{
    RuntimeError::new(String::from_str("Mismatched types"))
}

fn rel_binop_exec(op: Punctuation, g: bool, e: bool, l: bool) -> (r: Result<
    PscObject,
    RuntimeError,
>)
    requires
        op == Punctuation::GE || op == Punctuation::LE || op == Punctuation::GT || op
            == Punctuation::LT,
    ensures
        (r matches Ok(v) && rel_result(op, g, e, l) == Ok::<PscVal, Seq<char>>(v@)),
{
    match op {
        Punctuation::GE => Ok(PscObject::BoolT(g || e)),
        Punctuation::LE => Ok(PscObject::BoolT(l || e)),
        Punctuation::GT => Ok(PscObject::BoolT(g)),
        _ => Ok(PscObject::BoolT(l)),
    }
}

/// Applies one binary operator to two evaluated values, exactly as
/// `eval_binop_spec` says.
fn eval_binop<H: FloatOps>(h: &H, op: Punctuation, l: PscObject, r: PscObject) -> (res: Result<
    PscObject,
    RuntimeError,
>)
    ensures
        match eval_binop_spec(*h, op, l@, r@) {
            Ok(v) => res matches Ok(o) && o@ == v,
            Err(m) => res matches Err(e) && e.msg@ == m,
        },
{
    match op {
        Punctuation::Plus => match (l, r) {
            (PscObject::IntT(a), PscObject::IntT(b)) => Ok(PscObject::IntT(wrapping_add64(a, b))),
            (PscObject::FloatT(a), PscObject::FloatT(b)) => Ok(PscObject::FloatT(h.add(a, b))),
            (PscObject::IntT(a), PscObject::FloatT(b)) => Ok(
                PscObject::FloatT(h.add(h.from_int(a), b)),
            ),
            (PscObject::FloatT(a), PscObject::IntT(b)) => Ok(
                PscObject::FloatT(h.add(a, h.from_int(b))),
            ),
            (PscObject::StringT(a), PscObject::StringT(b)) => Ok(
                PscObject::StringT(a.concat(b.as_str())),
            ),
            _ => Err(mismatched()),
        },
        Punctuation::Minus => match (l, r) {
            (PscObject::IntT(a), PscObject::IntT(b)) => Ok(PscObject::IntT(wrapping_sub64(a, b))),
            (PscObject::FloatT(a), PscObject::FloatT(b)) => Ok(PscObject::FloatT(h.sub(a, b))),
            (PscObject::IntT(a), PscObject::FloatT(b)) => Ok(
                PscObject::FloatT(h.sub(h.from_int(a), b)),
            ),
            (PscObject::FloatT(a), PscObject::IntT(b)) => Ok(
                PscObject::FloatT(h.sub(a, h.from_int(b))),
            ),
            _ => Err(mismatched()),
        },
        Punctuation::Mul => match (l, r) {
            (PscObject::IntT(a), PscObject::IntT(b)) => Ok(PscObject::IntT(wrapping_mul64(a, b))),
            (PscObject::FloatT(a), PscObject::FloatT(b)) => Ok(PscObject::FloatT(h.mul(a, b))),
            (PscObject::IntT(a), PscObject::FloatT(b)) => Ok(
                PscObject::FloatT(h.mul(h.from_int(a), b)),
            ),
            (PscObject::FloatT(a), PscObject::IntT(b)) => Ok(
                PscObject::FloatT(h.mul(a, h.from_int(b))),
            ),
            _ => Err(mismatched()),
        },
        Punctuation::Div => match (l, r) {
            (PscObject::IntT(a), PscObject::IntT(b)) => Ok(
                PscObject::FloatT(h.div(h.from_int(a), h.from_int(b))),
            ),
            (PscObject::FloatT(a), PscObject::FloatT(b)) => Ok(PscObject::FloatT(h.div(a, b))),
            (PscObject::IntT(a), PscObject::FloatT(b)) => Ok(
                PscObject::FloatT(h.div(h.from_int(a), b)),
            ),
            (PscObject::FloatT(a), PscObject::IntT(b)) => Ok(
                PscObject::FloatT(h.div(a, h.from_int(b))),
            ),
            _ => Err(mismatched()),
        },
        Punctuation::FloorDiv => match (l, r) {
            (PscObject::IntT(a), PscObject::IntT(b)) => Ok(
                PscObject::FloatT(h.floor(h.div(h.from_int(a), h.from_int(b)))),
            ),
            (PscObject::FloatT(a), PscObject::FloatT(b)) => Ok(
                PscObject::FloatT(h.floor(h.div(a, b))),
            ),
            (PscObject::IntT(a), PscObject::FloatT(b)) => Ok(
                PscObject::FloatT(h.floor(h.div(h.from_int(a), b))),
            ),
            (PscObject::FloatT(a), PscObject::IntT(b)) => Ok(
                PscObject::FloatT(h.floor(h.div(a, h.from_int(b)))),
            ),
            _ => Err(mismatched()),
        },
        Punctuation::Mod => match (l, r) {
            (PscObject::IntT(a), PscObject::IntT(b)) => {
                if b == 0 {
                    Err(RuntimeError::new(String::from_str("Division by zero")))
                } else {
                    Ok(PscObject::IntT(trunc_rem_exec(a, b)))
                }
            },
            (PscObject::FloatT(a), PscObject::FloatT(b)) => Ok(
                PscObject::FloatT(h.floor(h.rem(a, b))),
            ),
            (PscObject::IntT(a), PscObject::FloatT(b)) => Ok(
                PscObject::FloatT(h.floor(h.rem(h.from_int(a), b))),
            ),
            (PscObject::FloatT(a), PscObject::IntT(b)) => Ok(
                PscObject::FloatT(h.floor(h.rem(a, h.from_int(b)))),
            ),
            _ => Err(mismatched()),
        },
        Punctuation::GE | Punctuation::LE | Punctuation::GT | Punctuation::LT => match (l, r) {
            (PscObject::IntT(a), PscObject::IntT(b)) => rel_binop_exec(op, a > b, a == b, a < b),
            (PscObject::FloatT(a), PscObject::FloatT(b)) => rel_binop_exec(
                op,
                h.is_gt(a, b),
                h.is_eq(a, b),
                h.is_lt(a, b),
            ),
            (PscObject::IntT(a), PscObject::FloatT(b)) => {
                let fa = h.from_int(a);
                rel_binop_exec(op, h.is_gt(fa, b), h.is_eq(fa, b), h.is_lt(fa, b))
            },
            (PscObject::FloatT(a), PscObject::IntT(b)) => {
                let fb = h.from_int(b);
                rel_binop_exec(op, h.is_gt(a, fb), h.is_eq(a, fb), h.is_lt(a, fb))
            },
            _ => Err(mismatched()),
        },
        Punctuation::Equals => match (l, r) {
            (PscObject::IntT(a), PscObject::IntT(b)) => Ok(PscObject::BoolT(a == b)),
            (PscObject::FloatT(a), PscObject::FloatT(b)) => Ok(PscObject::BoolT(h.is_eq(a, b))),
            (PscObject::StringT(a), PscObject::StringT(b)) => Ok(PscObject::BoolT(a == b)),
            (PscObject::BoolT(a), PscObject::BoolT(b)) => Ok(PscObject::BoolT(a == b)),
            (PscObject::IntT(a), PscObject::FloatT(b)) => Ok(
                PscObject::BoolT(h.is_eq(h.from_int(a), b)),
            ),
            (PscObject::FloatT(a), PscObject::IntT(b)) => Ok(
                PscObject::BoolT(h.is_eq(a, h.from_int(b))),
            ),
            _ => Err(mismatched()),
        },
        Punctuation::Assign => Err(RuntimeError::new(String::from_str("Invalid operator"))),
    }
}

// ---------------------------------------------------------------------
// Expression evaluation
// ---------------------------------------------------------------------

/// The value of an expression in an environment, or the first runtime
/// error. Expressions have no side effects.
pub open spec fn eval_expr_spec<H: FloatOps>(
    h: H,
    env: Seq<(Seq<char>, PscVal)>,
    e: ExprV,
) -> Result<PscVal, Seq<char>>
    decreases e,
{
    match e {
        ExprV::IntLit(x) => Ok(PscVal::IntT(x)),
        ExprV::FloatLit(s) => Ok(PscVal::FloatT(h.spec_from_literal(s))),
        ExprV::BoolLit(b) => Ok(PscVal::BoolT(b)),
        ExprV::StrLit(s) => Ok(PscVal::StringT(s)),
        ExprV::Ident(n) => match env_find(env, n) {
            Some(v) => Ok(v),
            None => Err("Unknown identifier: "@ + n),
        },
        ExprV::BinOp(op, bl, br) => match eval_expr_spec(h, env, *bl) {
            Err(m) => Err(m),
            Ok(lv) => match eval_expr_spec(h, env, *br) {
                Err(m) => Err(m),
                Ok(rv) => eval_binop_spec(h, op, lv, rv),
            },
        },
    }
}

impl Expr {
    /// Evaluates an expression against the environment, exactly as
    /// `eval_expr_spec` says; the environment is only read.
    pub fn eval<H: FloatOps>(expr: &Expr, h: &H, vars: &Env) -> (r: Result<
        PscObject,
        RuntimeError,
    >)
        ensures
            match eval_expr_spec(*h, vars@, expr@) {
                Ok(v) => r matches Ok(o) && o@ == v,
                Err(m) => r matches Err(e) && e.msg@ == m,
            },
        decreases expr,
    {
        match expr {
            Expr::IntLit(x) => Ok(PscObject::IntT(*x)),
            Expr::FloatLit(s) => Ok(PscObject::FloatT(h.from_literal(s.as_str()))),
            Expr::BoolLit(b) => Ok(PscObject::BoolT(*b)),
            Expr::StrLit(s) => Ok(PscObject::StringT(s.clone())),
            Expr::Ident(x) => {
                match vars.get(x.as_str()) {
                    Some(v) => Ok(v),
                    None => Err(
                        RuntimeError::new(
                            String::from_str("Unknown identifier: ").concat(x.as_str()),
                        ),
                    ),
                }
            },
            Expr::BinOp(b) => {
                match Expr::eval(&b.left, h, vars) {
                    Err(e) => Err(e),
                    Ok(lv) => match Expr::eval(&b.right, h, vars) {
                        Err(e) => Err(e),
                        Ok(rv) => eval_binop(h, b.op, lv, rv),
                    },
                }
            },
        }
    }
}

// ---------------------------------------------------------------------
// Statement semantics
// ---------------------------------------------------------------------

/// Executes one statement against a state, with a step budget: the
/// meaning of `Stmt::eval`. Each statement entered costs one unit of
/// budget, and nested bodies run on a budget one smaller.
pub open spec fn step_stmt<H: FloatOps>(h: H, s: StmtV, st: MState, fuel: nat) -> EvalOut
    decreases fuel, 2int, 0int,
{
    if fuel == 0 {
        EvalOut::Spent(st)
    } else {
        match s {
            StmtV::Assign(n, e) => match eval_expr_spec(h, st.env, e) {
                Err(m) => EvalOut::Failed(st, m),
                Ok(v) => EvalOut::Done(MState { env: st.env.push((n, v)), ..st }),
            },
            StmtV::Input(n) => if st.ins.len() == 0 {
                EvalOut::Failed(st, "End of input"@)
            } else {
                EvalOut::Done(
                    MState {
                        env: st.env.push((n, classify_input_spec(h, st.ins[0]))),
                        ins: st.ins.drop_first(),
                        ..st
                    },
                )
            },
            StmtV::Output(e) => match eval_expr_spec(h, st.env, e) {
                Err(m) => EvalOut::Failed(st, m),
                Ok(v) => EvalOut::Done(MState { outs: st.outs.push(fmt_val_spec(h, v)), ..st }),
            },
            StmtV::If(branches) => step_branches(h, branches, 0, st, fuel),
            StmtV::While(c, body) => match eval_expr_spec(h, st.env, c) {
                Err(m) => EvalOut::Failed(st, m),
                Ok(v) => match v {
                    PscVal::BoolT(true) => match step_stmts(h, body, 0, st, (fuel - 1) as nat) {
                        EvalOut::Done(st2) => step_stmt(
                            h,
                            StmtV::While(c, body),
                            st2,
                            (fuel - 1) as nat,
                        ),
                        other => other,
                    },
                    PscVal::BoolT(false) => EvalOut::Done(st),
                    _ => step_stmt(h, StmtV::While(c, body), st, (fuel - 1) as nat),
                },
            },
            StmtV::Until(c, body) => match eval_expr_spec(h, st.env, c) {
                Err(m) => EvalOut::Failed(st, m),
                Ok(v) => match v {
                    PscVal::BoolT(false) => match step_stmts(h, body, 0, st, (fuel - 1) as nat) {
                        EvalOut::Done(st2) => step_stmt(
                            h,
                            StmtV::Until(c, body),
                            st2,
                            (fuel - 1) as nat,
                        ),
                        other => other,
                    },
                    PscVal::BoolT(true) => EvalOut::Done(st),
                    _ => step_stmt(h, StmtV::Until(c, body), st, (fuel - 1) as nat),
                },
            },
            StmtV::For(n, se, ee, body) => match eval_expr_spec(h, st.env, se) {
                Err(m) => EvalOut::Failed(st, m),
                Ok(sv) => match eval_expr_spec(h, st.env, ee) {
                    Err(m) => EvalOut::Failed(st, m),
                    Ok(ev) => {
                        let st1 = MState { env: st.env.push((n, PscVal::IntT(0))), ..st };
                        match (sv, ev) {
                            (PscVal::IntT(s0), PscVal::IntT(e0)) => step_for(
                                h,
                                n,
                                s0,
                                e0,
                                body,
                                st1,
                                fuel,
                            ),
                            _ => EvalOut::Done(st1),
                        }
                    },
                },
            },
        }
    }
}

/// Runs the counting loop from `cur` to `end` inclusive: the loop
/// variable is rebound before each pass of the body.
pub open spec fn step_for<H: FloatOps>(
    h: H,
    n: Seq<char>,
    cur: i64,
    end: i64,
    body: Seq<StmtV>,
    st: MState,
    fuel: nat,
) -> EvalOut
    decreases fuel, 1int, end - cur,
{
    if fuel == 0 {
        EvalOut::Spent(st)
    } else if cur > end {
        EvalOut::Done(st)
    } else {
        let st1 = MState { env: st.env.push((n, PscVal::IntT(cur))), ..st };
        match step_stmts(h, body, 0, st1, (fuel - 1) as nat) {
            EvalOut::Done(st2) => if cur < end {
                step_for(h, n, ((cur + 1) as i64), end, body, st2, fuel)
            } else {
                EvalOut::Done(st2)
            },
            other => other,
        }
    }
}

/// Tries the branches of a conditional in order: the first whose
/// condition is the boolean `true` runs its body; a non-boolean
/// condition is an error; all-false means no body runs.
pub open spec fn step_branches<H: FloatOps>(
    h: H,
    bs: Seq<(ExprV, Seq<StmtV>)>,
    k: int,
    st: MState,
    fuel: nat,
) -> EvalOut
    decreases fuel, 1int, bs.len() - k,
{
    if fuel == 0 {
        EvalOut::Spent(st)
    } else if k < 0 || k >= bs.len() {
        EvalOut::Done(st)
    } else {
        match eval_expr_spec(h, st.env, bs[k].0) {
            Err(m) => EvalOut::Failed(st, m),
            Ok(v) => match v {
                PscVal::BoolT(true) => step_stmts(h, bs[k].1, 0, st, (fuel - 1) as nat),
                PscVal::BoolT(false) => step_branches(h, bs, k + 1, st, fuel),
                _ => EvalOut::Failed(st, "if expression not bool type"@),
            },
        }
    }
}

/// Executes the statements of a sequence in order from index `k`,
/// stopping at the first failure.
pub open spec fn step_stmts<H: FloatOps>(
    h: H,
    ss: Seq<StmtV>,
    k: int,
    st: MState,
    fuel: nat,
) -> EvalOut
    decreases fuel, 3int, ss.len() - k,
{
    if k < 0 || k >= ss.len() {
        EvalOut::Done(st)
    } else {
        match step_stmt(h, ss[k], st, fuel) {
            EvalOut::Done(st2) => step_stmts(h, ss, k + 1, st2, fuel),
            other => other,
        }
    }
}

// ---------------------------------------------------------------------
// The executable evaluator
// ---------------------------------------------------------------------

fn budget_spent() -> (r: RuntimeError)
    ensures
        r.msg@ == "Execution budget exhausted"@,
{
    RuntimeError::new(String::from_str("Execution budget exhausted"))
}

/// What the executable evaluator promises: the result, environment,
/// input and output land exactly where the given spec outcome says.
pub open spec fn matches_outcome(o: EvalOut, r: Result<(), RuntimeError>, st_after: MState) -> bool {
    match o {
        EvalOut::Done(st) => r is Ok && st_after == st,
        EvalOut::Failed(st, m) => (r matches Err(e) && e.msg@ == m) && st_after == st,
        EvalOut::Spent(st) => (r matches Err(e) && e.msg@ == "Execution budget exhausted"@)
            && st_after == st,
    }
}

impl Stmt {
    /// Executes one statement against the environment and console,
    /// with a step budget, exactly as `step_stmt` says. Runtime errors
    /// stop execution; output already written stays written.
    pub fn eval<H: FloatOps>(
        stmt: &Stmt,
        h: &H,
        vars: &mut Env,
        io: &mut Io,
        fuel: u64,
    ) -> (r: Result<(), RuntimeError>)
        ensures
            matches_outcome(
                step_stmt(*h, stmt@, state_of(*old(vars), *old(io)), fuel as nat),
                r,
                state_of(*final(vars), *final(io)),
            ),
        decreases fuel, 2int, 0int,
    {
        if fuel == 0 {
            return Err(budget_spent());
        }
        match stmt {
            Stmt::Assign(a) => {
                match Expr::eval(&a.expr, h, vars) {
                    Err(e) => Err(e),
                    Ok(v) => {
                        vars.insert(a.ident.clone(), v);
                        Ok(())
                    },
                }
            },
            Stmt::Input(inp) => {
                if io.ins.len() == 0 {
                    Err(RuntimeError::new(String::from_str("End of input")))
                } else {
                    let ghost old_ins = io.ins@;
                    let line = io.ins.remove(0);
                    proof {
                        assert(lines_view(io.ins@) =~= lines_view(old_ins).drop_first());
                        assert(line@ == lines_view(old_ins)[0]);
                    }
                    let v = classify_input(h, &line);
                    vars.insert(inp.ident.clone(), v);
                    Ok(())
                }
            },
            Stmt::Output(o) => {
                match Expr::eval(&o.expr, h, vars) {
                    Err(e) => Err(e),
                    Ok(v) => {
                        let ghost old_outs = io.outs@;
                        let text = format_val(h, &v);
                        io.outs.push(text);
                        proof {
                            assert(lines_view(io.outs@) =~= lines_view(old_outs).push(text@));
                        }
                        Ok(())
                    },
                }
            },
            Stmt::If(f) => eval_branches(&f.branches, 0, h, vars, io, fuel),
            Stmt::While(w) => {
                match Expr::eval(&w.cond, h, vars) {
                    Err(e) => Err(e),
                    Ok(v) => match v {
                        PscObject::BoolT(true) => {
                            match eval_stmts(&w.stmts, 0, h, vars, io, fuel - 1) {
                                Err(e) => Err(e),
                                Ok(()) => Stmt::eval(stmt, h, vars, io, fuel - 1),
                            }
                        },
                        PscObject::BoolT(false) => Ok(()),
                        _ => Stmt::eval(stmt, h, vars, io, fuel - 1),
                    },
                }
            },
            Stmt::Until(u) => {
                match Expr::eval(&u.cond, h, vars) {
                    Err(e) => Err(e),
                    Ok(v) => match v {
                        PscObject::BoolT(false) => {
                            match eval_stmts(&u.stmts, 0, h, vars, io, fuel - 1) {
                                Err(e) => Err(e),
                                Ok(()) => Stmt::eval(stmt, h, vars, io, fuel - 1),
                            }
                        },
                        PscObject::BoolT(true) => Ok(()),
                        _ => Stmt::eval(stmt, h, vars, io, fuel - 1),
                    },
                }
            },
            Stmt::For(f) => {
                match Expr::eval(&f.start, h, vars) {
                    Err(e) => Err(e),
                    Ok(sv) => {
                        match Expr::eval(&f.end, h, vars) {
                            Err(e) => Err(e),
                            Ok(ev) => {
                                vars.insert(f.name.clone(), PscObject::IntT(0));
                                match (sv, ev) {
                                    (PscObject::IntT(s0), PscObject::IntT(e0)) => {
                                        eval_for(&f.name, s0, e0, &f.stmts, h, vars, io, fuel)
                                    },
                                    _ => Ok(()),
                                }
                            },
                        }
                    },
                }
            },
        }
    }
}

fn eval_for<H: FloatOps>(
    name: &String,
    cur: i64,
    end: i64,
    body: &Vec<Stmt>,
    h: &H,
    vars: &mut Env,
    io: &mut Io,
    fuel: u64,
) -> (r: Result<(), RuntimeError>)
    ensures
        matches_outcome(
            step_for(
                *h,
                name@,
                cur,
                end,
                stmts_view(*body, body@.len() as int),
                state_of(*old(vars), *old(io)),
                fuel as nat,
            ),
            r,
            state_of(*final(vars), *final(io)),
        ),
    decreases fuel, 1int, end as int - cur as int,
{
    if fuel == 0 {
        return Err(budget_spent());
    }
    if cur > end {
        return Ok(());
    }
    vars.insert(name.clone(), PscObject::IntT(cur));
    match eval_stmts(body, 0, h, vars, io, fuel - 1) {
        Err(e) => Err(e),
        Ok(()) => {
            if cur < end {
                eval_for(name, cur + 1, end, body, h, vars, io, fuel)
            } else {
                Ok(())
            }
        },
    }
}

fn eval_branches<H: FloatOps>(
    branches: &Vec<(Expr, Vec<Stmt>)>,
    k: usize,
    h: &H,
    vars: &mut Env,
    io: &mut Io,
    fuel: u64,
) -> (r: Result<(), RuntimeError>)
    requires
        k <= branches@.len(),
        fuel >= 1,
    ensures
        matches_outcome(
            step_branches(
                *h,
                branches_view(*branches, branches@.len() as int),
                k as int,
                state_of(*old(vars), *old(io)),
                fuel as nat,
            ),
            r,
            state_of(*final(vars), *final(io)),
        ),
    decreases fuel, 1int, branches.len() - k,
{
    proof {
        lemma_branches_view(*branches, branches@.len() as int);
    }
    if k >= branches.len() {
        return Ok(());
    }
    match Expr::eval(&branches[k].0, h, vars) {
        Err(e) => Err(e),
        Ok(v) => match v {
            PscObject::BoolT(true) => eval_stmts(&branches[k].1, 0, h, vars, io, fuel - 1),
            PscObject::BoolT(false) => eval_branches(branches, k + 1, h, vars, io, fuel),
            _ => Err(RuntimeError::new(String::from_str("if expression not bool type"))),
        },
    }
}

fn eval_stmts<H: FloatOps>(
    stmts: &Vec<Stmt>,
    k: usize,
    h: &H,
    vars: &mut Env,
    io: &mut Io,
    fuel: u64,
) -> (r: Result<(), RuntimeError>)
    requires
        k <= stmts@.len(),
    ensures
        matches_outcome(
            step_stmts(
                *h,
                stmts_view(*stmts, stmts@.len() as int),
                k as int,
                state_of(*old(vars), *old(io)),
                fuel as nat,
            ),
            r,
            state_of(*final(vars), *final(io)),
        ),
    decreases fuel, 3int, stmts.len() - k,
{
    proof {
        lemma_stmts_view(*stmts, stmts@.len() as int);
    }
    if k >= stmts.len() {
        return Ok(());
    }
    match Stmt::eval(&stmts[k], h, vars, io, fuel) {
        Err(e) => Err(e),
        Ok(()) => eval_stmts(stmts, k + 1, h, vars, io, fuel),
    }
}

/// Runs a whole program: its statements in order against the
/// environment and console, with a step budget, exactly as
/// `step_stmts` says.
pub fn run<H: FloatOps>(
    stmts: &Vec<Stmt>,
    h: &H,
    vars: &mut Env,
    io: &mut Io,
    fuel: u64,
) -> (r: Result<(), RuntimeError>)
    ensures
        matches_outcome(
            step_stmts(
                *h,
                stmts_view(*stmts, stmts@.len() as int),
                0,
                state_of(*old(vars), *old(io)),
                fuel as nat,
            ),
            r,
            state_of(*final(vars), *final(io)),
        ),
{
    eval_stmts(stmts, 0, h, vars, io, fuel)
}

// ---------------------------------------------------------------------
// Laws
// ---------------------------------------------------------------------

/// True division of two integers always answers in a float: the
/// quotient of the two widened operands; and `div` answers in its
/// floor. This holds for every pair of 64-bit integers, relative to
/// the float operations in use.
pub proof fn lemma_integer_division<H: FloatOps>(h: H, a: i64, b: i64)
    ensures
        eval_binop_spec(h, Punctuation::Div, PscVal::IntT(a), PscVal::IntT(b)) == Ok::<
            PscVal,
            Seq<char>,
        >(PscVal::FloatT(h.spec_div(h.spec_from_int(a), h.spec_from_int(b)))),
        eval_binop_spec(h, Punctuation::FloorDiv, PscVal::IntT(a), PscVal::IntT(b)) == Ok::<
            PscVal,
            Seq<char>,
        >(PscVal::FloatT(h.spec_floor(h.spec_div(h.spec_from_int(a), h.spec_from_int(b))))),
{
}

/// An input line whose trimmed text is not a boolean literal, not an
/// integer, and not a float binds the raw, untrimmed line as text.
pub proof fn lemma_input_text_fallback<H: FloatOps>(h: H, line: Seq<char>)
    requires
        trim_spec(line) != seq!['t', 'r', 'u', 'e'],
        trim_spec(line) != seq!['f', 'a', 'l', 's', 'e'],
        parse_int_spec(trim_spec(line)) is None,
        h.spec_parse_float(trim_spec(line)) is None,
    ensures
        classify_input_spec(h, line) == PscVal::StringT(line),
{
}

} // verus!
