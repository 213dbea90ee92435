//! The tree-walking evaluator and its mathematical model.
//!
//! The model is the family of `..._spec` functions below: a big-step
//! semantics over the ghost syntax tree, threading a state of scopes and
//! collected output, with a depth budget that turns runaway call nesting
//! into a reported error. Every executable method of [`Evaluator`] is proved
//! to return exactly what the model says, and to leave every scope other
//! than the current one unchanged — which is why a binding inside a call
//! frame shadows and never mutates an outer binding, and why a closure's
//! captured scope keeps its bindings after the defining call returns.

use vstd::prelude::*;

use crate::ast::{
    block_view, expr_view, exprs_view, ident_view, idents_view, lemma_block_view_statements,
    lemma_exprs_view_index, lemma_exprs_view_len, lemma_idents_view_index, lemma_idents_view_len,
    lemma_pairs_view_index, lemma_pairs_view_len, lemma_stmt_view_unfold, lemma_stmts_view_index,
    lemma_stmts_view_len, opt_expr_view, pairs_view, stmt_view, stmts_view, BlockStatement,
    ExpressionNode, Identifier, IfExpression, Program, ReturnStatement, SayStatement, SBlock,
    SExpr, SIdent, SProgram, SReturn, SSay, SStmt, StatementNode,
};
use crate::builtins::{
    apply_builtin, apply_builtin_spec, msg_wrong_args, wrong_args_err, BuiltinKind,
};
use crate::object::{
    bind_spec, clone_object, dict_insert, dict_insert_spec, dict_key_spec, dict_lookup_spec,
    enclose_spec, entries_view, lemma_vals_view_index, lemma_vals_view_len, lookup_spec,
    object_dict_key, type_of, val_view, vals_view, DictKey, DictPair, DictStruct, Environment,
    Function, Object, SDictKey, SEntry, SFun, SScope, SVal,
};

verus! {

/// The evaluation state: the arena of scopes and the values that `tellme`
/// has written so far.
pub struct SState {
    pub scopes: Seq<SScope>,
    pub output: Seq<SVal>,
}

/// The depth budget for function application: deeper call nesting is
/// reported as an error instead of exhausting the native stack.
pub const MAX_DEPTH: u64 = 1000;

// ---------------------------------------------------------------------------
// Messages
// ---------------------------------------------------------------------------

pub open spec fn msg_type_mismatch(tl: Seq<char>, op: Seq<char>, tr: Seq<char>) -> Seq<char> {
    "type mismatch: "@ + tl + " "@ + op + " "@ + tr
}

pub open spec fn msg_unknown_infix(tl: Seq<char>, op: Seq<char>, tr: Seq<char>) -> Seq<char> {
    "unknown operator: "@ + tl + " "@ + op + " "@ + tr
}

pub open spec fn msg_unknown_prefix(op: Seq<char>, t: Seq<char>) -> Seq<char> {
    "unknown operator: "@ + op + t
}

pub open spec fn msg_identifier_not_found(name: Seq<char>) -> Seq<char> {
    "identifier not found: "@ + name
}

pub open spec fn msg_not_a_function(t: Seq<char>) -> Seq<char> {
    "not a function: "@ + t
}

pub open spec fn msg_index_not_supported(t: Seq<char>) -> Seq<char> {
    "index operator not supported: "@ + t
}

pub open spec fn msg_division_by_zero() -> Seq<char> {
    "division by zero"@
}

pub open spec fn msg_depth_exceeded() -> Seq<char> {
    "recursion depth limit exceeded"@
}

pub open spec fn msg_lost_environment() -> Seq<char> {
    "function environment no longer exists"@
}

// ---------------------------------------------------------------------------
// Pure value operations
// ---------------------------------------------------------------------------

pub open spec fn is_error_spec(v: SVal) -> bool {
    v is Error
}

pub open spec fn is_ret_or_err(v: SVal) -> bool {
    v is Return || v is Error
}

/// Null and `false` are falsy; every other value is truthy.
pub open spec fn truthy_spec(v: SVal) -> bool {
    match v {
        SVal::Null => false,
        SVal::Bool(b) => b,
        _ => true,
    }
}

pub open spec fn bang_spec(v: SVal) -> SVal {
    SVal::Bool(!truthy_spec(v))
}

pub open spec fn neg_spec(v: SVal) -> SVal {
    match v {
        SVal::Int(i) => SVal::Int(vstd::wrapping::i64_specs::wrapping_sub(0, i)),
        _ => SVal::Error(msg_unknown_prefix("-"@, type_of(v))),
    }
}

pub open spec fn eval_prefix_spec(op: Seq<char>, right: SVal) -> SVal {
    if op == "!"@ {
        bang_spec(right)
    } else if op == "-"@ {
        neg_spec(right)
    } else {
        SVal::Error(msg_unknown_prefix(op, type_of(right)))
    }
}

/// Division truncating toward zero, on a nonzero divisor.
pub open spec fn div_trunc(a: int, b: int) -> int {
    if a >= 0 && b > 0 {
        a / b
    } else if a < 0 && b > 0 {
        -((-a) / b)
    } else if a >= 0 && b < 0 {
        -(a / (-b))
    } else {
        (-a) / (-b)
    }
}

pub open spec fn eval_integer_infix_spec(op: Seq<char>, a: i64, b: i64) -> SVal {
    if op == "+"@ {
        SVal::Int(vstd::wrapping::i64_specs::wrapping_add(a, b))
    } else if op == "-"@ {
        SVal::Int(vstd::wrapping::i64_specs::wrapping_sub(a, b))
    } else if op == "*"@ {
        SVal::Int(vstd::wrapping::i64_specs::wrapping_mul(a, b))
    } else if op == "/"@ {
        if b == 0 {
            SVal::Error(msg_division_by_zero())
        } else if a == i64::MIN && b == -1 {
            SVal::Int(i64::MIN)
        } else {
            SVal::Int(div_trunc(a as int, b as int) as i64)
        }
    } else if op == "<"@ {
        SVal::Bool(a < b)
    } else if op == ">"@ {
        SVal::Bool(a > b)
    } else if op == "=="@ {
        SVal::Bool(a == b)
    } else if op == "!="@ {
        SVal::Bool(a != b)
    } else {
        SVal::Null
    }
}

/// Infix evaluation on two already evaluated operands: operands of
/// differing dynamic types are always a type mismatch, whatever the
/// operator; matching types support exactly the operations listed here.
pub open spec fn eval_infix_spec(op: Seq<char>, l: SVal, r: SVal) -> SVal {
    if type_of(l) != type_of(r) {
        SVal::Error(msg_type_mismatch(type_of(l), op, type_of(r)))
    } else {
        match (l, r) {
            (SVal::Int(a), SVal::Int(b)) => eval_integer_infix_spec(op, a, b),
            (SVal::Str(a), SVal::Str(b)) => if op == "+"@ {
                SVal::Str(a + b)
            } else {
                SVal::Error(msg_unknown_infix(type_of(l), op, type_of(r)))
            },
            (SVal::Bool(a), SVal::Bool(b)) => if op == "=="@ {
                SVal::Bool(a == b)
            } else if op == "!="@ {
                SVal::Bool(a != b)
            } else {
                SVal::Error(msg_unknown_infix(type_of(l), op, type_of(r)))
            },
            _ => SVal::Error(msg_unknown_infix(type_of(l), op, type_of(r))),
        }
    }
}

/// Indexing: array indices out of range, negative included, give Null,
/// never an error; dictionary misses give Null; a non-hashable dictionary
/// key or an unindexable target is an error.
pub open spec fn eval_index_spec(l: SVal, idx: SVal) -> SVal {
    match (l, idx) {
        (SVal::Array(v), SVal::Int(i)) => if i < 0 || i >= v.len() {
            SVal::Null
        } else {
            v[i as int]
        },
        (SVal::Dict(entries), key) => match dict_key_spec(key) {
            Result::Ok(nk) => match dict_lookup_spec(entries, nk) {
                Option::Some(v) => v,
                Option::None => SVal::Null,
            },
            Result::Err(m) => SVal::Error(m),
        },
        _ => SVal::Error(msg_index_not_supported(type_of(l))),
    }
}

pub open spec fn unwrap_return_spec(v: SVal) -> SVal {
    match v {
        SVal::Return(inner) => *inner,
        _ => v,
    }
}

/// Parameter binding, one name at a time, into the scope at `idx`.
pub open spec fn bind_params_spec(
    scopes: Seq<SScope>,
    idx: int,
    params: Seq<SIdent>,
    args: Seq<SVal>,
    i: int,
) -> Seq<SScope>
    decreases params.len() - i,
{
    if i < 0 || i >= params.len() || i >= args.len() {
        scopes
    } else {
        bind_params_spec(bind_spec(scopes, idx, params[i].value, args[i]), idx, params, args, i
            + 1)
    }
}

/// Appending the arguments of a `tellme` call to the output, in order.
pub open spec fn push_all_spec(out: Seq<SVal>, args: Seq<SVal>, i: int) -> Seq<SVal>
    decreases args.len() - i,
{
    if i < 0 || i >= args.len() {
        out
    } else {
        push_all_spec(out.push(args[i]), args, i + 1)
    }
}


// ---------------------------------------------------------------------------
// Laws
// ---------------------------------------------------------------------------

/// Infix between operands of differing dynamic types is always a type
/// mismatch, whatever the operator.
pub proof fn lemma_infix_type_mismatch(op: Seq<char>, l: SVal, r: SVal)
    requires
        type_of(l) != type_of(r),
    ensures
        eval_infix_spec(op, l, r) == SVal::Error(msg_type_mismatch(type_of(l), op, type_of(r))),
{
}

/// An array index out of range, a negative one included, yields Null and
/// never an error.
pub proof fn lemma_index_out_of_range(elems: Seq<SVal>, i: i64)
    requires
        i < 0 || i >= elems.len(),
    ensures
        eval_index_spec(SVal::Array(elems), SVal::Int(i)) == SVal::Null,
{
}

/// A dictionary miss yields Null; only an unusable key is an error.
pub proof fn lemma_dict_index_miss(entries: Seq<SEntry>, key: SVal, nk: SDictKey)
    requires
        dict_key_spec(key) == Result::<SDictKey, Seq<char>>::Ok(nk),
        dict_lookup_spec(entries, nk) is None,
    ensures
        eval_index_spec(SVal::Dict(entries), key) == SVal::Null,
{
}

// ---------------------------------------------------------------------------
// The big-step semantics
// ---------------------------------------------------------------------------

#[verifier::opaque]
pub open spec fn eval_expr_spec(st: SState, cur: int, e: SExpr, depth: nat) -> (SState, SVal)
    decreases depth, 1int, e, 1int,
{
    match e {
        SExpr::Empty => (st, SVal::Null),
        SExpr::Ident(id) => (
            st,
            match lookup_spec(st.scopes, cur, id.value) {
                Option::Some(v) => v,
                Option::None => SVal::Error(msg_identifier_not_found(id.value)),
            },
        ),
        SExpr::Int(n) => (st, SVal::Int(n.value)),
        SExpr::Bool(b) => (st, SVal::Bool(b.value)),
        SExpr::Str(s) => (st, SVal::Str(s.value)),
        SExpr::Prefix(p) => {
            let (st1, r) = eval_expr_spec(st, cur, *p.right, depth);
            if is_error_spec(r) {
                (st1, r)
            } else {
                (st1, eval_prefix_spec(p.operator, r))
            }
        },
        SExpr::Infix(p) => {
            let (st1, l) = eval_expr_spec(st, cur, *p.left, depth);
            if is_error_spec(l) {
                (st1, l)
            } else {
                let (st2, r) = eval_expr_spec(st1, cur, *p.right, depth);
                if is_error_spec(r) {
                    (st2, r)
                } else {
                    (st2, eval_infix_spec(p.operator, l, r))
                }
            }
        },
        SExpr::If(f) => {
            let (st1, c) = eval_expr_spec(st, cur, *f.condition, depth);
            if is_error_spec(c) {
                (st1, c)
            } else if truthy_spec(c) {
                eval_block_spec(st1, cur, f.consequence, depth)
            } else {
                match f.alternative {
                    Option::Some(alt) => eval_block_spec(st1, cur, alt, depth),
                    Option::None => (st1, SVal::Null),
                }
            }
        },
        SExpr::Function(f) => (
            st,
            SVal::Function(SFun { parameters: f.parameters, body: f.body, environment: cur }),
        ),
        SExpr::Call(c) => {
            let (st1, fv) = eval_expr_spec(st, cur, *c.function, depth);
            if is_error_spec(fv) {
                (st1, fv)
            } else {
                let (st2, args) = eval_exprs_spec(st1, cur, c.arguments, 0, Seq::empty(), depth);
                if args.len() == 1 && is_error_spec(args[0]) {
                    (st2, args[0])
                } else {
                    apply_spec(st2, fv, args, depth)
                }
            }
        },
        SExpr::Array(a) => {
            let (st1, vs) = eval_exprs_spec(st, cur, a.elements, 0, Seq::empty(), depth);
            if vs.len() == 1 && is_error_spec(vs[0]) {
                (st1, vs[0])
            } else {
                (st1, SVal::Array(vs))
            }
        },
        SExpr::Index(x) => {
            let (st1, l) = eval_expr_spec(st, cur, *x.left, depth);
            if is_error_spec(l) {
                (st1, l)
            } else {
                let (st2, idx) = eval_expr_spec(st1, cur, *x.index, depth);
                if is_error_spec(idx) {
                    (st2, idx)
                } else {
                    (st2, eval_index_spec(l, idx))
                }
            }
        },
        SExpr::Dict(d) => {
            let (st1, res) = eval_pairs_spec(st, cur, d.pairs, 0, Seq::empty(), depth);
            match res {
                Result::Ok(entries) => (st1, SVal::Dict(entries)),
                Result::Err(e) => (st1, e),
            }
        },
    }
}

pub open spec fn eval_opt_expr_spec(st: SState, cur: int, oe: Option<SExpr>, depth: nat) -> (
    SState,
    SVal,
)
    decreases depth, 1int, oe, 0int,
{
    match oe {
        Option::Some(e) => eval_expr_spec(st, cur, e, depth),
        Option::None => (st, SVal::Null),
    }
}

/// Left-to-right evaluation of an expression list; an error is returned as
/// a one-element list holding it alone.
pub open spec fn eval_exprs_spec(
    st: SState,
    cur: int,
    es: Seq<SExpr>,
    i: int,
    acc: Seq<SVal>,
    depth: nat,
) -> (SState, Seq<SVal>)
    decreases depth, 1int, es, es.len() - i,
{
    if i < 0 || i >= es.len() {
        (st, acc)
    } else {
        let (st1, v) = eval_expr_spec(st, cur, es[i], depth);
        if is_error_spec(v) {
            (st1, seq![v])
        } else {
            eval_exprs_spec(st1, cur, es, i + 1, acc.push(v), depth)
        }
    }
}

/// Dictionary literal evaluation: keys are normalized as they are reached;
/// an unusable key aborts the whole literal; a later pair whose key
/// normalizes identically overwrites the earlier value.
pub open spec fn eval_pairs_spec(
    st: SState,
    cur: int,
    pairs: Seq<(SExpr, SExpr)>,
    i: int,
    entries: Seq<SEntry>,
    depth: nat,
) -> (SState, Result<Seq<SEntry>, SVal>)
    decreases depth, 1int, pairs, pairs.len() - i,
{
    if i < 0 || i >= pairs.len() {
        (st, Result::Ok(entries))
    } else {
        let (st1, k) = eval_expr_spec(st, cur, pairs[i].0, depth);
        if is_error_spec(k) {
            (st1, Result::Err(k))
        } else {
            match dict_key_spec(k) {
                Result::Err(m) => (st1, Result::Err(SVal::Error(m))),
                Result::Ok(nk) => {
                    let (st2, v) = eval_expr_spec(st1, cur, pairs[i].1, depth);
                    if is_error_spec(v) {
                        (st2, Result::Err(v))
                    } else {
                        eval_pairs_spec(
                            st2,
                            cur,
                            pairs,
                            i + 1,
                            dict_insert_spec(entries, SEntry { norm: nk, key: k, value: v }),
                            depth,
                        )
                    }
                },
            }
        }
    }
}

/// Function application. A user function is applied by allocating a scope
/// enclosed by the captured one, binding each parameter positionally, and
/// evaluating the body there on a decremented depth budget; a return signal
/// coming out of the body is unwrapped. An arity mismatch is a reported
/// error. A native function validates its own arguments; `tellme` appends
/// its arguments to the output and returns Null.
pub open spec fn apply_spec(st: SState, f: SVal, args: Seq<SVal>, depth: nat) -> (SState, SVal)
    decreases depth, 0int, f, 0int,
{
    match f {
        SVal::Function(sf) => {
            if sf.parameters.len() != args.len() {
                (st, SVal::Error(msg_wrong_args(args.len() as int, sf.parameters.len() as int)))
            } else if sf.environment >= st.scopes.len() {
                (st, SVal::Error(msg_lost_environment()))
            } else if depth == 0 {
                (st, SVal::Error(msg_depth_exceeded()))
            } else {
                let idx = st.scopes.len() as int;
                let scopes1 = bind_params_spec(
                    enclose_spec(st.scopes, sf.environment),
                    idx,
                    sf.parameters,
                    args,
                    0,
                );
                let (st2, v) = eval_block_spec(
                    SState { scopes: scopes1, output: st.output },
                    idx,
                    sf.body,
                    (depth - 1) as nat,
                );
                (st2, unwrap_return_spec(v))
            }
        },
        SVal::Builtin(k) => {
            if k == BuiltinKind::TellMe {
                (
                    SState { scopes: st.scopes, output: push_all_spec(st.output, args, 0) },
                    SVal::Null,
                )
            } else {
                (st, apply_builtin_spec(k, args))
            }
        },
        other => (st, SVal::Error(msg_not_a_function(type_of(other)))),
    }
}

pub open spec fn eval_stmt_spec(st: SState, cur: int, s: SStmt, depth: nat) -> (SState, SVal)
    decreases depth, 1int, s, 0int,
{
    match s {
        SStmt::Expression(es) => eval_opt_expr_spec(st, cur, es.expression, depth),
        SStmt::Return(r) => {
            let (st1, v) = eval_opt_expr_spec(st, cur, r.return_value, depth);
            if is_error_spec(v) {
                (st1, v)
            } else {
                (st1, SVal::Return(Box::new(v)))
            }
        },
        SStmt::Say(s) => {
            let (st1, v) = eval_opt_expr_spec(st, cur, s.value, depth);
            if is_error_spec(v) {
                (st1, v)
            } else {
                (
                    SState {
                        scopes: bind_spec(st1.scopes, cur, s.name.value, v),
                        output: st1.output,
                    },
                    v,
                )
            }
        },
        SStmt::Block(_) => (st, SVal::Null),
    }
}

/// Block evaluation: same scope as the surrounding construct, stopping at
/// the first return signal or error; the block's value is its last
/// statement's value, Null when it is empty.
pub open spec fn eval_stmts_spec(
    st: SState,
    cur: int,
    ss: Seq<SStmt>,
    i: int,
    last: SVal,
    depth: nat,
) -> (SState, SVal)
    decreases depth, 1int, ss, ss.len() - i,
{
    if i < 0 || i >= ss.len() {
        (st, last)
    } else {
        let (st1, r) = eval_stmt_spec(st, cur, ss[i], depth);
        if is_ret_or_err(r) {
            (st1, r)
        } else {
            eval_stmts_spec(st1, cur, ss, i + 1, r, depth)
        }
    }
}

pub open spec fn eval_block_spec(st: SState, cur: int, b: SBlock, depth: nat) -> (SState, SVal)
    decreases depth, 1int, b, 0int,
{
    eval_stmts_spec(st, cur, b.statements, 0, SVal::Null, depth)
}

/// Program evaluation in the root scope: a return signal at top level is
/// unwrapped once and ends the program, an error ends it, and otherwise
/// the program's value is its last statement's value. The unwrap is
/// deliberately single: a return whose operand itself produced a return
/// signal — `return (if (c) { return v; });` — surfaces the inner signal
/// as the program's value, exactly as the statement-level wrapping
/// prescribes.
pub open spec fn eval_program_stmts_spec(
    st: SState,
    ss: Seq<SStmt>,
    i: int,
    last: SVal,
    depth: nat,
) -> (SState, SVal)
    decreases depth, 1int, ss, ss.len() - i,
{
    if i < 0 || i >= ss.len() {
        (st, last)
    } else {
        let (st1, r) = eval_stmt_spec(st, 0, ss[i], depth);
        if is_ret_or_err(r) {
            (st1, unwrap_return_spec(r))
        } else {
            eval_program_stmts_spec(st1, ss, i + 1, r, depth)
        }
    }
}

pub open spec fn eval_program_spec(st: SState, p: SProgram, depth: nat) -> (SState, SVal) {
    eval_program_stmts_spec(st, p.statements, 0, SVal::Null, depth)
}

/// One step of top-level program evaluation, spelled out.
proof fn lemma_program_step(pre: SState, ss: Seq<SStmt>, i: int, acc: SVal, depth: nat)
    requires
        0 <= i < ss.len(),
    ensures
        ({
            let (st1, r) = eval_stmt_spec(pre, 0, ss[i], depth);
            eval_program_stmts_spec(pre, ss, i, acc, depth) == (if is_ret_or_err(r) {
                (st1, unwrap_return_spec(r))
            } else {
                eval_program_stmts_spec(st1, ss, i + 1, r, depth)
            })
        }),
{
    reveal(eval_expr_spec);
}


// ---------------------------------------------------------------------------
// The scope-frame law
//
// Evaluation writes only into the current scope and into scopes it creates:
// every other scope that existed before keeps its contents. In particular a
// binding made inside a call frame shadows an outer binding and never
// mutates it, and the scope a closure captured keeps its bindings after the
// defining call returns.
// ---------------------------------------------------------------------------

/// What evaluation leaves untouched: the scopes before `cur`-excepted stay
/// exactly as they were, and scopes are only ever added.
pub open spec fn preserves_other_scopes(pre: SState, post: SState, cur: int) -> bool {
    &&& post.scopes.len() >= pre.scopes.len()
    &&& forall|j: int| 0 <= j < pre.scopes.len() && j != cur ==> post.scopes[j] == pre.scopes[j]
}

proof fn lemma_bind_params_frame(
    scopes: Seq<SScope>,
    idx: int,
    params: Seq<SIdent>,
    args: Seq<SVal>,
    i: int,
)
    ensures
        bind_params_spec(scopes, idx, params, args, i).len() == scopes.len(),
        forall|j: int|
            0 <= j < scopes.len() && j != idx ==> bind_params_spec(scopes, idx, params, args, i)[j]
                == scopes[j],
    decreases params.len() - i,
{
    if !(i < 0 || i >= params.len() || i >= args.len()) {
        let stepped = bind_spec(scopes, idx, params[i].value, args[i]);
        assert(stepped.len() == scopes.len());
        assert(forall|j: int| 0 <= j < scopes.len() && j != idx ==> stepped[j] == scopes[j]);
        lemma_bind_params_frame(stepped, idx, params, args, i + 1);
    }
}

pub proof fn lemma_eval_expr_frame(st: SState, cur: int, e: SExpr, depth: nat)
    ensures
        preserves_other_scopes(st, eval_expr_spec(st, cur, e, depth).0, cur),
    decreases depth, 1int, e, 1int,
{
    reveal(eval_expr_spec);
    match e {
        SExpr::Prefix(p) => {
            lemma_eval_expr_frame(st, cur, *p.right, depth);
        },
        SExpr::Infix(p) => {
            lemma_eval_expr_frame(st, cur, *p.left, depth);
            let (st1, l) = eval_expr_spec(st, cur, *p.left, depth);
            if !is_error_spec(l) {
                lemma_eval_expr_frame(st1, cur, *p.right, depth);
            }
        },
        SExpr::If(f) => {
            lemma_eval_expr_frame(st, cur, *f.condition, depth);
            let (st1, c) = eval_expr_spec(st, cur, *f.condition, depth);
            if !is_error_spec(c) {
                if truthy_spec(c) {
                    lemma_eval_block_frame(st1, cur, f.consequence, depth);
                } else {
                    match f.alternative {
                        Option::Some(alt) => {
                            lemma_eval_block_frame(st1, cur, alt, depth);
                        },
                        Option::None => {},
                    }
                }
            }
        },
        SExpr::Call(c) => {
            lemma_eval_expr_frame(st, cur, *c.function, depth);
            let (st1, fv) = eval_expr_spec(st, cur, *c.function, depth);
            if !is_error_spec(fv) {
                lemma_eval_exprs_frame(st1, cur, c.arguments, 0, Seq::empty(), depth);
                let (st2, args) = eval_exprs_spec(st1, cur, c.arguments, 0, Seq::empty(), depth);
                if !(args.len() == 1 && is_error_spec(args[0])) {
                    lemma_apply_frame(st2, fv, args, depth);
                }
            }
        },
        SExpr::Array(a) => {
            lemma_eval_exprs_frame(st, cur, a.elements, 0, Seq::empty(), depth);
        },
        SExpr::Index(x) => {
            lemma_eval_expr_frame(st, cur, *x.left, depth);
            let (st1, l) = eval_expr_spec(st, cur, *x.left, depth);
            if !is_error_spec(l) {
                lemma_eval_expr_frame(st1, cur, *x.index, depth);
            }
        },
        SExpr::Dict(d) => {
            lemma_eval_pairs_frame(st, cur, d.pairs, 0, Seq::empty(), depth);
        },
        _ => {},
    }
}

proof fn lemma_eval_opt_expr_frame(st: SState, cur: int, oe: Option<SExpr>, depth: nat)
    ensures
        preserves_other_scopes(st, eval_opt_expr_spec(st, cur, oe, depth).0, cur),
    decreases depth, 1int, oe, 0int,
{
    reveal(eval_expr_spec);
    match oe {
        Option::Some(e) => {
            lemma_eval_expr_frame(st, cur, e, depth);
        },
        Option::None => {},
    }
}

proof fn lemma_eval_exprs_frame(
    st: SState,
    cur: int,
    es: Seq<SExpr>,
    i: int,
    acc: Seq<SVal>,
    depth: nat,
)
    ensures
        preserves_other_scopes(st, eval_exprs_spec(st, cur, es, i, acc, depth).0, cur),
    decreases depth, 1int, es, es.len() - i,
{
    reveal(eval_expr_spec);
    if !(i < 0 || i >= es.len()) {
        lemma_eval_expr_frame(st, cur, es[i], depth);
        let (st1, v) = eval_expr_spec(st, cur, es[i], depth);
        if !is_error_spec(v) {
            lemma_eval_exprs_frame(st1, cur, es, i + 1, acc.push(v), depth);
        }
    }
}

proof fn lemma_eval_pairs_frame(
    st: SState,
    cur: int,
    pairs: Seq<(SExpr, SExpr)>,
    i: int,
    entries: Seq<SEntry>,
    depth: nat,
)
    ensures
        preserves_other_scopes(st, eval_pairs_spec(st, cur, pairs, i, entries, depth).0, cur),
    decreases depth, 1int, pairs, pairs.len() - i,
{
    reveal(eval_expr_spec);
    if !(i < 0 || i >= pairs.len()) {
        lemma_eval_expr_frame(st, cur, pairs[i].0, depth);
        let (st1, k) = eval_expr_spec(st, cur, pairs[i].0, depth);
        if !is_error_spec(k) {
            match dict_key_spec(k) {
                Result::Err(_) => {},
                Result::Ok(nk) => {
                    lemma_eval_expr_frame(st1, cur, pairs[i].1, depth);
                    let (st2, v) = eval_expr_spec(st1, cur, pairs[i].1, depth);
                    if !is_error_spec(v) {
                        lemma_eval_pairs_frame(
                            st2,
                            cur,
                            pairs,
                            i + 1,
                            dict_insert_spec(entries, SEntry { norm: nk, key: k, value: v }),
                            depth,
                        );
                    }
                },
            }
        }
    }
}

/// Applying a function leaves every scope that existed before the call
/// exactly as it was: a `say` in the body writes only into the fresh call
/// frame, so shadowing inside a call never mutates an outer binding, and
/// the bindings a closure captured are still there after the defining call
/// returns.
pub proof fn lemma_apply_frame(st: SState, f: SVal, args: Seq<SVal>, depth: nat)
    ensures
        ({
            let (st2, v) = apply_spec(st, f, args, depth);
            &&& st2.scopes.len() >= st.scopes.len()
            &&& forall|j: int| 0 <= j < st.scopes.len() ==> st2.scopes[j] == st.scopes[j]
        }),
    decreases depth, 0int, f, 0int,
{
    reveal(eval_expr_spec);
    match f {
        SVal::Function(sf) => {
            if sf.parameters.len() == args.len() && sf.environment < st.scopes.len() && depth
                != 0 {
                let idx = st.scopes.len() as int;
                let enclosed = enclose_spec(st.scopes, sf.environment);
                assert(enclosed.len() == st.scopes.len() + 1);
                assert(forall|j: int| 0 <= j < st.scopes.len() ==> enclosed[j] == st.scopes[j]);
                let scopes1 = bind_params_spec(enclosed, idx, sf.parameters, args, 0);
                lemma_bind_params_frame(enclosed, idx, sf.parameters, args, 0);
                assert(scopes1.len() == st.scopes.len() + 1);
                assert forall|j: int| 0 <= j < st.scopes.len() implies scopes1[j]
                    == st.scopes[j] by {
                    assert(bind_params_spec(enclosed, idx, sf.parameters, args, 0)[j]
                        == enclosed[j]);
                }
                let pre = SState { scopes: scopes1, output: st.output };
                lemma_eval_block_frame(pre, idx, sf.body, (depth - 1) as nat);
                let (st2, v) = eval_block_spec(pre, idx, sf.body, (depth - 1) as nat);
                assert(preserves_other_scopes(pre, st2, idx));
                assert forall|j: int| 0 <= j < st.scopes.len() implies st2.scopes[j]
                    == st.scopes[j] by {
                    assert(j < pre.scopes.len() && j != idx);
                    assert(st2.scopes[j] == pre.scopes[j]);
                }
            }
        },
        _ => {},
    }
}

/// A binding declaration writes into the statement's own scope alone:
/// every other existing scope, outer bindings included, is untouched — so
/// a `say` that shadows an outer name never mutates the outer binding.
pub proof fn lemma_eval_stmt_frame(st: SState, cur: int, s: SStmt, depth: nat)
    ensures
        preserves_other_scopes(st, eval_stmt_spec(st, cur, s, depth).0, cur),
    decreases depth, 1int, s, 0int,
{
    reveal(eval_expr_spec);
    match s {
        SStmt::Expression(es) => {
            lemma_eval_opt_expr_frame(st, cur, es.expression, depth);
        },
        SStmt::Return(r) => {
            lemma_eval_opt_expr_frame(st, cur, r.return_value, depth);
        },
        SStmt::Say(s) => {
            lemma_eval_opt_expr_frame(st, cur, s.value, depth);
        },
        SStmt::Block(_) => {},
    }
}

proof fn lemma_eval_stmts_frame(
    st: SState,
    cur: int,
    ss: Seq<SStmt>,
    i: int,
    last: SVal,
    depth: nat,
)
    ensures
        preserves_other_scopes(st, eval_stmts_spec(st, cur, ss, i, last, depth).0, cur),
    decreases depth, 1int, ss, ss.len() - i,
{
    reveal(eval_expr_spec);
    if !(i < 0 || i >= ss.len()) {
        lemma_eval_stmt_frame(st, cur, ss[i], depth);
        let (st1, r) = eval_stmt_spec(st, cur, ss[i], depth);
        if !is_ret_or_err(r) {
            lemma_eval_stmts_frame(st1, cur, ss, i + 1, r, depth);
        }
    }
}

proof fn lemma_eval_block_frame(st: SState, cur: int, b: SBlock, depth: nat)
    ensures
        preserves_other_scopes(st, eval_block_spec(st, cur, b, depth).0, cur),
    decreases depth, 1int, b, 0int,
{
    reveal(eval_expr_spec);
    lemma_eval_stmts_frame(st, cur, b.statements, 0, SVal::Null, depth);
}

/// The state a fresh evaluator starts from: one root scope holding the
/// native functions, and no output.
pub open spec fn initial_state() -> SState {
    SState {
        scopes: seq![
            SScope { store: crate::builtins::builtins_store(), parent: Option::<int>::None },
        ],
        output: Seq::empty(),
    }
}

// ---------------------------------------------------------------------------
// The evaluator
// ---------------------------------------------------------------------------

/// Walks the syntax tree, owning the scopes and the `tellme` output.
pub struct Evaluator {
    environment: Environment,
    output: Vec<Object>,
}

impl View for Evaluator {
    type V = SState;

    closed spec fn view(&self) -> SState {
        SState { scopes: self.environment@, output: vals_view(self.output@) }
    }
}

impl Evaluator {
    /// A fresh evaluator over a root scope holding the native functions.
    pub fn new() -> (r: Evaluator)
        ensures
            r@ == initial_state(),
    {
        let r = Evaluator { environment: Environment::new_environment(), output: Vec::new() };
        proof {
            assert(r@.output =~= initial_state().output);
        }
        r
    }

    /// The values written by `tellme` so far, in order.
    pub fn output(&self) -> (r: &Vec<Object>)
        ensures
            vals_view(r@) == self@.output,
    {
        &self.output
    }

    /// Evaluate a program against the root scope: statements in sequence,
    /// stopping early to unwrap a top-level `return` or to report an error.
    #[verifier::spinoff_prover]
    pub fn eval_program(&mut self, program: Program) -> (r: Object)
        requires
            old(self)@.scopes.len() > 0,
        ensures
            ({
                let (st2, v) = eval_program_spec(old(self)@, program@, MAX_DEPTH as nat);
                final(self)@ == st2 && r@ == v
            }),
            final(self)@.scopes.len() >= old(self)@.scopes.len(),
            forall|j: int|
                0 < j < old(self)@.scopes.len() ==> final(self)@.scopes[j] == old(
                    self,
                )@.scopes[j],
    {
        self.eval_program_with(program, MAX_DEPTH)
    }

    #[verifier::spinoff_prover]
    fn eval_program_with(&mut self, program: Program, depth: u64) -> (r: Object)
        requires
            old(self)@.scopes.len() > 0,
        ensures
            ({
                let (st2, v) = eval_program_spec(old(self)@, program@, depth as nat);
                final(self)@ == st2 && r@ == v
            }),
            final(self)@.scopes.len() >= old(self)@.scopes.len(),
            forall|j: int|
                0 < j < old(self)@.scopes.len() ==> final(self)@.scopes[j] == old(
                    self,
                )@.scopes[j],
    {
        proof {
            reveal(eval_expr_spec);
        }
        let mut result = null_object();
        let ghost pview = program@;
        let stmts = program.statements;
        let ghost ss = stmts_view(stmts@);
        let n = stmts.len();
        proof {
            lemma_stmts_view_len(stmts@);
            assert(ss == pview.statements);
        }
        let mut i: usize = 0;
        while i < n
            invariant
                n == stmts@.len(),
                ss == stmts_view(stmts@),
                ss == program@.statements,
                ss.len() == n,
                i <= n,
                self@.scopes.len() > 0,
                self@.scopes.len() >= old(self)@.scopes.len(),
                forall|j: int|
                    0 < j < old(self)@.scopes.len() ==> self@.scopes[j] == old(self)@.scopes[j],
                !is_ret_or_err(result@),
                eval_program_stmts_spec(old(self)@, ss, 0, SVal::Null, depth as nat)
                    == eval_program_stmts_spec(self@, ss, i as int, result@, depth as nat),
            decreases n - i,
        {
            proof {
                lemma_stmts_view_index(stmts@, i as int);
            }
            let ghost pre = self@;
            let ghost acc = result@;
            let value = self.eval_statement(0, &stmts[i], depth);
            proof {
                lemma_program_step(pre, ss, i as int, acc, depth as nat);
            }
            if is_ret_or_err_exec(&value) {
                return unwrap_return_exec(value);
            }
            result = value;
            i = i + 1;
        }
        result
    }

    #[verifier::spinoff_prover]
    fn eval_statement(&mut self, cur: usize, stmt: &StatementNode, depth: u64) -> (r: Object)
        requires
            cur < old(self)@.scopes.len(),
        ensures
            ({
                let (st2, v) = eval_stmt_spec(old(self)@, cur as int, stmt_view(*stmt), depth as nat);
                final(self)@ == st2 && r@ == v
            }),
            final(self)@.scopes.len() >= old(self)@.scopes.len(),
            forall|j: int|
                0 <= j < old(self)@.scopes.len() && j != cur ==> final(self)@.scopes[j] == old(
                    self,
                )@.scopes[j],
        decreases depth, 1int, *stmt, 3int,
    {
        proof {
            lemma_stmt_view_unfold(*stmt);
        }
        match stmt {
            StatementNode::Expression(exp_stmt) => self.eval_expression(
                cur,
                &exp_stmt.expression,
                depth,
            ),
            StatementNode::Return(return_stmt) => self.eval_return_statement(
                cur,
                return_stmt,
                depth,
            ),
            StatementNode::Say(say_stmt) => self.eval_say_statement(cur, say_stmt, depth),
            StatementNode::Block(_) => null_object(),
        }
    }

    #[verifier::spinoff_prover]
    fn eval_return_statement(&mut self, cur: usize, return_stmt: &ReturnStatement, depth: u64) -> (
        r: Object)
        requires
            cur < old(self)@.scopes.len(),
        ensures
            ({
                let s = SStmt::Return(
                    SReturn {
                        token: return_stmt.token@,
                        return_value: opt_expr_view(return_stmt.return_value),
                    },
                );
                let (st2, v) = eval_stmt_spec(old(self)@, cur as int, s, depth as nat);
                final(self)@ == st2 && r@ == v
            }),
            final(self)@.scopes.len() >= old(self)@.scopes.len(),
            forall|j: int|
                0 <= j < old(self)@.scopes.len() && j != cur ==> final(self)@.scopes[j] == old(
                    self,
                )@.scopes[j],
        decreases depth, 1int, *return_stmt, 2int,
    {
        proof {
            reveal(eval_expr_spec);
        }
        let value = self.eval_expression(cur, &return_stmt.return_value, depth);
        if is_error_exec(&value) {
            return value;
        }
        make_return(value)
    }

    #[verifier::spinoff_prover]
    fn eval_say_statement(&mut self, cur: usize, say_stmt: &SayStatement, depth: u64) -> (r:
        Object)
        requires
            cur < old(self)@.scopes.len(),
        ensures
            ({
                let s = SStmt::Say(
                    SSay {
                        token: say_stmt.token@,
                        name: ident_view(say_stmt.name),
                        value: opt_expr_view(say_stmt.value),
                    },
                );
                let (st2, v) = eval_stmt_spec(old(self)@, cur as int, s, depth as nat);
                final(self)@ == st2 && r@ == v
            }),
            final(self)@.scopes.len() >= old(self)@.scopes.len(),
            forall|j: int|
                0 <= j < old(self)@.scopes.len() && j != cur ==> final(self)@.scopes[j] == old(
                    self,
                )@.scopes[j],
        decreases depth, 1int, *say_stmt, 2int,
    {
        proof {
            reveal(eval_expr_spec);
        }
        let value = self.eval_expression(cur, &say_stmt.value, depth);
        if is_error_exec(&value) {
            return value;
        }
        let name = say_stmt.name.value.clone();
        let stored = self.environment.set(cur, name, value);
        match stored {
            Option::Some(v) => v,
            Option::None => null_object(),
        }
    }
    /// Evaluate an optional expression; an absent one is Null.
    #[verifier::spinoff_prover]
    fn eval_expression(&mut self, cur: usize, expression: &Option<ExpressionNode>, depth: u64) -> (
        r: Object)
        requires
            cur < old(self)@.scopes.len(),
        ensures
            ({
                let (st2, v) = eval_opt_expr_spec(
                    old(self)@,
                    cur as int,
                    opt_expr_view(*expression),
                    depth as nat,
                );
                final(self)@ == st2 && r@ == v
            }),
            final(self)@.scopes.len() >= old(self)@.scopes.len(),
            forall|j: int|
                0 <= j < old(self)@.scopes.len() && j != cur ==> final(self)@.scopes[j] == old(
                    self,
                )@.scopes[j],
        decreases depth, 1int, *expression, 2int,
    {
        proof {
            reveal(eval_expr_spec);
        }
        match expression {
            Option::None => null_object(),
            Option::Some(exp) => self.eval_expr_node(cur, exp, depth),
        }
    }

    #[verifier::spinoff_prover]
    #[verifier::rlimit(100)]
    fn eval_expr_node(&mut self, cur: usize, exp: &ExpressionNode, depth: u64) -> (r: Object)
        requires
            cur < old(self)@.scopes.len(),
        ensures
            ({
                let (st2, v) = eval_expr_spec(old(self)@, cur as int, expr_view(*exp), depth as nat);
                final(self)@ == st2 && r@ == v
            }),
            final(self)@.scopes.len() >= old(self)@.scopes.len(),
            forall|j: int|
                0 <= j < old(self)@.scopes.len() && j != cur ==> final(self)@.scopes[j] == old(
                    self,
                )@.scopes[j],
        decreases depth, 1int, *exp, 1int,
    {
        proof {
            reveal(eval_expr_spec);
            reveal(crate::ast::expr_view);
            reveal(val_view);
        }
        match exp {
            ExpressionNode::Empty => Object::Null,
            ExpressionNode::Integer(int_lit) => Object::Integer(int_lit.value),
            ExpressionNode::BooleanNode(b) => Object::Boolean(b.value),
            ExpressionNode::StringExp(s) => Object::StringObject(s.value.clone()),
            ExpressionNode::IdentifierNode(identifier) => self.eval_identifier(cur, identifier),
            ExpressionNode::Prefix(prefix_exp) => {
                let right = self.eval_expr_node(cur, &prefix_exp.right, depth);
                if is_error_exec(&right) {
                    return right;
                }
                eval_prefix_expression(prefix_exp.operator.clone(), right)
            },
            ExpressionNode::Infix(infix_exp) => {
                let left = self.eval_expr_node(cur, &infix_exp.left, depth);
                if is_error_exec(&left) {
                    return left;
                }
                let right = self.eval_expr_node(cur, &infix_exp.right, depth);
                if is_error_exec(&right) {
                    return right;
                }
                eval_infix_expression(infix_exp.operator.clone(), &left, &right)
            },
            ExpressionNode::IfExpressionNode(if_exp) => self.eval_if_expression(cur, if_exp, depth),
            ExpressionNode::Function(function_literal) => Object::Function(
                Function {
                    parameters: crate::ast::clone_idents(&function_literal.parameters),
                    body: crate::ast::clone_block(&function_literal.body),
                    environment: cur,
                },
            ),
            ExpressionNode::Call(call_exp) => {
                let function = self.eval_expr_node(cur, &call_exp.function, depth);
                if is_error_exec(&function) {
                    return function;
                }
                let arguments = self.eval_expressions(cur, &call_exp.arguments, depth);
                proof {
                    lemma_vals_view_len(arguments@);
                    if arguments@.len() == 1 {
                        lemma_vals_view_index(arguments@, 0);
                    }
                }
                if arguments.len() == 1 && is_error_exec(&arguments[0]) {
                    return clone_object(&arguments[0]);
                }
                self.apply_function(function, arguments, depth)
            },
            ExpressionNode::Array(array_literal) => {
                let elements = self.eval_expressions(cur, &array_literal.elements, depth);
                proof {
                    lemma_vals_view_len(elements@);
                    if elements@.len() == 1 {
                        lemma_vals_view_index(elements@, 0);
                    }
                }
                if elements.len() == 1 && is_error_exec(&elements[0]) {
                    return clone_object(&elements[0]);
                }
                Object::Array(elements)
            },
            ExpressionNode::Index(index_exp) => {
                let left = self.eval_expr_node(cur, &index_exp.left, depth);
                if is_error_exec(&left) {
                    return left;
                }
                let index = self.eval_expr_node(cur, &index_exp.index, depth);
                if is_error_exec(&index) {
                    return index;
                }
                eval_index_expression(left, index)
            },
            ExpressionNode::Dictionary(dictionary) => {
                let pairs = self.eval_dict_pairs(cur, &dictionary.pairs, depth);
                match pairs {
                    Result::Ok(entries) => Object::DictObject(DictStruct { pairs: entries }),
                    Result::Err(e) => e,
                }
            },
        }
    }

    #[verifier::spinoff_prover]
    fn eval_identifier(&self, cur: usize, identifier: &Identifier) -> (r: Object)
        ensures
            r@ == match lookup_spec(self@.scopes, cur as int, ident_view(*identifier).value) {
                Option::Some(v) => v,
                Option::None => SVal::Error(
                    msg_identifier_not_found(ident_view(*identifier).value),
                ),
            },
    {
        let value = self.environment.get(cur, &identifier.value);
        match value {
            Option::Some(v) => v,
            Option::None => {
                proof {
                    reveal(val_view);
                }
                let mut m = String::from_str("identifier not found: ");
                m.append(identifier.value.as_str());
                proof {
                    assert(m@ =~= msg_identifier_not_found(ident_view(*identifier).value));
                }
                Object::Error(m)
            },
        }
    }

    #[verifier::spinoff_prover]
    fn eval_if_expression(&mut self, cur: usize, exp: &IfExpression, depth: u64) -> (r: Object)
        requires
            cur < old(self)@.scopes.len(),
        ensures
            ({
                let (st2, v) = eval_expr_spec(
                    old(self)@,
                    cur as int,
                    expr_view(ExpressionNode::IfExpressionNode(*exp)),
                    depth as nat,
                );
                final(self)@ == st2 && r@ == v
            }),
            final(self)@.scopes.len() >= old(self)@.scopes.len(),
            forall|j: int|
                0 <= j < old(self)@.scopes.len() && j != cur ==> final(self)@.scopes[j] == old(
                    self,
                )@.scopes[j],
        decreases depth, 1int, *exp, 0int,
    {
        proof {
            reveal(eval_expr_spec);
            reveal(crate::ast::expr_view);
        }
        let condition = self.eval_expr_node(cur, &exp.condition, depth);
        if is_error_exec(&condition) {
            return condition;
        }
        if is_truthy(condition) {
            self.eval_block_statement(cur, &exp.consequence, depth)
        } else {
            match &exp.alternative {
                Option::Some(alternative) => self.eval_block_statement(cur, alternative, depth),
                Option::None => null_object(),
            }
        }
    }

    #[verifier::spinoff_prover]
    fn eval_expressions(&mut self, cur: usize, expressions: &Vec<ExpressionNode>, depth: u64) -> (
        r: Vec<Object>)
        requires
            cur < old(self)@.scopes.len(),
        ensures
            ({
                let (st2, vs) = eval_exprs_spec(
                    old(self)@,
                    cur as int,
                    exprs_view(expressions@),
                    0,
                    Seq::empty(),
                    depth as nat,
                );
                final(self)@ == st2 && vals_view(r@) == vs
            }),
            final(self)@.scopes.len() >= old(self)@.scopes.len(),
            forall|j: int|
                0 <= j < old(self)@.scopes.len() && j != cur ==> final(self)@.scopes[j] == old(
                    self,
                )@.scopes[j],
        decreases depth, 1int, *expressions, 0int,
    {
        let ghost es = exprs_view(expressions@);
        let ghost st0 = self@;
        proof {
            reveal(eval_expr_spec);
            lemma_exprs_view_len(expressions@);
        }
        let mut result: Vec<Object> = Vec::new();
        let n = expressions.len();
        let mut i: usize = 0;
        while i < n
            invariant
                n == expressions@.len(),
                es == exprs_view(expressions@),
                es.len() == n,
                i <= n,
                st0 == old(self)@,
                cur < self@.scopes.len(),
                self@.scopes.len() >= st0.scopes.len(),
                forall|j: int|
                    0 <= j < st0.scopes.len() && j != cur ==> self@.scopes[j] == st0.scopes[j],
                eval_exprs_spec(st0, cur as int, es, 0, Seq::empty(), depth as nat)
                    == eval_exprs_spec(
                    self@,
                    cur as int,
                    es,
                    i as int,
                    vals_view(result@),
                    depth as nat,
                ),
            decreases n - i,
        {
            proof {
                reveal(eval_expr_spec);
                lemma_exprs_view_index(expressions@, i as int);
                lemma_vals_view_len(result@);
            }
            let evaluated = self.eval_expr_node(cur, &expressions[i], depth);
            if is_error_exec(&evaluated) {
                let mut err: Vec<Object> = Vec::new();
                err.push(evaluated);
                proof {
                    reveal(val_view);
                    assert(err@.drop_last() =~= Seq::<Object>::empty());
                    assert(vals_view(err@) == vals_view(err@.drop_last()).push(
                        val_view(err@.last()),
                    ));
                    assert(vals_view(err@) =~= seq![val_view(err@[0])]);
                }
                return err;
            }
            let ghost prev = result@;
            result.push(evaluated);
            i = i + 1;
            proof {
                reveal(val_view);
                assert(result@.drop_last() =~= prev);
                assert(vals_view(result@) == vals_view(prev).push(val_view(result@.last())));
            }
        }
        result
    }

    #[verifier::spinoff_prover]
    fn eval_dict_pairs(
        &mut self,
        cur: usize,
        pairs: &Vec<(ExpressionNode, ExpressionNode)>,
        depth: u64,
    ) -> (r: Result<Vec<(DictKey, DictPair)>, Object>)
        requires
            cur < old(self)@.scopes.len(),
        ensures
            ({
                let (st2, res) = eval_pairs_spec(
                    old(self)@,
                    cur as int,
                    pairs_view(pairs@),
                    0,
                    Seq::empty(),
                    depth as nat,
                );
                final(self)@ == st2 && (match (r, res) {
                    (Result::Ok(v), Result::Ok(entries)) => entries_view(v@) == entries,
                    (Result::Err(e), Result::Err(sv)) => e@ == sv,
                    _ => false,
                })
            }),
            final(self)@.scopes.len() >= old(self)@.scopes.len(),
            forall|j: int|
                0 <= j < old(self)@.scopes.len() && j != cur ==> final(self)@.scopes[j] == old(
                    self,
                )@.scopes[j],
        decreases depth, 1int, *pairs, 0int,
    {
        let ghost ps = pairs_view(pairs@);
        let ghost st0 = self@;
        proof {
            reveal(eval_expr_spec);
            lemma_pairs_view_len(pairs@);
        }
        let mut result: Vec<(DictKey, DictPair)> = Vec::new();
        let n = pairs.len();
        let mut i: usize = 0;
        while i < n
            invariant
                n == pairs@.len(),
                ps == pairs_view(pairs@),
                ps.len() == n,
                i <= n,
                st0 == old(self)@,
                cur < self@.scopes.len(),
                self@.scopes.len() >= st0.scopes.len(),
                forall|j: int|
                    0 <= j < st0.scopes.len() && j != cur ==> self@.scopes[j] == st0.scopes[j],
                eval_pairs_spec(st0, cur as int, ps, 0, Seq::empty(), depth as nat)
                    == eval_pairs_spec(
                    self@,
                    cur as int,
                    ps,
                    i as int,
                    entries_view(result@),
                    depth as nat,
                ),
            decreases n - i,
        {
            proof {
                reveal(eval_expr_spec);
                lemma_pairs_view_index(pairs@, i as int);
            }
            let key = self.eval_expr_node(cur, &pairs[i].0, depth);
            if is_error_exec(&key) {
                return Result::Err(key);
            }
            let norm = object_dict_key(&key);
            match norm {
                Result::Err(err) => {
                    proof {
                        reveal(val_view);
                    }
                    return Result::Err(Object::Error(err));
                },
                Result::Ok(nk) => {
                    let value = self.eval_expr_node(cur, &pairs[i].1, depth);
                    if is_error_exec(&value) {
                        return Result::Err(value);
                    }
                    dict_insert(&mut result, nk, key, value);
                    i = i + 1;
                },
            }
        }
        Result::Ok(result)
    }

    #[verifier::spinoff_prover]
    fn eval_block_statement(&mut self, cur: usize, block: &BlockStatement, depth: u64) -> (r:
        Object)
        requires
            cur < old(self)@.scopes.len(),
        ensures
            ({
                let (st2, v) = eval_block_spec(old(self)@, cur as int, block_view(*block), depth as nat);
                final(self)@ == st2 && r@ == v
            }),
            final(self)@.scopes.len() >= old(self)@.scopes.len(),
            forall|j: int|
                0 <= j < old(self)@.scopes.len() && j != cur ==> final(self)@.scopes[j] == old(
                    self,
                )@.scopes[j],
        decreases depth, 1int, *block, 0int,
    {
        proof {
            reveal(eval_expr_spec);
            lemma_block_view_statements(*block);
            lemma_stmts_view_len(block.statements@);
        }
        let mut result = null_object();
        let ghost ss = stmts_view(block.statements@);
        let n = block.statements.len();
        let mut i: usize = 0;
        while i < n
            invariant
                n == block.statements@.len(),
                ss == stmts_view(block.statements@),
                ss == block_view(*block).statements,
                ss.len() == n,
                i <= n,
                cur < self@.scopes.len(),
                self@.scopes.len() >= old(self)@.scopes.len(),
                forall|j: int|
                    0 <= j < old(self)@.scopes.len() && j != cur ==> self@.scopes[j] == old(
                        self,
                    )@.scopes[j],
                !is_ret_or_err(result@),
                eval_stmts_spec(old(self)@, cur as int, ss, 0, SVal::Null, depth as nat)
                    == eval_stmts_spec(self@, cur as int, ss, i as int, result@, depth as nat),
            decreases n - i,
        {
            proof {
                reveal(eval_expr_spec);
                lemma_stmts_view_index(block.statements@, i as int);
            }
            let value = self.eval_statement(cur, &block.statements[i], depth);
            if is_ret_or_err_exec(&value) {
                return value;
            }
            result = value;
            i = i + 1;
        }
        result
    }

    #[verifier::spinoff_prover]
    #[verifier::rlimit(60)]
    fn apply_function(&mut self, function: Object, arguments: Vec<Object>, depth: u64) -> (r:
        Object)
        ensures
            ({
                let (st2, v) = apply_spec(
                    old(self)@,
                    function@,
                    vals_view(arguments@),
                    depth as nat,
                );
                final(self)@ == st2 && r@ == v
            }),
            final(self)@.scopes.len() >= old(self)@.scopes.len(),
            forall|j: int|
                0 <= j < old(self)@.scopes.len() ==> final(self)@.scopes[j] == old(
                    self,
                )@.scopes[j],
        decreases depth, 0int, function, 0int,
    {
        proof {
            reveal(eval_expr_spec);
            reveal(val_view);
            lemma_vals_view_len(arguments@);
        }
        match function {
            Object::Function(function) => {
                proof {
                    lemma_idents_view_len(function.parameters@);
                }
                if function.parameters.len() != arguments.len() {
                    return wrong_args_err(arguments.len(), function.parameters.len() as u64);
                }
                if function.environment >= self.environment.scopes_len() {
                    let m = String::from_str("function environment no longer exists");
                    proof {
                        assert(m@ =~= msg_lost_environment());
                    }
                    return Object::Error(m);
                }
                if depth == 0 {
                    let m = String::from_str("recursion depth limit exceeded");
                    proof {
                        assert(m@ =~= msg_depth_exceeded());
                    }
                    return Object::Error(m);
                }
                let idx = self.extended_function_environment(&function, arguments);
                let evaluated = self.eval_block_statement(idx, &function.body, depth - 1);
                unwrap_return_exec(evaluated)
            },
            Object::Builtin(kind) => {
                if kind == BuiltinKind::TellMe {
                    let ghost out0 = self@.output;
                    let ghost argsv = vals_view(arguments@);
                    let n = arguments.len();
                    let mut i: usize = 0;
                    while i < n
                        invariant
                            n == arguments@.len(),
                            argsv == vals_view(arguments@),
                            argsv.len() == n,
                            i <= n,
                            self@.scopes == old(self)@.scopes,
                            push_all_spec(out0, argsv, 0) == push_all_spec(
                                self@.output,
                                argsv,
                                i as int,
                            ),
                        decreases n - i,
                    {
                        proof {
                            lemma_vals_view_index(arguments@, i as int);
                        }
                        let ghost prev_out = self.output@;
                        let item = clone_object(&arguments[i]);
                        self.output.push(item);
                        i = i + 1;
                        proof {
                            reveal(val_view);
                            assert(self.output@.drop_last() =~= prev_out);
                            assert(vals_view(self.output@) == vals_view(prev_out).push(
                                val_view(self.output@.last()),
                            ));
                        }
                    }
                    Object::Null
                } else {
                    apply_builtin(kind, arguments)
                }
            },
            other => {
                let mut m = String::from_str("not a function: ");
                let t = other.object_type();
                m.append(t.as_str());
                proof {
                    assert(m@ =~= msg_not_a_function(type_of(other@)));
                }
                Object::Error(m)
            },
        }
    }

    /// Allocate the call scope over the function's captured scope and bind
    /// each parameter positionally to the matching evaluated argument.
    #[verifier::spinoff_prover]
    fn extended_function_environment(&mut self, function: &Function, arguments: Vec<Object>) -> (
        idx: usize)
        requires
            function.environment < old(self)@.scopes.len(),
            idents_view(function.parameters@).len() == vals_view(arguments@).len(),
        ensures
            final(self)@.scopes == bind_params_spec(
                enclose_spec(old(self)@.scopes, function.environment as int),
                old(self)@.scopes.len() as int,
                idents_view(function.parameters@),
                vals_view(arguments@),
                0,
            ),
            final(self)@.output == old(self)@.output,
            idx == old(self)@.scopes.len(),
            idx < final(self)@.scopes.len(),
            final(self)@.scopes.len() == old(self)@.scopes.len() + 1,
            forall|j: int|
                0 <= j < old(self)@.scopes.len() ==> final(self)@.scopes[j] == old(
                    self,
                )@.scopes[j],
    {
        let ghost params = idents_view(function.parameters@);
        let ghost args = vals_view(arguments@);
        proof {
            lemma_idents_view_len(function.parameters@);
            lemma_vals_view_len(arguments@);
        }
        let idx = self.environment.new_enclosed_evironment(function.environment);
        let ghost base = self@.scopes;
        let n = function.parameters.len();
        let mut i: usize = 0;
        while i < n
            invariant
                n == function.parameters@.len(),
                n == arguments@.len(),
                params == idents_view(function.parameters@),
                args == vals_view(arguments@),
                params.len() == n,
                args.len() == n,
                i <= n,
                idx < self@.scopes.len(),
                self@.output == old(self)@.output,
                self@.scopes.len() == base.len(),
                bind_params_spec(base, idx as int, params, args, 0) == bind_params_spec(
                    self@.scopes,
                    idx as int,
                    params,
                    args,
                    i as int,
                ),
                forall|j: int| 0 <= j < base.len() && j != idx ==> self@.scopes[j] == base[j],
            decreases n - i,
        {
            proof {
                lemma_idents_view_index(function.parameters@, i as int);
                lemma_vals_view_index(arguments@, i as int);
            }
            let name = crate::ast::clone_ident(&function.parameters[i]);
            let value = clone_object(&arguments[i]);
            let _stored = self.environment.set(idx, name.value, value);
            i = i + 1;
        }
        proof {
            assert forall|j: int| 0 <= j < old(self)@.scopes.len() implies self@.scopes[j] == old(
                self,
            )@.scopes[j] by {
                assert(base[j] == old(self)@.scopes[j]);
            }
        }
        idx
    }
}

// ---------------------------------------------------------------------------
// Helpers without evaluation state
// ---------------------------------------------------------------------------

/// Whether a value is the internal error carrier.
pub fn is_error_exec(object: &Object) -> (r: bool)
    ensures
        r == is_error_spec(object@),
{
    proof {
        reveal(val_view);
    }
    match object {
        Object::Error(_) => true,
        _ => false,
    }
}

fn is_ret_or_err_exec(object: &Object) -> (r: bool)
    ensures
        r == is_ret_or_err(object@),
{
    proof {
        reveal(val_view);
    }
    match object {
        Object::Error(_) => true,
        Object::ReturnValue(_) => true,
        _ => false,
    }
}

fn matches_return(object: &Object) -> (r: bool)
    ensures
        r == (object@ is Return),
{
    proof {
        reveal(val_view);
    }
    match object {
        Object::ReturnValue(_) => true,
        _ => false,
    }
}

fn make_return(value: Object) -> (r: Object)
    ensures
        r@ == SVal::Return(Box::new(value@)),
{
    proof {
        reveal(val_view);
    }
    Object::ReturnValue(Box::new(value))
}

fn null_object() -> (r: Object)
    ensures
        r@ == SVal::Null,
{
    proof {
        reveal(val_view);
    }
    Object::Null
}

fn unwrap_return_exec(object: Object) -> (r: Object)
    ensures
        r@ == unwrap_return_spec(object@),
{
    proof {
        reveal(val_view);
    }
    match object {
        Object::ReturnValue(ret) => *ret,
        other => other,
    }
}

/// Truth test: Null and `false` are falsy, everything else truthy.
pub fn is_truthy(object: Object) -> (r: bool)
    ensures
        r == truthy_spec(object@),
{
    proof {
        reveal(val_view);
    }
    match object {
        Object::Null => false,
        Object::Boolean(b) => b,
        _ => true,
    }
}

pub fn native_bool_to_boolean_object(b: bool) -> (r: Object)
    ensures
        r@ == SVal::Bool(b),
{
    proof {
        reveal(val_view);
    }
    Object::Boolean(b)
}

/// Prefix `!` is a truth-test negation on any value; prefix `-` negates an
/// integer and is an error on anything else.
#[verifier::spinoff_prover]
pub fn eval_prefix_expression(operator: String, right: Object) -> (r: Object)
    ensures
        r@ == eval_prefix_spec(operator@, right@),
{
    let bang = String::from_str("!");
    let minus = String::from_str("-");
    if operator == bang {
        eval_bang_operator_expression(right)
    } else if operator == minus {
        eval_minus_prefix_operator_expression(right)
    } else {
        proof {
            reveal(val_view);
        }
        let mut m = String::from_str("unknown operator: ");
        m.append(operator.as_str());
        let t = right.object_type();
        m.append(t.as_str());
        proof {
            assert(m@ =~= msg_unknown_prefix(operator@, type_of(right@)));
        }
        Object::Error(m)
    }
}

pub fn eval_bang_operator_expression(right: Object) -> (r: Object)
    ensures
        r@ == bang_spec(right@),
{
    proof {
        reveal(val_view);
    }
    match right {
        Object::Boolean(true) => Object::Boolean(false),
        Object::Boolean(false) => Object::Boolean(true),
        Object::Null => Object::Boolean(true),
        _ => Object::Boolean(false),
    }
}

pub fn eval_minus_prefix_operator_expression(right: Object) -> (r: Object)
    ensures
        r@ == neg_spec(right@),
{
    proof {
        reveal(val_view);
    }
    match right {
        Object::Integer(i) => Object::Integer(0i64.wrapping_sub(i)),
        other => {
            let mut m = String::from_str("unknown operator: -");
            let t = other.object_type();
            m.append(t.as_str());
            proof {
                reveal_strlit("-");
                reveal_strlit("unknown operator: ");
                reveal_strlit("unknown operator: -");
                assert(m@ =~= msg_unknown_prefix("-"@, type_of(other@)));
            }
            Object::Error(m)
        },
    }
}

/// Infix dispatch on two evaluated operands.
#[verifier::spinoff_prover]
pub fn eval_infix_expression(operator: String, left: &Object, right: &Object) -> (r: Object)
    ensures
        r@ == eval_infix_spec(operator@, left@, right@),
{
    proof {
        reveal(val_view);
    }
    let lt = left.object_type();
    let rt = right.object_type();
    if !(lt == rt) {
        let mut m = String::from_str("type mismatch: ");
        m.append(lt.as_str());
        m.append(" ");
        m.append(operator.as_str());
        m.append(" ");
        m.append(rt.as_str());
        proof {
            assert(m@ =~= msg_type_mismatch(type_of(left@), operator@, type_of(right@)));
        }
        return Object::Error(m);
    }
    let plus = String::from_str("+");
    let eq_op = String::from_str("==");
    let neq_op = String::from_str("!=");
    match (left, right) {
        (Object::Integer(a), Object::Integer(b)) => eval_integer_infix_expression(
            operator,
            *a,
            *b,
        ),
        (Object::StringObject(a), Object::StringObject(b)) => {
            if operator == plus {
                let mut s = a.clone();
                s.append(b.as_str());
                Object::StringObject(s)
            } else {
                unknown_infix_err(&operator, left, right)
            }
        },
        (Object::Boolean(a), Object::Boolean(b)) => {
            if operator == eq_op {
                native_bool_to_boolean_object(*a == *b)
            } else if operator == neq_op {
                native_bool_to_boolean_object(*a != *b)
            } else {
                unknown_infix_err(&operator, left, right)
            }
        },
        _ => unknown_infix_err(&operator, left, right),
    }
}

fn unknown_infix_err(operator: &String, left: &Object, right: &Object) -> (r: Object)
    ensures
        r@ == SVal::Error(msg_unknown_infix(type_of(left@), operator@, type_of(right@))),
{
    proof {
        reveal(val_view);
    }
    let mut m = String::from_str("unknown operator: ");
    let lt = left.object_type();
    m.append(lt.as_str());
    m.append(" ");
    m.append(operator.as_str());
    m.append(" ");
    let rt = right.object_type();
    m.append(rt.as_str());
    proof {
        assert(m@ =~= msg_unknown_infix(type_of(left@), operator@, type_of(right@)));
    }
    Object::Error(m)
}

/// Integer arithmetic wraps on overflow; division truncates toward zero and
/// reports division by zero as an error.
#[verifier::spinoff_prover]
pub fn eval_integer_infix_expression(operator: String, left: i64, right: i64) -> (r: Object)
    ensures
        r@ == eval_integer_infix_spec(operator@, left, right),
{
    proof {
        reveal(val_view);
    }
    let plus = String::from_str("+");
    let minus = String::from_str("-");
    let star = String::from_str("*");
    let slash = String::from_str("/");
    let lt_op = String::from_str("<");
    let gt_op = String::from_str(">");
    let eq_op = String::from_str("==");
    let neq_op = String::from_str("!=");
    if operator == plus {
        Object::Integer(left.wrapping_add(right))
    } else if operator == minus {
        Object::Integer(left.wrapping_sub(right))
    } else if operator == star {
        Object::Integer(left.wrapping_mul(right))
    } else if operator == slash {
        if right == 0 {
            let m = String::from_str("division by zero");
            proof {
                assert(m@ =~= msg_division_by_zero());
            }
            Object::Error(m)
        } else if left == i64::MIN && right == -1 {
            Object::Integer(i64::MIN)
        } else {
            Object::Integer(div_trunc_exec(left, right))
        }
    } else if operator == lt_op {
        native_bool_to_boolean_object(left < right)
    } else if operator == gt_op {
        native_bool_to_boolean_object(left > right)
    } else if operator == eq_op {
        native_bool_to_boolean_object(left == right)
    } else if operator == neq_op {
        native_bool_to_boolean_object(left != right)
    } else {
        Object::Null
    }
}

#[verifier::spinoff_prover]
fn div_trunc_exec(a: i64, b: i64) -> (r: i64)
    requires
        b != 0,
        !(a == i64::MIN && b == -1),
    ensures
        r as int == div_trunc(a as int, b as int),
{
    let neg: bool = (a < 0) != (b < 0);
    let ma: u64 = if a < 0 {
        ((-(a + 1)) as u64) + 1
    } else {
        a as u64
    };
    let mb: u64 = if b < 0 {
        ((-(b + 1)) as u64) + 1
    } else {
        b as u64
    };
    let q: u64 = ma / mb;
    proof {
        assert(ma as int == if a < 0 { -(a as int) } else { a as int });
        assert(mb as int == if b < 0 { -(b as int) } else { b as int });
    }
    if neg {
        if q == 0x8000_0000_0000_0000u64 {
            i64::MIN
        } else {
            proof {
                assert(q < 0x8000_0000_0000_0000u64);
            }
            -(q as i64)
        }
    } else {
        proof {
            if mb >= 2 {
                assert(q as int <= ma as int / 2) by (nonlinear_arith)
                    requires
                        q as int == ma as int / mb as int,
                        mb >= 2,
                        ma as int >= 0,
                ;
            }
            assert(q <= 0x7fff_ffff_ffff_ffffu64);
        }
        q as i64
    }
}

/// Indexing an evaluated target with an evaluated index.
#[verifier::spinoff_prover]
pub fn eval_index_expression(left: Object, index: Object) -> (r: Object)
    ensures
        r@ == eval_index_spec(left@, index@),
{
    proof {
        reveal(val_view);
    }
    match (left, index) {
        (Object::Array(elements), Object::Integer(idx)) => eval_array_index_expression(
            elements,
            idx,
        ),
        (Object::DictObject(d), key) => eval_hash_index_expression(d, key),
        (other, _) => {
            let mut m = String::from_str("index operator not supported: ");
            let t = other.object_type();
            m.append(t.as_str());
            proof {
                assert(m@ =~= msg_index_not_supported(type_of(other@)));
            }
            Object::Error(m)
        },
    }
}

/// Array indexing is bounds-checked: any index out of range, negative
/// included, yields Null and never an error.
#[verifier::spinoff_prover]
pub fn eval_array_index_expression(elements: Vec<Object>, idx: i64) -> (r: Object)
    ensures
        r@ == eval_index_spec(SVal::Array(vals_view(elements@)), SVal::Int(idx)),
{
    proof {
        reveal(val_view);
        lemma_vals_view_len(elements@);
    }
    if idx < 0 || (idx as u64) >= (elements.len() as u64) {
        Object::Null
    } else {
        proof {
            lemma_vals_view_index(elements@, idx as int);
        }
        clone_object(&elements[idx as usize])
    }
}

/// Dictionary indexing: normalize the key, reject a non-hashable one, and
/// give Null on a miss.
#[verifier::spinoff_prover]
pub fn eval_hash_index_expression(dict: DictStruct, index: Object) -> (r: Object)
    ensures
        r@ == eval_index_spec(SVal::Dict(entries_view(dict.pairs@)), index@),
{
    proof {
        reveal(val_view);
    }
    let norm = object_dict_key(&index);
    match norm {
        Result::Err(m) => Object::Error(m),
        Result::Ok(nk) => {
            let pair = dict.get(&nk);
            match pair {
                Option::Some(p) => clone_object(&p.value),
                Option::None => Object::Null,
            }
        },
    }
}

} // verus!
