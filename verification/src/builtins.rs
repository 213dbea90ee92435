//! The native functions registered in the root scope, and their contracts:
//! each checks its own arity and argument types and signals violations as
//! ordinary `Error` values.

use vstd::prelude::*;

use crate::object::{
    clone_object, clone_objects, dec_int, lemma_vals_view_index, lemma_vals_view_len,
    lemma_vals_view_pointwise, type_of, u64_to_dec, usize_to_dec, val_view, vals_view, Object,
    SVal,
};

verus! {

/// Which native function a `Builtin` value denotes; the set is closed, so
/// the evaluator's contract can say exactly what a call returns.
#[derive(Debug, Clone, Copy, PartialEq, Eq, Structural)]
pub enum BuiltinKind {
    Len,
    First,
    Last,
    Rest,
    Push,
    TellMe,
}

/// The registry of native functions.
pub struct Builtin;

// ---------------------------------------------------------------------------
// Messages
// ---------------------------------------------------------------------------

pub open spec fn msg_wrong_args(got: int, want: int) -> Seq<char> {
    "wrong number of arguments. got="@ + dec_int(got) + ", want="@ + dec_int(want)
}

pub open spec fn msg_arg_not_supported(name: Seq<char>, t: Seq<char>) -> Seq<char> {
    "argument to '"@ + name + "' not supported, got="@ + t
}

pub fn wrong_args_err(got: usize, want: u64) -> (r: Object)
    ensures
        r@ == SVal::Error(msg_wrong_args(got as int, want as int)),
{
    let mut m = String::from_str("wrong number of arguments. got=");
    let g = usize_to_dec(got);
    m.append(g.as_str());
    m.append(", want=");
    let w = u64_to_dec(want);
    m.append(w.as_str());
    proof {
        assert(m@ =~= msg_wrong_args(got as int, want as int));
        reveal(val_view);
    }
    Object::Error(m)
}

fn arg_not_supported_err(name: &str, o: &Object) -> (r: Object)
    ensures
        r@ == SVal::Error(msg_arg_not_supported(name@, type_of(o@))),
{
    let mut m = String::from_str("argument to '");
    m.append(name);
    m.append("' not supported, got=");
    let t = o.object_type();
    m.append(t.as_str());
    proof {
        assert(m@ =~= msg_arg_not_supported(name@, type_of(o@)));
        reveal(val_view);
    }
    Object::Error(m)
}

// ---------------------------------------------------------------------------
// Contracts of the native functions
// ---------------------------------------------------------------------------

/// A sequence length as a 64-bit signed integer; lengths beyond that range
/// cannot arise in a real process.
pub open spec fn len_as_i64(n: nat) -> i64 {
    if n > 0x7fff_ffff_ffff_ffff {
        0x7fff_ffff_ffff_ffffi64
    } else {
        n as i64
    }
}

/// `len`: the number of UTF-8 bytes of a string, or of elements of an
/// array.
pub open spec fn builtin_len_spec(args: Seq<SVal>) -> SVal {
    if args.len() != 1 {
        SVal::Error(msg_wrong_args(args.len() as int, 1))
    } else {
        match args[0] {
            SVal::Str(s) => SVal::Int(len_as_i64(vstd::utf8::encode_utf8(s).len())),
            SVal::Array(v) => SVal::Int(len_as_i64(v.len())),
            other => SVal::Error(msg_arg_not_supported("len"@, type_of(other))),
        }
    }
}

/// `first`: the first element of an array, Null when it is empty.
pub open spec fn builtin_first_spec(args: Seq<SVal>) -> SVal {
    if args.len() != 1 {
        SVal::Error(msg_wrong_args(args.len() as int, 1))
    } else {
        match args[0] {
            SVal::Array(v) => if v.len() > 0 {
                v[0]
            } else {
                SVal::Null
            },
            other => SVal::Error(msg_arg_not_supported("first"@, type_of(other))),
        }
    }
}

/// `last`: the last element of an array, Null when it is empty.
pub open spec fn builtin_last_spec(args: Seq<SVal>) -> SVal {
    if args.len() != 1 {
        SVal::Error(msg_wrong_args(args.len() as int, 1))
    } else {
        match args[0] {
            SVal::Array(v) => if v.len() > 0 {
                v.last()
            } else {
                SVal::Null
            },
            other => SVal::Error(msg_arg_not_supported("last"@, type_of(other))),
        }
    }
}

/// `rest`: all but the first element, Null when the array is empty.
pub open spec fn builtin_rest_spec(args: Seq<SVal>) -> SVal {
    if args.len() != 1 {
        SVal::Error(msg_wrong_args(args.len() as int, 1))
    } else {
        match args[0] {
            SVal::Array(v) => if v.len() > 0 {
                SVal::Array(v.drop_first())
            } else {
                SVal::Null
            },
            other => SVal::Error(msg_arg_not_supported("rest"@, type_of(other))),
        }
    }
}

/// `push`: a new array with the second argument appended.
pub open spec fn builtin_push_spec(args: Seq<SVal>) -> SVal {
    if args.len() != 2 {
        SVal::Error(msg_wrong_args(args.len() as int, 2))
    } else {
        match args[0] {
            SVal::Array(v) => SVal::Array(v.push(args[1])),
            other => SVal::Error(msg_arg_not_supported("push"@, type_of(other))),
        }
    }
}

/// What a native call returns; `tellme` only writes its arguments to the
/// output and returns Null, which the evaluator's state transition records.
pub open spec fn apply_builtin_spec(k: BuiltinKind, args: Seq<SVal>) -> SVal {
    match k {
        BuiltinKind::Len => builtin_len_spec(args),
        BuiltinKind::First => builtin_first_spec(args),
        BuiltinKind::Last => builtin_last_spec(args),
        BuiltinKind::Rest => builtin_rest_spec(args),
        BuiltinKind::Push => builtin_push_spec(args),
        BuiltinKind::TellMe => SVal::Null,
    }
}

/// The native-function contract of `len`, spelled out: exactly one
/// argument; a string gives its byte count, an array its element count;
/// any other argument type is rejected, as is any other arity.
pub proof fn lemma_len_contract(args: Seq<SVal>)
    ensures
        args.len() != 1 ==> builtin_len_spec(args) == SVal::Error(
            msg_wrong_args(args.len() as int, 1),
        ),
        args.len() == 1 && args[0] is Str ==> builtin_len_spec(args) == SVal::Int(
            len_as_i64(vstd::utf8::encode_utf8(args[0]->Str_0).len()),
        ),
        args.len() == 1 && args[0] is Array ==> builtin_len_spec(args) == SVal::Int(
            len_as_i64(args[0]->Array_0.len()),
        ),
        args.len() == 1 && !(args[0] is Str || args[0] is Array) ==> builtin_len_spec(args)
            == SVal::Error(msg_arg_not_supported("len"@, type_of(args[0]))),
{
}

// ---------------------------------------------------------------------------
// Implementations
// ---------------------------------------------------------------------------

pub fn builtin_len(arguments: Vec<Object>) -> (r: Object)
    ensures
        r@ == builtin_len_spec(vals_view(arguments@)),
{
    proof {
        reveal(val_view);
        broadcast use {lemma_vals_view_len, lemma_vals_view_index};

    }
    if arguments.len() != 1 {
        return wrong_args_err(arguments.len(), 1);
    }
    match &arguments[0] {
        Object::StringObject(s) => {
            proof {
                reveal(val_view);
                broadcast use vstd::slice::axiom_spec_len;

            }
            let bytes = s.as_str().as_bytes();
            let l = bytes.len();
            proof {
                assert(bytes@ == vstd::utf8::encode_utf8(s@));
            }
            let r = if (l as u64) > 0x7fff_ffff_ffff_ffffu64 {
                0x7fff_ffff_ffff_ffffi64
            } else {
                l as i64
            };
            Object::Integer(r)
        },
        Object::Array(v) => {
            proof {
                reveal(val_view);
                lemma_vals_view_len(v@);
            }
            let l = v.len();
            let r = if (l as u64) > 0x7fff_ffff_ffff_ffffu64 {
                0x7fff_ffff_ffff_ffffi64
            } else {
                l as i64
            };
            Object::Integer(r)
        },
        other => arg_not_supported_err("len", other),
    }
}

pub fn builtin_first(arguments: Vec<Object>) -> (r: Object)
    ensures
        r@ == builtin_first_spec(vals_view(arguments@)),
{
    proof {
        reveal(val_view);
        broadcast use {lemma_vals_view_len, lemma_vals_view_index};

    }
    if arguments.len() != 1 {
        return wrong_args_err(arguments.len(), 1);
    }
    match &arguments[0] {
        Object::Array(v) => {
            proof {
                reveal(val_view);
                lemma_vals_view_len(v@);
                if v@.len() > 0 {
                    lemma_vals_view_index(v@, 0);
                }
            }
            if v.len() > 0 {
                clone_object(&v[0])
            } else {
                Object::Null
            }
        },
        other => arg_not_supported_err("first", other),
    }
}

pub fn builtin_last(arguments: Vec<Object>) -> (r: Object)
    ensures
        r@ == builtin_last_spec(vals_view(arguments@)),
{
    proof {
        reveal(val_view);
        broadcast use {lemma_vals_view_len, lemma_vals_view_index};

    }
    if arguments.len() != 1 {
        return wrong_args_err(arguments.len(), 1);
    }
    match &arguments[0] {
        Object::Array(v) => {
            proof {
                reveal(val_view);
                lemma_vals_view_len(v@);
                if v@.len() > 0 {
                    lemma_vals_view_index(v@, v@.len() - 1);
                }
            }
            if v.len() > 0 {
                clone_object(&v[v.len() - 1])
            } else {
                Object::Null
            }
        },
        other => arg_not_supported_err("last", other),
    }
}

pub fn builtin_rest(arguments: Vec<Object>) -> (r: Object)
    ensures
        r@ == builtin_rest_spec(vals_view(arguments@)),
{
    proof {
        reveal(val_view);
        broadcast use {lemma_vals_view_len, lemma_vals_view_index};

    }
    if arguments.len() != 1 {
        return wrong_args_err(arguments.len(), 1);
    }
    match &arguments[0] {
        Object::Array(v) => {
            proof {
                reveal(val_view);
                lemma_vals_view_len(v@);
            }
            if v.len() > 0 {
                let mut out: Vec<Object> = Vec::new();
                let mut k: usize = 1;
                while k < v.len()
                    invariant
                        1 <= k <= v@.len(),
                        out@.len() == k - 1,
                        forall|j: int|
                            0 <= j < k - 1 ==> val_view(#[trigger] out@[j]) == val_view(
                                v@[j + 1],
                            ),
                    decreases v.len() - k,
                {
                    out.push(clone_object(&v[k]));
                    k = k + 1;
                }
                proof {
                    lemma_vals_view_pointwise(out@, v@.subrange(1, v@.len() as int));
                    assert(vals_view(v@).drop_first() =~= vals_view(
                        v@.subrange(1, v@.len() as int),
                    )) by {
                        broadcast use {lemma_vals_view_len, lemma_vals_view_index};

                    }
                    reveal(val_view);
                }
                Object::Array(out)
            } else {
                Object::Null
            }
        },
        other => arg_not_supported_err("rest", other),
    }
}

pub fn builtin_push(arguments: Vec<Object>) -> (r: Object)
    ensures
        r@ == builtin_push_spec(vals_view(arguments@)),
{
    proof {
        reveal(val_view);
        broadcast use {lemma_vals_view_len, lemma_vals_view_index};

    }
    if arguments.len() != 2 {
        return wrong_args_err(arguments.len(), 2);
    }
    match &arguments[0] {
        Object::Array(v) => {
            proof {
                reveal(val_view);
                lemma_vals_view_len(v@);
            }
            let mut out = clone_objects(v);
            let ghost cloned = out@;
            let item = clone_object(&arguments[1]);
            out.push(item);
            proof {
                assert(out@.drop_last() =~= cloned);
                assert(vals_view(out@) == vals_view(out@.drop_last()).push(val_view(out@.last())));
            }
            Object::Array(out)
        },
        other => arg_not_supported_err("push", other),
    }
}

/// Apply a native function other than `tellme` to evaluated arguments.
pub fn apply_builtin(k: BuiltinKind, arguments: Vec<Object>) -> (r: Object)
    requires
        k != BuiltinKind::TellMe,
    ensures
        r@ == apply_builtin_spec(k, vals_view(arguments@)),
{
    match k {
        BuiltinKind::Len => builtin_len(arguments),
        BuiltinKind::First => builtin_first(arguments),
        BuiltinKind::Last => builtin_last(arguments),
        BuiltinKind::Rest => builtin_rest(arguments),
        BuiltinKind::Push => builtin_push(arguments),
        BuiltinKind::TellMe => Object::Null,
    }
}

// ---------------------------------------------------------------------------
// The registry
// ---------------------------------------------------------------------------

/// The root scope's initial store: each native function under its name.
pub open spec fn builtins_store() -> Seq<(Seq<char>, SVal)> {
    seq![
        ("len"@, SVal::Builtin(BuiltinKind::Len)),
        ("first"@, SVal::Builtin(BuiltinKind::First)),
        ("last"@, SVal::Builtin(BuiltinKind::Last)),
        ("rest"@, SVal::Builtin(BuiltinKind::Rest)),
        ("push"@, SVal::Builtin(BuiltinKind::Push)),
        ("tellme"@, SVal::Builtin(BuiltinKind::TellMe)),
    ]
}

impl Builtin {
    /// Every native function, paired with the name it is bound to.
    pub fn all_builtins(&self) -> (r: Vec<(String, Object)>)
        ensures
            crate::object::store_view(r@) == builtins_store(),
    {
        let mut v: Vec<(String, Object)> = Vec::new();
        v.push((String::from_str("len"), Object::Builtin(BuiltinKind::Len)));
        v.push((String::from_str("first"), Object::Builtin(BuiltinKind::First)));
        v.push((String::from_str("last"), Object::Builtin(BuiltinKind::Last)));
        v.push((String::from_str("rest"), Object::Builtin(BuiltinKind::Rest)));
        v.push((String::from_str("push"), Object::Builtin(BuiltinKind::Push)));
        v.push((String::from_str("tellme"), Object::Builtin(BuiltinKind::TellMe)));
        proof {
            reveal(val_view);
            assert(crate::object::store_view(v@) =~= builtins_store()) by {
                broadcast use
                    {crate::object::lemma_store_view_len, crate::object::lemma_store_view_index};

            }
        }
        v
    }
}

} // verus!
