//! Runtime values, dictionary keys and the chained lexical scopes.
//!
//! Values are modelled by the ghost type [`SVal`]; scopes live in an arena
//! ([`Environment`]) where every scope names its parent by index, so parent
//! links always point to older scopes and the chain is acyclic.

use vstd::prelude::*;

use crate::ast::{
    block_view, clone_block, clone_idents, idents_view, BlockStatement, Identifier, SBlock,
    SIdent,
};
use crate::builtins::{builtins_store, BuiltinKind};

verus! {

// ---------------------------------------------------------------------------
// Values
// ---------------------------------------------------------------------------

/// A user function: parameter names, a body, and the index of the scope it
/// captured when the literal was evaluated (the closure).
#[derive(Debug)]
pub struct Function {
    pub parameters: Vec<Identifier>,
    pub body: BlockStatement,
    pub environment: usize,
}

/// Normalized, hashable fingerprint of a value used to index dictionaries.
#[derive(Debug, Clone, PartialEq, Eq, Hash)]
pub struct DictKey {
    pub object_type: String,
    pub value: i64,
}

/// One dictionary entry: the original key value and the stored value.
#[derive(Debug)]
pub struct DictPair {
    pub key: Object,
    pub value: Object,
}

/// A dictionary: entries in insertion order, with pairwise distinct
/// normalized keys; a later pair whose key normalizes identically to an
/// earlier one overwrites the earlier value in place.
#[derive(Debug)]
pub struct DictStruct {
    pub pairs: Vec<(DictKey, DictPair)>,
}

/// The runtime value: a tagged union. `ReturnValue` and `Error` only carry
/// control flow out of nested evaluation and are unwrapped at the
/// appropriate boundary.
#[derive(Debug)]
pub enum Object {
    Integer(i64),
    Boolean(bool),
    ReturnValue(Box<Object>),
    Error(String),
    Function(Function),
    StringObject(String),
    Builtin(BuiltinKind),
    Array(Vec<Object>),
    DictObject(DictStruct),
    Null,
}

// ---------------------------------------------------------------------------
// Ghost mirror of values
// ---------------------------------------------------------------------------

pub struct SFun {
    pub parameters: Seq<SIdent>,
    pub body: SBlock,
    pub environment: int,
}

pub struct SDictKey {
    pub object_type: Seq<char>,
    pub value: i64,
}

pub struct SEntry {
    pub norm: SDictKey,
    pub key: SVal,
    pub value: SVal,
}

pub enum SVal {
    Int(i64),
    Bool(bool),
    Return(Box<SVal>),
    Error(Seq<char>),
    Function(SFun),
    Str(Seq<char>),
    Builtin(BuiltinKind),
    Array(Seq<SVal>),
    Dict(Seq<SEntry>),
    Null,
}

pub open spec fn dict_key_view(k: DictKey) -> SDictKey {
    SDictKey { object_type: k.object_type@, value: k.value }
}

#[verifier::opaque]
pub open spec fn val_view(o: Object) -> SVal
    decreases o,
{
    match o {
        Object::Integer(i) => SVal::Int(i),
        Object::Boolean(b) => SVal::Bool(b),
        Object::ReturnValue(b) => SVal::Return(Box::new(val_view(*b))),
        Object::Error(m) => SVal::Error(m@),
        Object::Function(f) => SVal::Function(
            SFun {
                parameters: idents_view(f.parameters@),
                body: block_view(f.body),
                environment: f.environment as int,
            },
        ),
        Object::StringObject(s) => SVal::Str(s@),
        Object::Builtin(k) => SVal::Builtin(k),
        Object::Array(v) => SVal::Array(vals_view(v@)),
        Object::DictObject(d) => SVal::Dict(entries_view(d.pairs@)),
        Object::Null => SVal::Null,
    }
}

pub open spec fn vals_view(v: Seq<Object>) -> Seq<SVal>
    decreases v,
{
    if v.len() == 0 {
        Seq::empty()
    } else {
        vals_view(v.drop_last()).push(val_view(v.last()))
    }
}

pub open spec fn entry_view(e: (DictKey, DictPair)) -> SEntry
    decreases e,
{
    SEntry { norm: dict_key_view(e.0), key: val_view(e.1.key), value: val_view(e.1.value) }
}

pub open spec fn entries_view(v: Seq<(DictKey, DictPair)>) -> Seq<SEntry>
    decreases v,
{
    if v.len() == 0 {
        Seq::empty()
    } else {
        entries_view(v.drop_last()).push(entry_view(v.last()))
    }
}

impl View for Object {
    type V = SVal;

    open spec fn view(&self) -> SVal {
        val_view(*self)
    }
}

impl View for DictKey {
    type V = SDictKey;

    open spec fn view(&self) -> SDictKey {
        dict_key_view(*self)
    }
}

pub open spec fn opt_val_view(o: Option<Object>) -> Option<SVal> {
    match o {
        Option::Some(v) => Option::Some(val_view(v)),
        Option::None => Option::None,
    }
}

pub broadcast proof fn lemma_vals_view_len(v: Seq<Object>)
    ensures
        (#[trigger] vals_view(v)).len() == v.len(),
    decreases v.len(),
{
    reveal(val_view);
    if v.len() > 0 {
        lemma_vals_view_len(v.drop_last());
    }
}

pub broadcast proof fn lemma_vals_view_index(v: Seq<Object>, i: int)
    requires
        0 <= i < v.len(),
    ensures
        #[trigger] vals_view(v)[i] == val_view(v[i]),
    decreases v.len(),
{
    reveal(val_view);
    lemma_vals_view_len(v);
    lemma_vals_view_len(v.drop_last());
    if i < v.len() - 1 {
        lemma_vals_view_index(v.drop_last(), i);
        assert(v.drop_last()[i] == v[i]);
    } else {
        assert(v.last() == v[i]);
    }
}

/// The fields of a constructed entry, spelled out.
pub proof fn lemma_sentry_fields(norm: SDictKey, key: SVal, value: SVal)
    ensures
        (SEntry { norm, key, value }).norm == norm,
        (SEntry { norm, key, value }).key == key,
        (SEntry { norm, key, value }).value == value,
{
}

/// The fields of an entry's view, spelled out.
pub proof fn lemma_entry_view_parts(p: (DictKey, DictPair))
    ensures
        entry_view(p).norm == dict_key_view(p.0),
        entry_view(p).key == val_view(p.1.key),
        entry_view(p).value == val_view(p.1.value),
{
    reveal(val_view);
}

pub broadcast proof fn lemma_entries_view_len(v: Seq<(DictKey, DictPair)>)
    ensures
        (#[trigger] entries_view(v)).len() == v.len(),
    decreases v.len(),
{
    reveal(val_view);
    if v.len() > 0 {
        lemma_entries_view_len(v.drop_last());
    }
}

pub broadcast proof fn lemma_entries_view_index(v: Seq<(DictKey, DictPair)>, i: int)
    requires
        0 <= i < v.len(),
    ensures
        #[trigger] entries_view(v)[i] == entry_view(v[i]),
    decreases v.len(),
{
    reveal(val_view);
    lemma_entries_view_len(v);
    lemma_entries_view_len(v.drop_last());
    if i < v.len() - 1 {
        lemma_entries_view_index(v.drop_last(), i);
        assert(v.drop_last()[i] == v[i]);
    } else {
        assert(v.last() == v[i]);
    }
}

// ---------------------------------------------------------------------------
// Type tags
// ---------------------------------------------------------------------------

/// The dynamic type tag of a value, as the language spells it in messages.
pub open spec fn type_of(v: SVal) -> Seq<char> {
    match v {
        SVal::Int(_) => "INTEGER"@,
        SVal::Bool(_) => "BOOLEAN"@,
        SVal::Return(_) => "RETURN_VALUE"@,
        SVal::Error(_) => "ERROR"@,
        SVal::Function(_) => "FUNCTION"@,
        SVal::Str(_) => "STRING"@,
        SVal::Builtin(_) => "BUILTIN"@,
        SVal::Array(_) => "ARRAY"@,
        SVal::Dict(_) => "DICTIONARY"@,
        SVal::Null => "NULL"@,
    }
}

impl Object {
    /// The name of this value's dynamic type.
    pub fn object_type(&self) -> (r: String)
        ensures
            r@ == type_of(self@),
    {
        proof {
            reveal(val_view);
        }
        match self {
            Object::Integer(_) => String::from_str("INTEGER"),
            Object::Boolean(_) => String::from_str("BOOLEAN"),
            Object::ReturnValue(_) => String::from_str("RETURN_VALUE"),
            Object::Error(_) => String::from_str("ERROR"),
            Object::Function(_) => String::from_str("FUNCTION"),
            Object::StringObject(_) => String::from_str("STRING"),
            Object::Builtin(_) => String::from_str("BUILTIN"),
            Object::Array(_) => String::from_str("ARRAY"),
            Object::DictObject(_) => String::from_str("DICTIONARY"),
            Object::Null => String::from_str("NULL"),
        }
    }
}

// ---------------------------------------------------------------------------
// Cloning values
// ---------------------------------------------------------------------------

pub fn clone_function(f: &Function) -> (r: Function)
    ensures
        val_view(Object::Function(r)) == val_view(Object::Function(*f)),
    decreases *f,
{
    proof {
        reveal(val_view);
    }
    Function {
        parameters: clone_idents(&f.parameters),
        body: clone_block(&f.body),
        environment: f.environment,
    }
}

pub fn clone_dict_key(k: &DictKey) -> (r: DictKey)
    ensures
        r@ == k@,
{
    DictKey { object_type: k.object_type.clone(), value: k.value }
}

pub fn clone_object(o: &Object) -> (r: Object)
    ensures
        r@ == o@,
    decreases *o,
{
    proof {
        reveal(val_view);
    }
    match o {
        Object::Integer(i) => Object::Integer(*i),
        Object::Boolean(b) => Object::Boolean(*b),
        Object::ReturnValue(b) => Object::ReturnValue(Box::new(clone_object(&**b))),
        Object::Error(m) => Object::Error(m.clone()),
        Object::Function(f) => Object::Function(clone_function(f)),
        Object::StringObject(s) => Object::StringObject(s.clone()),
        Object::Builtin(k) => Object::Builtin(*k),
        Object::Array(v) => Object::Array(clone_objects(v)),
        Object::DictObject(d) => Object::DictObject(DictStruct { pairs: clone_entries(&d.pairs) }),
        Object::Null => Object::Null,
    }
}

pub proof fn lemma_vals_view_pointwise(a: Seq<Object>, b: Seq<Object>)
    requires
        a.len() == b.len(),
        forall|j: int| 0 <= j < a.len() ==> val_view(a[j]) == val_view(b[j]),
    ensures
        vals_view(a) == vals_view(b),
    decreases a.len(),
{
    reveal(val_view);
    if a.len() > 0 {
        lemma_vals_view_pointwise(a.drop_last(), b.drop_last());
    }
}

pub proof fn lemma_entries_view_pointwise(a: Seq<(DictKey, DictPair)>, b: Seq<(DictKey, DictPair)>)
    requires
        a.len() == b.len(),
        forall|j: int| 0 <= j < a.len() ==> entry_view(#[trigger] a[j]) == entry_view(b[j]),
    ensures
        entries_view(a) == entries_view(b),
    decreases a.len(),
{
    reveal(val_view);
    if a.len() > 0 {
        lemma_entries_view_pointwise(a.drop_last(), b.drop_last());
    }
}

pub fn clone_objects(v: &Vec<Object>) -> (r: Vec<Object>)
    ensures
        vals_view(r@) == vals_view(v@),
        r@.len() == v@.len(),
    decreases v@,
{
    let mut out: Vec<Object> = Vec::new();
    let mut k: usize = 0;
    while k < v.len()
        invariant
            k <= v.len(),
            out@.len() == k,
            forall|j: int| 0 <= j < k ==> val_view(#[trigger] out@[j]) == val_view(v@[j]),
        decreases v.len() - k,
    {
        out.push(clone_object(&v[k]));
        k = k + 1;
    }
    proof {
        reveal(val_view);
        lemma_vals_view_pointwise(out@, v@);
    }
    out
}

pub fn clone_entries(v: &Vec<(DictKey, DictPair)>) -> (r: Vec<(DictKey, DictPair)>)
    ensures
        entries_view(r@) == entries_view(v@),
        r@.len() == v@.len(),
    decreases v@,
{
    let mut out: Vec<(DictKey, DictPair)> = Vec::new();
    let mut k: usize = 0;
    while k < v.len()
        invariant
            k <= v.len(),
            out@.len() == k,
            forall|j: int| 0 <= j < k ==> entry_view(#[trigger] out@[j]) == entry_view(v@[j]),
        decreases v.len() - k,
    {
        let nk = clone_dict_key(&v[k].0);
        let key = clone_object(&v[k].1.key);
        let value = clone_object(&v[k].1.value);
        out.push((nk, DictPair { key, value }));
        k = k + 1;
        proof {
            reveal(val_view);
            assert(entry_view(out@[k - 1]) == entry_view(v@[k - 1]));
        }
    }
    proof {
        reveal(val_view);
        lemma_entries_view_pointwise(out@, v@);
    }
    out
}

impl Clone for Object {
    fn clone(&self) -> (r: Self)
        ensures
            r@ == self@,
    {
        clone_object(self)
    }
}

// ---------------------------------------------------------------------------
// Decimal rendering of integers (used in messages and value display)
// ---------------------------------------------------------------------------

pub open spec fn digit_char(d: nat) -> char {
    if d == 0 {
        '0'
    } else if d == 1 {
        '1'
    } else if d == 2 {
        '2'
    } else if d == 3 {
        '3'
    } else if d == 4 {
        '4'
    } else if d == 5 {
        '5'
    } else if d == 6 {
        '6'
    } else if d == 7 {
        '7'
    } else if d == 8 {
        '8'
    } else {
        '9'
    }
}

pub open spec fn dec_digits(n: nat) -> Seq<char>
    decreases n,
{
    if n < 10 {
        seq![digit_char(n)]
    } else {
        dec_digits(n / 10).push(digit_char(n % 10))
    }
}

/// The usual decimal rendering: a possible minus sign, then the digits.
pub open spec fn dec_int(i: int) -> Seq<char> {
    if i < 0 {
        seq!['-'] + dec_digits((-i) as nat)
    } else {
        dec_digits(i as nat)
    }
}

fn digit_str(d: u64) -> (r: &'static str)
    requires
        d < 10,
    ensures
        r@ == seq![digit_char(d as nat)],
{
    proof {
        reveal_strlit("0");
        reveal_strlit("1");
        reveal_strlit("2");
        reveal_strlit("3");
        reveal_strlit("4");
        reveal_strlit("5");
        reveal_strlit("6");
        reveal_strlit("7");
        reveal_strlit("8");
        reveal_strlit("9");
    }
    let r = if d == 0 {
        "0"
    } else if d == 1 {
        "1"
    } else if d == 2 {
        "2"
    } else if d == 3 {
        "3"
    } else if d == 4 {
        "4"
    } else if d == 5 {
        "5"
    } else if d == 6 {
        "6"
    } else if d == 7 {
        "7"
    } else if d == 8 {
        "8"
    } else {
        "9"
    };
    proof {
        assert(r@ =~= seq![digit_char(d as nat)]);
    }
    r
}

pub fn u64_to_dec(n: u64) -> (r: String)
    ensures
        r@ == dec_digits(n as nat),
    decreases n,
{
    if n < 10 {
        String::from_str(digit_str(n))
    } else {
        let mut s = u64_to_dec(n / 10);
        s.append(digit_str(n % 10));
        proof {
            assert(s@ =~= dec_digits(n as nat));
        }
        s
    }
}

pub fn i64_to_dec(i: i64) -> (r: String)
    ensures
        r@ == dec_int(i as int),
{
    if i >= 0 {
        u64_to_dec(i as u64)
    } else {
        let m: u64 = ((-(i + 1)) as u64) + 1;
        proof {
            assert(m as nat == (-(i as int)) as nat);
            reveal_strlit("-");
        }
        let mut s = String::from_str("-");
        let digits = u64_to_dec(m);
        s.append(digits.as_str());
        proof {
            assert(s@ =~= dec_int(i as int));
        }
        s
    }
}

pub fn usize_to_dec(n: usize) -> (r: String)
    ensures
        r@ == dec_int(n as int),
{
    u64_to_dec(n as u64)
}

// ---------------------------------------------------------------------------
// Dictionary keys
// ---------------------------------------------------------------------------

/// One step of the 64-bit FNV-1a hash.
pub open spec fn fnv_step(acc: u64, c: char) -> u64 {
    vstd::wrapping::u64_specs::wrapping_mul(acc ^ (c as u64), 0x100000001b3u64)
}

/// The 64-bit FNV-1a hash of the characters of `s` from `i` on, folded over
/// the accumulator `acc`.
pub open spec fn fnv_from(s: Seq<char>, i: int, acc: u64) -> u64
    decreases s.len() - i,
{
    if i < 0 || i >= s.len() {
        acc
    } else {
        fnv_from(s, i + 1, fnv_step(acc, s[i]))
    }
}

pub open spec fn fnv_init() -> u64 {
    0xcbf29ce484222325u64
}

/// A string's fingerprint: its FNV-1a hash, folded into the non-negative
/// half of the 64-bit signed range.
pub open spec fn str_fingerprint(s: Seq<char>) -> i64 {
    (fnv_from(s, 0, fnv_init()) & 0x7fff_ffff_ffff_ffffu64) as i64
}

/// The normalized key of a value, or the message with which the value is
/// rejected: only integers, booleans and strings can key a dictionary.
pub open spec fn dict_key_spec(v: SVal) -> Result<SDictKey, Seq<char>> {
    match v {
        SVal::Bool(b) => Result::Ok(
            SDictKey { object_type: type_of(v), value: if b { 1 } else { 0 } },
        ),
        SVal::Int(i) => Result::Ok(SDictKey { object_type: type_of(v), value: i }),
        SVal::Str(s) => Result::Ok(SDictKey { object_type: type_of(v), value: str_fingerprint(s) }),
        _ => Result::Err(msg_unusable_key(type_of(v))),
    }
}

pub open spec fn msg_unusable_key(t: Seq<char>) -> Seq<char> {
    "unusable as Dictionary key: "@ + t
}

pub open spec fn key_result_view(r: Result<DictKey, String>) -> Result<SDictKey, Seq<char>> {
    match r {
        Result::Ok(k) => Result::Ok(dict_key_view(k)),
        Result::Err(m) => Result::Err(m@),
    }
}

fn string_fingerprint(s: &String) -> (r: i64)
    ensures
        r == str_fingerprint(s@),
{
    let slice = s.as_str();
    let n = slice.unicode_len();
    let mut acc: u64 = 0xcbf29ce484222325u64;
    let mut i: usize = 0;
    while i < n
        invariant
            n == slice@.len(),
            slice@ == s@,
            i <= n,
            fnv_from(s@, 0, fnv_init()) == fnv_from(s@, i as int, acc),
        decreases n - i,
    {
        let c = slice.get_char(i);
        acc = (acc ^ (c as u64)).wrapping_mul(0x100000001b3u64);
        i = i + 1;
    }
    let masked: u64 = acc & 0x7fff_ffff_ffff_ffffu64;
    proof {
        assert(masked <= 0x7fff_ffff_ffff_ffffu64) by (bit_vector)
            requires
                masked == acc & 0x7fff_ffff_ffff_ffffu64,
        ;
    }
    masked as i64
}

/// Normalize a value to a dictionary key; integers fingerprint to
/// themselves, booleans to one and zero, strings to a content hash, and
/// every other type is rejected.
pub fn object_dict_key(o: &Object) -> (r: Result<DictKey, String>)
    ensures
        key_result_view(r) == dict_key_spec(o@),
{
    proof {
        reveal(val_view);
    }
    match o {
        Object::Boolean(b) => {
            let value: i64 = if *b {
                1
            } else {
                0
            };
            Result::Ok(DictKey { object_type: o.object_type(), value })
        },
        Object::Integer(i) => Result::Ok(DictKey { object_type: o.object_type(), value: *i }),
        Object::StringObject(s) => Result::Ok(
            DictKey { object_type: o.object_type(), value: string_fingerprint(s) },
        ),
        _ => {
            let mut m = String::from_str("unusable as Dictionary key: ");
            let t = o.object_type();
            m.append(t.as_str());
            proof {
                assert(m@ =~= msg_unusable_key(type_of(o@)));
            }
            Result::Err(m)
        },
    }
}

/// Exactly the integers, booleans and strings can key a dictionary, each
/// through the normalization scheme spelled out here; every other type is
/// rejected with the message naming it. Keys are a function of the value's
/// content alone, so equal content normalizes identically whatever path
/// constructed the value.
pub proof fn lemma_dict_key_normalization(v: SVal)
    ensures
        dict_key_spec(v) is Ok <==> (v is Int || v is Bool || v is Str),
        v is Int ==> dict_key_spec(v) == Result::<SDictKey, Seq<char>>::Ok(
            SDictKey { object_type: "INTEGER"@, value: v->Int_0 },
        ),
        v is Bool ==> dict_key_spec(v) == Result::<SDictKey, Seq<char>>::Ok(
            SDictKey {
                object_type: "BOOLEAN"@,
                value: if v->Bool_0 {
                    1
                } else {
                    0
                },
            },
        ),
        v is Str ==> dict_key_spec(v) == Result::<SDictKey, Seq<char>>::Ok(
            SDictKey { object_type: "STRING"@, value: str_fingerprint(v->Str_0) },
        ),
        !(v is Int || v is Bool || v is Str) ==> dict_key_spec(v) == Result::<
            SDictKey,
            Seq<char>,
        >::Err(msg_unusable_key(type_of(v))),
{
}

/// Every value normalizes through [`dict_key_spec`], so values of equal
/// content get equal keys whatever path constructed them.
pub trait Dictado {
    fn dict_key(&self) -> Result<DictKey, String>;
}

impl Dictado for Object {
    fn dict_key(&self) -> (r: Result<DictKey, String>)
        ensures
            key_result_view(r) == dict_key_spec(self@),
    {
        object_dict_key(self)
    }
}

impl DictKey {
    /// Whether two normalized keys are the same key.
    pub fn same_key(&self, other: &DictKey) -> (r: bool)
        ensures
            r == (self@ == other@),
    {
        self.value == other.value && self.object_type == other.object_type
    }
}

// ---------------------------------------------------------------------------
// Dictionary contents
// ---------------------------------------------------------------------------

/// The first position holding `norm` among the entries, or the length.
pub open spec fn entry_index(entries: Seq<SEntry>, norm: SDictKey, i: int) -> int
    decreases entries.len() - i,
{
    if i < 0 || i >= entries.len() {
        entries.len() as int
    } else if entries[i].norm == norm {
        i
    } else {
        entry_index(entries, norm, i + 1)
    }
}

/// Insertion: overwrite the value in place when the key is already bound,
/// else append, keeping insertion order.
pub open spec fn dict_insert_spec(entries: Seq<SEntry>, e: SEntry) -> Seq<SEntry> {
    let i = entry_index(entries, e.norm, 0);
    if i < entries.len() {
        entries.update(i, e)
    } else {
        entries.push(e)
    }
}

/// Lookup by normalized key.
pub open spec fn dict_lookup_spec(entries: Seq<SEntry>, norm: SDictKey) -> Option<SVal> {
    let i = entry_index(entries, norm, 0);
    if i < entries.len() {
        Option::Some(entries[i].value)
    } else {
        Option::None
    }
}

impl DictStruct {
    /// The pair stored under the given normalized key, if any.
    pub fn get(&self, key: &DictKey) -> (r: Option<&DictPair>)
        ensures
            match r {
                Option::Some(p) => dict_lookup_spec(entries_view(self.pairs@), key@)
                    == Option::Some(val_view(p.value)),
                Option::None => dict_lookup_spec(entries_view(self.pairs@), key@)
                    == Option::<SVal>::None,
            },
    {
        let ghost entries = entries_view(self.pairs@);
        proof {
            broadcast use {lemma_entries_view_len, lemma_entries_view_index};

        }
        let n = self.pairs.len();
        let mut i: usize = 0;
        while i < n
            invariant
                n == self.pairs@.len(),
                i <= n,
                entries == entries_view(self.pairs@),
                entries.len() == n,
                entry_index(entries, key@, 0) == entry_index(entries, key@, i as int),
            decreases n - i,
        {
            proof {
                reveal(val_view);
                lemma_entries_view_index(self.pairs@, i as int);
            }
            if self.pairs[i].0.same_key(key) {
                proof {
                    assert(entries[i as int].norm == key@);
                    assert(entry_index(entries, key@, i as int) == i as int);
                }
                return Option::Some(&self.pairs[i].1);
            }
            proof {
                assert(entries[i as int].norm != key@);
                assert(entry_index(entries, key@, i as int) == entry_index(
                    entries,
                    key@,
                    i as int + 1,
                ));
            }
            i = i + 1;
        }
        proof {
            assert(entry_index(entries, key@, n as int) == n as int);
        }
        Option::None
    }
}

/// Insert an entry: overwrite the value in place when the normalized key is
/// already bound, keeping the original position, else append.
#[verifier::spinoff_prover]
#[verifier::rlimit(100)]
pub fn dict_insert(pairs: &mut Vec<(DictKey, DictPair)>, norm: DictKey, key: Object, value: Object)
    ensures
        entries_view(final(pairs)@) == dict_insert_spec(
            entries_view(old(pairs)@),
            SEntry { norm: norm@, key: key@, value: value@ },
        ),
        final(pairs)@.len() <= old(pairs)@.len() + 1,
{
    let ghost entries = entries_view(old(pairs)@);
    let ghost e = SEntry { norm: norm@, key: key@, value: value@ };
    proof {
        lemma_sentry_fields(norm@, key@, value@);
        assert(e.norm == norm@ && e.key == key@ && e.value == value@);
        lemma_entries_view_len(old(pairs)@);
    }
    let n = pairs.len();
    let mut i: usize = 0;
    while i < n
        invariant
            n == pairs@.len(),
            i <= n,
            pairs@ == old(pairs)@,
            entries == entries_view(pairs@),
            entries.len() == n,
            e.norm == norm@ && e.key == key@ && e.value == value@,
            entry_index(entries, e.norm, 0) == entry_index(entries, e.norm, i as int),
        decreases n - i,
    {
        proof {
            lemma_entries_view_index(pairs@, i as int);
        }
        if pairs[i].0.same_key(&norm) {
            proof {
                lemma_entries_view_index(pairs@, i as int);
                lemma_entry_view_parts(pairs@[i as int]);
                assert(dict_key_view(pairs@[i as int].0) == norm@);
                assert(entry_view(pairs@[i as int]).norm == dict_key_view(pairs@[i as int].0));
                assert(entries[i as int] == entry_view(pairs@[i as int]));
                assert(entries[i as int].norm == e.norm);
                assert(entry_index(entries, e.norm, i as int) == i as int);
            }
            let ghost before = pairs@;
            pairs.set(i, (norm, DictPair { key, value }));
            proof {
                lemma_entries_view_len(pairs@);
                lemma_entry_view_parts((norm, DictPair { key, value }));
                assert forall|j: int|
                    0 <= j < pairs@.len() implies entries_view(pairs@)[j] == entries.update(
                    i as int,
                    e,
                )[j] by {
                    lemma_entries_view_index(pairs@, j);
                    lemma_entry_view_parts(pairs@[j]);
                    if j != i {
                        assert(pairs@[j] == before[j]);
                        lemma_entries_view_index(before, j);
                    }
                }
                assert(entries_view(pairs@) =~= entries.update(i as int, e));
            }
            return ;
        }
        proof {
            lemma_entries_view_index(pairs@, i as int);
            lemma_entry_view_parts(pairs@[i as int]);
            assert(entries[i as int].norm != e.norm);
            assert(entry_index(entries, e.norm, i as int) == entry_index(
                entries,
                e.norm,
                i as int + 1,
            ));
        }
        i = i + 1;
    }
    proof {
        assert(entry_index(entries, e.norm, n as int) == n as int);
    }
    let ghost before = pairs@;
    pairs.push((norm, DictPair { key, value }));
    proof {
        reveal(val_view);
        assert(pairs@.drop_last() =~= before);
        assert(entries_view(pairs@) == entries_view(pairs@.drop_last()).push(
            entry_view(pairs@.last()),
        ));
        lemma_entry_view_parts(pairs@.last());
        assert(entry_view(pairs@.last()).norm == e.norm);
        assert(entry_view(pairs@.last()).key == e.key);
        assert(entry_view(pairs@.last()).value == e.value);
        assert(entry_view(pairs@.last()) == e);
    }
}

// ---------------------------------------------------------------------------
// Environments
// ---------------------------------------------------------------------------

/// One lexical scope: a local store plus the index of the enclosing scope.
#[derive(Debug)]
pub struct Scope {
    pub store: Vec<(String, Object)>,
    pub parent: Option<usize>,
}

pub struct SScope {
    pub store: Seq<(Seq<char>, SVal)>,
    pub parent: Option<int>,
}

pub open spec fn store_view(v: Seq<(String, Object)>) -> Seq<(Seq<char>, SVal)>
    decreases v,
{
    if v.len() == 0 {
        Seq::empty()
    } else {
        store_view(v.drop_last()).push((v.last().0@, val_view(v.last().1)))
    }
}

pub open spec fn scope_view(s: Scope) -> SScope {
    SScope {
        store: store_view(s.store@),
        parent: match s.parent {
            Option::Some(p) => Option::Some(p as int),
            Option::None => Option::None,
        },
    }
}

pub broadcast proof fn lemma_store_view_len(v: Seq<(String, Object)>)
    ensures
        (#[trigger] store_view(v)).len() == v.len(),
    decreases v.len(),
{
    reveal(val_view);
    if v.len() > 0 {
        lemma_store_view_len(v.drop_last());
    }
}

pub broadcast proof fn lemma_store_view_index(v: Seq<(String, Object)>, i: int)
    requires
        0 <= i < v.len(),
    ensures
        (#[trigger] store_view(v)[i]).0 == v[i].0@ && store_view(v)[i].1 == val_view(v[i].1),
    decreases v.len(),
{
    reveal(val_view);
    lemma_store_view_len(v);
    lemma_store_view_len(v.drop_last());
    if i < v.len() - 1 {
        lemma_store_view_index(v.drop_last(), i);
        assert(v.drop_last()[i] == v[i]);
    } else {
        assert(v.last() == v[i]);
    }
}

/// All scopes created so far; scope 0 is the root.
pub struct Environment {
    pub scopes: Vec<Scope>,
}

pub open spec fn scopes_view(v: Seq<Scope>) -> Seq<SScope>
    decreases v,
{
    if v.len() == 0 {
        Seq::empty()
    } else {
        scopes_view(v.drop_last()).push(scope_view(v.last()))
    }
}

impl View for Environment {
    type V = Seq<SScope>;

    open spec fn view(&self) -> Seq<SScope> {
        scopes_view(self.scopes@)
    }
}

pub broadcast proof fn lemma_scopes_view_len(v: Seq<Scope>)
    ensures
        (#[trigger] scopes_view(v)).len() == v.len(),
    decreases v.len(),
{
    reveal(val_view);
    if v.len() > 0 {
        lemma_scopes_view_len(v.drop_last());
    }
}

pub broadcast proof fn lemma_scopes_view_index(v: Seq<Scope>, i: int)
    requires
        0 <= i < v.len(),
    ensures
        #[trigger] scopes_view(v)[i] == scope_view(v[i]),
    decreases v.len(),
{
    reveal(val_view);
    lemma_scopes_view_len(v);
    lemma_scopes_view_len(v.drop_last());
    if i < v.len() - 1 {
        lemma_scopes_view_index(v.drop_last(), i);
        assert(v.drop_last()[i] == v[i]);
    } else {
        assert(v.last() == v[i]);
    }
}

/// Lookup in one store, innermost binding (the latest) first.
pub open spec fn store_lookup_upto(store: Seq<(Seq<char>, SVal)>, j: int, name: Seq<char>) -> Option<
    SVal,
>
    decreases j,
{
    if j <= 0 || j > store.len() {
        Option::None
    } else if store[j - 1].0 == name {
        Option::Some(store[j - 1].1)
    } else {
        store_lookup_upto(store, j - 1, name)
    }
}

pub open spec fn store_lookup(store: Seq<(Seq<char>, SVal)>, name: Seq<char>) -> Option<SVal> {
    store_lookup_upto(store, store.len() as int, name)
}

/// Lookup walking from the scope `cur` outward through parent links; a
/// parent link is only followed outward, toward an older scope.
pub open spec fn lookup_spec(scopes: Seq<SScope>, cur: int, name: Seq<char>) -> Option<SVal>
    decreases cur,
{
    if cur < 0 || cur >= scopes.len() {
        Option::None
    } else {
        match store_lookup(scopes[cur].store, name) {
            Option::Some(v) => Option::Some(v),
            Option::None => match scopes[cur].parent {
                Option::Some(p) => if 0 <= p < cur {
                    lookup_spec(scopes, p, name)
                } else {
                    Option::None
                },
                Option::None => Option::None,
            },
        }
    }
}

/// Binding writes into the local store of `cur` only.
pub open spec fn bind_spec(scopes: Seq<SScope>, cur: int, name: Seq<char>, v: SVal) -> Seq<SScope> {
    if 0 <= cur < scopes.len() {
        scopes.update(
            cur,
            SScope { store: scopes[cur].store.push((name, v)), parent: scopes[cur].parent },
        )
    } else {
        scopes
    }
}

/// The scopes after allocating a fresh scope enclosed by `outer`.
pub open spec fn enclose_spec(scopes: Seq<SScope>, outer: int) -> Seq<SScope> {
    scopes.push(SScope { store: Seq::empty(), parent: Option::Some(outer) })
}

fn store_get(store: &Vec<(String, Object)>, name: &String) -> (r: Option<Object>)
    ensures
        opt_val_view(r) == store_lookup(store_view(store@), name@),
{
    proof {
        broadcast use {lemma_store_view_len, lemma_store_view_index};

    }
    let ghost sv = store_view(store@);
    let mut j: usize = store.len();
    while j > 0
        invariant
            j <= store@.len(),
            sv == store_view(store@),
            sv.len() == store@.len(),
            store_lookup(sv, name@) == store_lookup_upto(sv, j as int, name@),
        decreases j,
    {
        proof {
            reveal(val_view);
            lemma_store_view_index(store@, j - 1);
        }
        if store[j - 1].0 == *name {
            proof {
                assert(sv[j - 1].0 == name@);
                assert(store_lookup_upto(sv, j as int, name@) == Option::Some(sv[j - 1].1));
            }
            return Option::Some(clone_object(&store[j - 1].1));
        }
        proof {
            assert(sv[j - 1].0 != name@);
            assert(store_lookup_upto(sv, j as int, name@) == store_lookup_upto(
                sv,
                j as int - 1,
                name@,
            ));
        }
        j = j - 1;
    }
    proof {
        assert(store_lookup_upto(sv, 0, name@) == Option::<SVal>::None);
    }
    Option::None
}

impl Environment {
    /// A root scope with no parent, pre-populated with the native functions.
    pub fn new_environment() -> (r: Environment)
        ensures
            r@ == seq![
                SScope { store: builtins_store(), parent: Option::<int>::None },
            ],
    {
        let store = crate::builtins::Builtin.all_builtins();
        let root = Scope { store, parent: Option::None };
        let mut scopes: Vec<Scope> = Vec::new();
        scopes.push(root);
        let r = Environment { scopes };
        proof {
            reveal(val_view);
            assert(r.scopes@.drop_last() =~= Seq::<Scope>::empty());
            assert(scopes_view(r.scopes@) == scopes_view(r.scopes@.drop_last()).push(
                scope_view(r.scopes@.last()),
            ));
            assert(r@ =~= seq![SScope { store: builtins_store(), parent: Option::<int>::None }]);
        }
        r
    }

    /// Allocate a scope enclosed by the scope at `outer`; function
    /// application is the only caller.
    pub fn new_enclosed_evironment(&mut self, outer: usize) -> (idx: usize)
        requires
            outer < old(self)@.len(),
        ensures
            final(self)@ == enclose_spec(old(self)@, outer as int),
            idx == old(self)@.len(),
            final(self)@.len() == old(self)@.len() + 1,
    {
        proof {
            lemma_scopes_view_len(self.scopes@);
        }
        let idx = self.scopes.len();
        self.scopes.push(Scope { store: Vec::new(), parent: Option::Some(outer) });
        proof {
            lemma_scopes_view_len(self.scopes@);
            assert(self.scopes@.drop_last() =~= old(self).scopes@);
            assert(self@ =~= enclose_spec(old(self)@, outer as int));
        }
        idx
    }

    /// How many scopes exist.
    pub fn scopes_len(&self) -> (n: usize)
        ensures
            n == self@.len(),
    {
        proof {
            lemma_scopes_view_len(self.scopes@);
        }
        self.scopes.len()
    }

    /// The first binding for `name` found walking from `scope` outward.
    pub fn get(&self, scope: usize, name: &String) -> (r: Option<Object>)
        ensures
            opt_val_view(r) == lookup_spec(self@, scope as int, name@),
        decreases scope,
    {
        proof {
            broadcast use {lemma_scopes_view_len, lemma_scopes_view_index};

        }
        if scope >= self.scopes.len() {
            return Option::None;
        }
        let found = store_get(&self.scopes[scope].store, name);
        match found {
            Option::Some(v) => Option::Some(v),
            Option::None => match self.scopes[scope].parent {
                Option::Some(p) => {
                    if p < scope {
                        self.get(p, name)
                    } else {
                        Option::None
                    }
                },
                Option::None => Option::None,
            },
        }
    }

    /// Bind `name` in the local store of `scope` alone; an existing binding
    /// in an outer scope is shadowed, never overwritten.
    pub fn set(&mut self, scope: usize, name: String, value: Object) -> (r: Option<Object>)
        requires
            scope < old(self)@.len(),
        ensures
            final(self)@ == bind_spec(old(self)@, scope as int, name@, value@),
            final(self)@.len() == old(self)@.len(),
            opt_val_view(r) == Option::Some(value@),
    {
        proof {
            broadcast use {lemma_scopes_view_len, lemma_scopes_view_index, lemma_store_view_len};

        }
        let r = clone_object(&value);
        let parent = self.scopes[scope].parent;
        let entry = (name, value);
        self.scopes[scope].store.push(entry);
        proof {
            let oldsc = old(self).scopes@;
            let newsc = self.scopes@;
            assert forall|j: int| 0 <= j < newsc.len() && j != scope implies scopes_view(newsc)[j]
                == scopes_view(oldsc)[j] by {
                lemma_scopes_view_index(newsc, j);
                lemma_scopes_view_index(oldsc, j);
            }
            lemma_scopes_view_index(newsc, scope as int);
            lemma_scopes_view_index(oldsc, scope as int);
            assert(newsc[scope as int].store@.drop_last() =~= oldsc[scope as int].store@);
            assert(scopes_view(newsc) =~= bind_spec(scopes_view(oldsc), scope as int, name@,
            value@));
        }
        Option::Some(r)
    }
}

// ---------------------------------------------------------------------------
// Rendering values
//
// The textual form of a value, exactly as the REPL shows it; `Display`
// cannot be implemented in verified code, so the rendering is an ordinary
// method with an exact contract.
// ---------------------------------------------------------------------------

pub open spec fn render_val_s(v: SVal) -> Seq<char>
    decreases v, 1int,
{
    match v {
        SVal::Int(i) => dec_int(i as int),
        SVal::Bool(b) => if b {
            "true"@
        } else {
            "false"@
        },
        SVal::Return(inner) => render_val_s(*inner),
        SVal::Error(m) => "ERROR: "@ + m,
        SVal::Function(f) => "function("@ + crate::ast::print_idents_s(f.parameters) + ") { \n"@
            + crate::ast::print_block_s(f.body) + "}\n"@,
        SVal::Str(s) => s,
        SVal::Builtin(_) => "builtin function"@,
        SVal::Array(vs) => "["@ + render_vals_s(vs) + "]"@,
        SVal::Dict(es) => "{"@ + render_entries_s(es) + "}"@,
        SVal::Null => Seq::empty(),
    }
}

/// Comma-separated renderings of an array's elements.
pub open spec fn render_vals_s(vs: Seq<SVal>) -> Seq<char>
    decreases vs, 2int,
{
    if vs.len() == 0 {
        Seq::empty()
    } else if vs.len() == 1 {
        render_val_s(vs[0])
    } else {
        render_vals_s(vs.drop_last()) + ", "@ + render_val_s(vs.last())
    }
}

/// Comma-separated `key: value` renderings of a dictionary's entries, in
/// insertion order.
pub open spec fn render_entries_s(es: Seq<SEntry>) -> Seq<char>
    decreases es, 2int,
{
    if es.len() == 0 {
        Seq::empty()
    } else if es.len() == 1 {
        render_val_s(es[0].key) + ": "@ + render_val_s(es[0].value)
    } else {
        render_entries_s(es.drop_last()) + ", "@ + render_val_s(es.last().key) + ": "@
            + render_val_s(es.last().value)
    }
}

impl Object {
    /// The textual form of this value.
    #[verifier::spinoff_prover]
    #[verifier::rlimit(100)]
    pub fn inspect(&self) -> (r: String)
        ensures
            r@ == render_val_s(self@),
        decreases *self, 1int,
    {
        proof {
            reveal(val_view);
        }
        match self {
            Object::Integer(i) => i64_to_dec(*i),
            Object::Boolean(b) => {
                if *b {
                    String::from_str("true")
                } else {
                    String::from_str("false")
                }
            },
            Object::ReturnValue(inner) => inner.inspect(),
            Object::Error(m) => {
                let mut out = String::from_str("ERROR: ");
                out.append(m.as_str());
                proof {
                    assert(out@ =~= render_val_s(self@));
                }
                out
            },
            Object::Function(f) => {
                let mut out = String::from_str("function(");
                let ps = crate::ast::print_identifiers(&f.parameters);
                out.append(ps.as_str());
                out.append(") { \n");
                let bs = crate::ast::print_block(&f.body);
                out.append(bs.as_str());
                out.append("}\n");
                proof {
                    assert(out@ =~= render_val_s(self@));
                }
                out
            },
            Object::StringObject(s) => s.clone(),
            Object::Builtin(_) => String::from_str("builtin function"),
            Object::Array(vs) => {
                let mut out = String::from_str("[");
                let es = render_elements(vs);
                out.append(es.as_str());
                out.append("]");
                proof {
                    assert(out@ =~= render_val_s(self@));
                }
                out
            },
            Object::DictObject(d) => {
                let mut out = String::from_str("{");
                let es = render_dict_entries(&d.pairs);
                out.append(es.as_str());
                out.append("}");
                proof {
                    assert(out@ =~= render_val_s(self@));
                }
                out
            },
            Object::Null => String::new(),
        }
    }
}

#[verifier::spinoff_prover]
fn render_elements(v: &Vec<Object>) -> (r: String)
    ensures
        r@ == render_vals_s(vals_view(v@)),
    decreases v@, 2int,
{
    proof {
        broadcast use {lemma_vals_view_len, lemma_vals_view_index};

    }
    let mut out = String::new();
    let mut k: usize = 0;
    while k < v.len()
        invariant
            k <= v@.len(),
            out@ == render_vals_s(vals_view(v@.subrange(0, k as int))),
        decreases v.len() - k,
    {
        let ghost prev = v@.subrange(0, k as int);
        if k > 0 {
            out.append(", ");
        }
        let es = v[k].inspect();
        out.append(es.as_str());
        k = k + 1;
        proof {
            let cur = v@.subrange(0, k as int);
            assert(cur.drop_last() =~= prev);
            assert(vals_view(cur).drop_last() =~= vals_view(prev));
            assert(vals_view(cur).last() == val_view(v@[k - 1]));
            assert(out@ =~= render_vals_s(vals_view(cur)));
        }
    }
    proof {
        assert(v@.subrange(0, v@.len() as int) =~= v@);
    }
    out
}

#[verifier::spinoff_prover]
fn render_dict_entries(v: &Vec<(DictKey, DictPair)>) -> (r: String)
    ensures
        r@ == render_entries_s(entries_view(v@)),
    decreases v@, 2int,
{
    proof {
        broadcast use {lemma_entries_view_len, lemma_entries_view_index};

    }
    let mut out = String::new();
    let mut k: usize = 0;
    while k < v.len()
        invariant
            k <= v@.len(),
            out@ == render_entries_s(entries_view(v@.subrange(0, k as int))),
        decreases v.len() - k,
    {
        let ghost prev = v@.subrange(0, k as int);
        if k > 0 {
            out.append(", ");
        }
        let ks = v[k].1.key.inspect();
        out.append(ks.as_str());
        out.append(": ");
        let vs = v[k].1.value.inspect();
        out.append(vs.as_str());
        k = k + 1;
        proof {
            lemma_entry_view_parts(v@[k - 1]);
            let cur = v@.subrange(0, k as int);
            assert(cur.drop_last() =~= prev);
            assert(entries_view(cur).drop_last() =~= entries_view(prev));
            assert(entries_view(cur).last() == entry_view(v@[k - 1]));
            assert(out@ =~= render_entries_s(entries_view(cur)));
        }
    }
    proof {
        assert(v@.subrange(0, v@.len() as int) =~= v@);
    }
    out
}

} // verus!
