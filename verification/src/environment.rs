use vstd::prelude::*;

use crate::builtin::{builtin_binary, builtin_closure_view, builtin_unary, tan, tan_closure_view};
use crate::value::{value_wf, Symbol, Value, ValueV};

verus! {

/// One level of lexical scope: a mapping from symbols to values, with an
/// optional parent frame.
///
/// The chain of shared, mutable frames is modelled as a slab: every frame
/// lives in an [`EnvArena`] and a parent is a stable index into that arena.
/// A well-formed frame only ever points at a frame allocated before it, so
/// chains can never cycle.
#[derive(Debug, PartialEq)]
pub struct Environment {
    pub parent: Option<usize>,
    pub env: Vec<(Symbol, Value)>,
}

/// The slab all environment frames live in. Frames are only ever added, so
/// an index ("a reference to a frame") stays valid for the whole run.
#[derive(Debug, PartialEq)]
pub struct EnvArena {
    pub frames: Vec<Environment>,
}

/// First binding for `sym` in a frame's own mapping, scanning from the front.
/// Frames keep their keys unique, so the scan order never matters.
pub open spec fn assoc_lookup(s: Seq<(Symbol, Value)>, sym: Seq<char>) -> Option<Value>
    decreases s.len(),
{
    if s.len() == 0 {
        None
    } else if s[0].0@ == sym {
        Some(s[0].1)
    } else {
        assoc_lookup(s.drop_first(), sym)
    }
}

/// Lexical lookup starting at frame `at` of the arena, walking parents
/// outward and returning the first binding found. A parent index that does
/// not point at an earlier frame ends the walk (well-formed arenas never
/// produce one).
pub open spec fn arena_lookup(frames: Seq<Environment>, at: int, sym: Seq<char>) -> Option<Value>
    decreases at,
{
    if 0 <= at < frames.len() {
        match assoc_lookup(frames[at].env@, sym) {
            Some(v) => Some(v),
            None => match frames[at].parent {
                Some(p) => if p < at {
                    arena_lookup(frames, p as int, sym)
                } else {
                    None
                },
                None => None,
            },
        }
    } else {
        None
    }
}

/// Lexical lookup starting at a frame value itself (which need not live in
/// the arena), continuing through its parent chain inside the arena.
pub open spec fn env_lookup(frames: Seq<Environment>, e: Environment, sym: Seq<char>) -> Option<
    Value,
> {
    match assoc_lookup(e.env@, sym) {
        Some(v) => Some(v),
        None => match e.parent {
            Some(p) => arena_lookup(frames, p as int, sym),
            None => None,
        },
    }
}

/// What the global environment's frame holds: the pre-bound constants and
/// builtins, all of them self-contained values (no handles into the machine).
pub open spec fn is_global_frame(e: Environment) -> bool {
    &&& e.parent is None
    &&& e.keys_unique()
    &&& assoc_lookup(e.env@, "true"@) == Some(Value::Bool(true))
    &&& assoc_lookup(e.env@, "false"@) == Some(Value::Bool(false))
    &&& opt_value_view(assoc_lookup(e.env@, "PI"@)) == Some(ValueV::Float("3.141592653589793"@))
    &&& opt_value_view(assoc_lookup(e.env@, "E"@)) == Some(ValueV::Float("2.718281828459045"@))
    &&& assoc_lookup(e.env@, "MAX_INT"@) == Some(Value::Int(i64::MAX))
    &&& assoc_lookup(e.env@, "MIN_INT"@) == Some(Value::Int(i64::MIN))
    &&& opt_value_view(assoc_lookup(e.env@, "MAX_FLOAT"@)) == Some(ValueV::Float("1.7976931348623157e308"@))
    &&& opt_value_view(assoc_lookup(e.env@, "MIN_FLOAT"@)) == Some(ValueV::Float("-1.7976931348623157e308"@))
    &&& opt_value_view(assoc_lookup(e.env@, "EPSILON"@)) == Some(ValueV::Float("2.220446049250313e-16"@))
    &&& opt_value_view(assoc_lookup(e.env@, "tan"@)) == Some(tan_closure_view())
    &&& opt_value_view(assoc_lookup(e.env@, "sin"@)) == Some(builtin_closure_view("sin"@, seq!["x"@]))
    &&& opt_value_view(assoc_lookup(e.env@, "cos"@)) == Some(builtin_closure_view("cos"@, seq!["x"@]))
    &&& opt_value_view(assoc_lookup(e.env@, "sqrt"@)) == Some(builtin_closure_view("sqrt"@, seq!["x"@]))
    &&& opt_value_view(assoc_lookup(e.env@, "len"@)) == Some(builtin_closure_view("len"@, seq!["x"@]))
    &&& opt_value_view(assoc_lookup(e.env@, "min"@)) == Some(builtin_closure_view("min"@, seq!["x"@, "y"@]))
    &&& opt_value_view(assoc_lookup(e.env@, "max"@)) == Some(builtin_closure_view("max"@, seq!["x"@, "y"@]))
    &&& opt_value_view(assoc_lookup(e.env@, "int_to_float"@)) == Some(builtin_closure_view("int_to_float"@, seq!["x"@]))
    &&& opt_value_view(assoc_lookup(e.env@, "float_to_int"@)) == Some(builtin_closure_view("float_to_int"@, seq!["x"@]))
    &&& opt_value_view(assoc_lookup(e.env@, "atoi"@)) == Some(builtin_closure_view("atoi"@, seq!["x"@]))
    &&& forall|j: int| 0 <= j < e.env@.len() ==> value_wf(((#[trigger] e.env@[j]).1)@, 0, 0)
}

/// The view of an optional value, for contracts that cross a copy.
pub open spec fn opt_value_view(o: Option<Value>) -> Option<ValueV> {
    match o {
        Some(v) => Some(v@),
        None => None,
    }
}

impl Environment {
    /// No two bindings of the frame use the same symbol.
    pub open spec fn keys_unique(self) -> bool {
        forall|i: int, j: int|
            0 <= i < j < self.env@.len() ==> self.env@[i].0@ != self.env@[j].0@
    }

    /// Every frame points only backwards and keeps its keys unique.
    pub open spec fn wf_in(self, at: int) -> bool {
        &&& self.keys_unique()
        &&& match self.parent {
            Some(p) => p < at,
            None => true,
        }
    }
}

impl EnvArena {
    /// Frames only point at earlier frames, and every frame's keys are unique.
    pub open spec fn wf(self) -> bool {
        forall|i: int| 0 <= i < self.frames@.len() ==> (#[trigger] self.frames@[i]).wf_in(i)
    }

    /// An empty arena.
    pub fn new() -> (r: EnvArena)
        ensures
            r.frames@.len() == 0,
            r.wf(),
    {
        EnvArena { frames: Vec::new() }
    }

    /// Lexical lookup starting at frame `at`.
    pub fn get(&self, at: usize, sym: &str) -> (res: Option<Value>)
        ensures
            opt_value_view(res) == opt_value_view(arena_lookup(self.frames@, at as int, sym@)),
    {
        let key = String::from_str(sym);
        self.get_by_key(at, &key)
    }

    fn get_by_key(&self, at: usize, key: &Symbol) -> (res: Option<Value>)
        ensures
            opt_value_view(res) == opt_value_view(arena_lookup(self.frames@, at as int, key@)),
        decreases at,
    {
        if at >= self.frames.len() {
            return None;
        }
        let frame = &self.frames[at];
        match frame.find_local(key) {
            Some(v) => Some(v),
            None => match frame.parent {
                Some(p) => if p < at {
                    self.get_by_key(p, key)
                } else {
                    None
                },
                None => None,
            },
        }
    }

    /// Add a frame to the arena, returning its index (the new reference).
    pub fn add_frame(&mut self, e: Environment) -> (r: usize)
        requires
            e.wf_in(old(self).frames@.len() as int),
        ensures
            r == old(self).frames@.len(),
            final(self).frames@ == old(self).frames@.push(e),
            old(self).wf() ==> final(self).wf(),
    {
        let r = self.frames.len();
        self.frames.push(e);
        proof {
            if old(self).wf() {
                assert forall|i: int| 0 <= i < self.frames@.len() implies (
                #[trigger] self.frames@[i]).wf_in(i) by {
                    if i < old(self).frames@.len() {
                        assert(old(self).frames@[i].wf_in(i));
                    }
                }
            }
        }
        r
    }

    /// Bind `sym` to `val` in the local mapping of frame `at` only: ancestors
    /// are never touched, and other frames keep exactly their bindings.
    pub fn set(&mut self, at: usize, sym: &str, val: Value)
        requires
            at < old(self).frames@.len(),
            old(self).wf(),
        ensures
            final(self).wf(),
            final(self).frames@.len() == old(self).frames@.len(),
            forall|i: int|
                0 <= i < old(self).frames@.len() && i != at as int ==> final(self).frames@[i]
                    == old(self).frames@[i],
            final(self).frames@[at as int].parent == old(self).frames@[at as int].parent,
            assoc_lookup(final(self).frames@[at as int].env@, sym@) == Some(val),
            forall|other: Seq<char>|
                other != sym@ ==> assoc_lookup(final(self).frames@[at as int].env@, other)
                    == assoc_lookup(old(self).frames@[at as int].env@, other),
            forall|j: int|
                0 <= j < final(self).frames@[at as int].env@.len() ==> (
                #[trigger] final(self).frames@[at as int].env@[j]).1 == val || exists|k: int|
                    0 <= k < old(self).frames@[at as int].env@.len() && old(
                        self,
                    ).frames@[at as int].env@[k].1 == (final(self).frames@[at as int].env@[j]).1,
    {
        let frame = &mut self.frames[at];
        proof {
            assert(old(self).frames@[at as int].wf_in(at as int));
        }
        frame.set(sym, val);
        proof {
            assert forall|i: int| 0 <= i < self.frames@.len() implies (
            #[trigger] self.frames@[i]).wf_in(i) by {
                if i != at as int {
                    assert(old(self).frames@[i].wf_in(i));
                }
            }
        }
    }
}

impl Environment {
    /// A fresh root frame: no parent, no bindings.
    pub fn new() -> (r: Environment)
        ensures
            r.parent.is_none(),
            r.env@.len() == 0,
            r.keys_unique(),
    {
        Environment { parent: None, env: Vec::new() }
    }

    /// Allocate a fresh root frame in the arena and return its reference.
    pub fn new_wrapped(arena: &mut EnvArena) -> (r: usize)
        requires
            old(arena).wf(),
        ensures
            final(arena).wf(),
            r == old(arena).frames@.len(),
            final(arena).frames@.len() == old(arena).frames@.len() + 1,
            forall|i: int|
                0 <= i < old(arena).frames@.len() ==> final(arena).frames@[i] == old(
                    arena,
                ).frames@[i],
            final(arena).frames@[r as int].parent.is_none(),
            final(arena).frames@[r as int].env@.len() == 0,
    {
        arena.add_frame(Environment::new())
    }

    /// Create the global environment in the arena and return its reference:
    /// a root frame pre-populated with the logical constants `true` and
    /// `false`, the numeric constants `PI`, `E`, `MAX_INT`, `MIN_INT`,
    /// `MAX_FLOAT`, `MIN_FLOAT` and `EPSILON`, and the builtin closures:
    /// math (`tan`, `sin`, `cos`, `sqrt`), string (`len`), comparison
    /// (`min`, `max`) and conversion (`int_to_float`, `float_to_int`,
    /// `atoi`) functions, each dispatched natively by its symbol.
    #[verifier::rlimit(100)]
    pub fn new_global(arena: &mut EnvArena) -> (r: usize)
        requires
            old(arena).wf(),
        ensures
            final(arena).wf(),
            r == old(arena).frames@.len(),
            final(arena).frames@.len() == old(arena).frames@.len() + 1,
            forall|i: int|
                0 <= i < old(arena).frames@.len() ==> final(arena).frames@[i] == old(
                    arena,
                ).frames@[i],
            is_global_frame(final(arena).frames@[r as int]),
    {
        let mut v: Vec<(Symbol, Value)> = Vec::new();
        v.push((String::from_str("true"), Value::Bool(true)));
        v.push((String::from_str("false"), Value::Bool(false)));
        v.push((String::from_str("PI"), Value::Float(String::from_str("3.141592653589793"))));
        v.push((String::from_str("E"), Value::Float(String::from_str("2.718281828459045"))));
        v.push((String::from_str("MAX_INT"), Value::Int(i64::MAX)));
        v.push((String::from_str("MIN_INT"), Value::Int(i64::MIN)));
        v.push((String::from_str("MAX_FLOAT"), Value::Float(String::from_str("1.7976931348623157e308"))));
        v.push((String::from_str("MIN_FLOAT"), Value::Float(String::from_str("-1.7976931348623157e308"))));
        v.push((String::from_str("EPSILON"), Value::Float(String::from_str("2.220446049250313e-16"))));
        v.push((String::from_str("tan"), tan()));
        v.push((String::from_str("sin"), builtin_unary("sin")));
        v.push((String::from_str("cos"), builtin_unary("cos")));
        v.push((String::from_str("sqrt"), builtin_unary("sqrt")));
        v.push((String::from_str("len"), builtin_unary("len")));
        v.push((String::from_str("min"), builtin_binary("min")));
        v.push((String::from_str("max"), builtin_binary("max")));
        v.push((String::from_str("int_to_float"), builtin_unary("int_to_float")));
        v.push((String::from_str("float_to_int"), builtin_unary("float_to_int")));
        v.push((String::from_str("atoi"), builtin_unary("atoi")));
        let e = Environment { parent: None, env: v };
        proof {
            reveal_strlit("true");
            reveal_strlit("false");
            reveal_strlit("PI");
            reveal_strlit("E");
            reveal_strlit("MAX_INT");
            reveal_strlit("MIN_INT");
            reveal_strlit("MAX_FLOAT");
            reveal_strlit("MIN_FLOAT");
            reveal_strlit("EPSILON");
            reveal_strlit("tan");
            reveal_strlit("sin");
            reveal_strlit("cos");
            reveal_strlit("sqrt");
            reveal_strlit("len");
            reveal_strlit("min");
            reveal_strlit("max");
            reveal_strlit("int_to_float");
            reveal_strlit("float_to_int");
            reveal_strlit("atoi");
            reveal_with_fuel(assoc_lookup, 20);
            assert(e.env@.len() == 19);
            assert(e.env@[0].0@ == "true"@);
            assert(e.env@[1].0@ == "false"@);
            assert(e.env@[2].0@ == "PI"@);
            assert(e.env@[3].0@ == "E"@);
            assert(e.env@[4].0@ == "MAX_INT"@);
            assert(e.env@[5].0@ == "MIN_INT"@);
            assert(e.env@[6].0@ == "MAX_FLOAT"@);
            assert(e.env@[7].0@ == "MIN_FLOAT"@);
            assert(e.env@[8].0@ == "EPSILON"@);
            assert(e.env@[9].0@ == "tan"@);
            assert(e.env@[10].0@ == "sin"@);
            assert(e.env@[11].0@ == "cos"@);
            assert(e.env@[12].0@ == "sqrt"@);
            assert(e.env@[13].0@ == "len"@);
            assert(e.env@[14].0@ == "min"@);
            assert(e.env@[15].0@ == "max"@);
            assert(e.env@[16].0@ == "int_to_float"@);
            assert(e.env@[17].0@ == "float_to_int"@);
            assert(e.env@[18].0@ == "atoi"@);
            assert("MAX_INT"@[1] != "MIN_INT"@[1]);
            assert("MAX_INT"@[0] != "EPSILON"@[0]);
            assert("MIN_INT"@[0] != "EPSILON"@[0]);
            assert("MAX_FLOAT"@[1] != "MIN_FLOAT"@[1]);
            assert("tan"@[0] == 't' && "sin"@[0] == 's' && "cos"@[0] == 'c');
            assert("len"@[0] == 'l' && "min"@[0] == 'm' && "max"@[0] == 'm');
            assert("min"@[1] == 'i' && "max"@[1] == 'a');
            assert("true"@[0] == 't' && "sqrt"@[0] == 's' && "atoi"@[0] == 'a');
            assert("int_to_float"@[0] == 'i' && "float_to_int"@[0] == 'f');
            assert(e.keys_unique());
            assert(forall|j: int|
                0 <= j < e.env@.len() ==> value_wf(((#[trigger] e.env@[j]).1)@, 0, 0));
            assert(is_global_frame(e));
        }
        arena.add_frame(e)
    }

    /// Point this frame at a (new) parent frame.
    pub fn set_parent(&mut self, parent: usize)
        ensures
            final(self).parent == Some(parent),
            final(self).env@ == old(self).env@,
    {
        self.parent = Some(parent);
    }

    /// First local binding for `key`, copied out.
    fn find_local(&self, key: &Symbol) -> (res: Option<Value>)
        ensures
            opt_value_view(res) == opt_value_view(assoc_lookup(self.env@, key@)),
    {
        let n = self.env.len();
        let mut i: usize = 0;
        proof {
            assert(self.env@.skip(0) =~= self.env@);
        }
        while i < n
            invariant
                n == self.env@.len(),
                i <= n,
                assoc_lookup(self.env@, key@) == assoc_lookup(self.env@.skip(i as int), key@),
            decreases n - i,
        {
            proof {
                assert(self.env@.skip(i as int)[0] == self.env@[i as int]);
                assert(self.env@.skip(i as int).drop_first() =~= self.env@.skip(i as int + 1));
            }
            if self.env[i].0 == *key {
                return Some(self.env[i].1.dup());
            }
            i += 1;
        }
        proof {
            assert(self.env@.skip(n as int).len() == 0);
        }
        None
    }

    /// Lexical lookup: this frame first, then the parent chain in the arena;
    /// the first binding found wins (inner scopes shadow outer ones).
    /// Never mutates anything.
    pub fn get(&self, arena: &EnvArena, sym: &str) -> (res: Option<Value>)
        ensures
            opt_value_view(res) == opt_value_view(env_lookup(arena.frames@, *self, sym@)),
    {
        let key = String::from_str(sym);
        match self.find_local(&key) {
            Some(v) => Some(v),
            None => match self.parent {
                Some(p) => arena.get_by_key(p, &key),
                None => None,
            },
        }
    }

    /// Bind `sym` to `val` in this frame's own mapping: insert it, or
    /// overwrite an existing binding of the same symbol. This is the
    /// declaration operation — it never touches an ancestor, even when the
    /// name already exists there.
    pub fn set(&mut self, sym: &str, val: Value)
        requires
            old(self).keys_unique(),
        ensures
            final(self).keys_unique(),
            final(self).parent == old(self).parent,
            assoc_lookup(final(self).env@, sym@) == Some(val),
            forall|other: Seq<char>|
                other != sym@ ==> assoc_lookup(final(self).env@, other) == assoc_lookup(
                    old(self).env@,
                    other,
                ),
            forall|j: int|
                0 <= j < final(self).env@.len() ==> (#[trigger] final(self).env@[j]).1 == val
                    || exists|k: int|
                    0 <= k < old(self).env@.len()
                        && old(self).env@[k].1 == (final(self).env@[j]).1,
            assoc_lookup(old(self).env@, sym@) is None ==> {
                &&& final(self).env@.len() == old(self).env@.len() + 1
                &&& final(self).env@.drop_last() == old(self).env@
                &&& (final(self).env@.last()).1 == val
                &&& (final(self).env@.last()).0@ == sym@
            },
            assoc_lookup(old(self).env@, sym@) is Some ==> final(self).env@.len() == old(self).env@.len(),
    {
        let key = String::from_str(sym);
        let n = self.env.len();
        let mut i: usize = 0;
        while i < n
            invariant
                *self == *old(self),
                old(self).keys_unique(),
                n == self.env@.len(),
                i <= n,
                key@ == sym@,
                forall|j: int| 0 <= j < i as int ==> self.env@[j].0@ != sym@,
            decreases n - i,
        {
            if self.env[i].0 == key {
                let slot = &mut self.env[i];
                *slot = (key, val);
                proof {
                    lemma_assoc_found(old(self).env@, i as int, sym@);
                    lemma_assoc_update(old(self).env@, self.env@, i as int, sym@, val);
                    assert forall|p: int, q: int|
                        0 <= p < q < self.env@.len() implies self.env@[p].0@
                        != self.env@[q].0@ by {
                        assert(old(self).keys_unique());
                        assert(old(self).env@[p].0@ != old(self).env@[q].0@);
                        if p == i as int {
                            assert(self.env@[q].0@ != sym@);
                        }
                        if q == i as int {
                            assert(self.env@[p].0@ != sym@);
                        }
                    }
                    assert forall|j: int|
                        0 <= j < self.env@.len() && (#[trigger] self.env@[j]).1
                            != val implies exists|k: int|
                        0 <= k < old(self).env@.len() && old(self).env@[k].1 == (
                        self.env@[j]).1 by {
                        assert(old(self).env@[j].1 == self.env@[j].1);
                    }
                }
                return ;
            }
            i += 1;
        }
        self.env.push((key, val));
        proof {
            lemma_assoc_none(old(self).env@, sym@);
            lemma_assoc_push(old(self).env@, key, sym@, val);
            assert forall|p: int, q: int|
                0 <= p < q < self.env@.len() implies self.env@[p].0@ != self.env@[q].0@ by {
                if q < old(self).env@.len() {
                    assert(old(self).keys_unique());
                    assert(old(self).env@[p].0@ != old(self).env@[q].0@);
                } else {
                    assert(self.env@[q].0@ == sym@);
                    assert(self.env@[p].0@ != sym@);
                }
            }
            assert forall|j: int|
                0 <= j < self.env@.len() && (#[trigger] self.env@[j]).1 != val implies exists|
                k: int,
            | 0 <= k < old(self).env@.len() && old(self).env@[k].1 == (self.env@[j]).1 by {
                assert(old(self).env@[j].1 == self.env@[j].1);
            }
        }
    }
}

/// A binding at `i` whose key matches `sym`, with no earlier match, is what
/// lookup returns.
proof fn lemma_assoc_found(s: Seq<(Symbol, Value)>, i: int, sym: Seq<char>)
    requires
        0 <= i < s.len(),
        s[i].0@ == sym,
        forall|j: int| 0 <= j < i ==> s[j].0@ != sym,
    ensures
        assoc_lookup(s, sym) == Some(s[i].1),
    decreases i,
{
    if i > 0 {
        assert forall|j: int| 0 <= j < i - 1 implies s.drop_first()[j].0@ != sym by {
            assert(s[j + 1].0@ != sym);
        }
        lemma_assoc_found(s.drop_first(), i - 1, sym);
    }
}

/// When no binding's key matches `sym`, lookup finds nothing.
proof fn lemma_assoc_none(s: Seq<(Symbol, Value)>, sym: Seq<char>)
    requires
        forall|j: int| 0 <= j < s.len() ==> s[j].0@ != sym,
    ensures
        assoc_lookup(s, sym) is None,
    decreases s.len(),
{
    if s.len() > 0 {
        assert forall|j: int| 0 <= j < s.drop_first().len() implies s.drop_first()[j].0@ != sym by {
            assert(s[j + 1].0@ != sym);
        }
        lemma_assoc_none(s.drop_first(), sym);
    }
}

/// Overwriting the binding at `i` (whose key matches `sym`) makes `sym`
/// resolve to the new value and leaves every other symbol's resolution alone.
proof fn lemma_assoc_update(
    olds: Seq<(Symbol, Value)>,
    news: Seq<(Symbol, Value)>,
    i: int,
    sym: Seq<char>,
    val: Value,
)
    requires
        0 <= i < olds.len(),
        news.len() == olds.len(),
        forall|j: int| 0 <= j < olds.len() && j != i ==> news[j] == olds[j],
        olds[i].0@ == sym,
        news[i].0@ == sym,
        news[i].1 == val,
        forall|j: int| 0 <= j < i ==> olds[j].0@ != sym,
    ensures
        assoc_lookup(news, sym) == Some(val),
        forall|other: Seq<char>| other != sym ==> assoc_lookup(news, other) == assoc_lookup(olds, other),
    decreases i,
{
    if i == 0 {
        assert(assoc_lookup(news, sym) == Some(val));
        assert forall|other: Seq<char>| other != sym implies assoc_lookup(news, other)
            == assoc_lookup(olds, other) by {
            assert(news.drop_first() =~= olds.drop_first());
            assert(assoc_lookup(news, other) == assoc_lookup(news.drop_first(), other));
            assert(assoc_lookup(olds, other) == assoc_lookup(olds.drop_first(), other));
        }
    } else {
        assert forall|j: int| 0 <= j < i - 1 implies olds.drop_first()[j].0@ != sym by {
            assert(olds[j + 1].0@ != sym);
        }
        lemma_assoc_update(olds.drop_first(), news.drop_first(), i - 1, sym, val);
        assert(news[0] == olds[0]);
        assert(olds[0].0@ != sym);
        assert(assoc_lookup(news, sym) == Some(val));
        assert forall|other: Seq<char>| other != sym implies assoc_lookup(news, other)
            == assoc_lookup(olds, other) by {
            if olds[0].0@ != other {
                assert(assoc_lookup(news, other) == assoc_lookup(news.drop_first(), other));
                assert(assoc_lookup(olds, other) == assoc_lookup(olds.drop_first(), other));
            }
        }
    }
}

/// Appending a binding for a symbol that had none makes it resolve to the new
/// value and leaves every other symbol's resolution alone.
proof fn lemma_assoc_push(olds: Seq<(Symbol, Value)>, key: Symbol, sym: Seq<char>, val: Value)
    requires
        key@ == sym,
        forall|j: int| 0 <= j < olds.len() ==> olds[j].0@ != sym,
    ensures
        assoc_lookup(olds.push((key, val)), sym) == Some(val),
        forall|other: Seq<char>|
            other != sym ==> assoc_lookup(olds.push((key, val)), other) == assoc_lookup(
                olds,
                other,
            ),
    decreases olds.len(),
{
    let news = olds.push((key, val));
    if olds.len() == 0 {
        assert(news[0] == (key, val));
        assert(assoc_lookup(news, sym) == Some(val));
        assert forall|other: Seq<char>| other != sym implies assoc_lookup(news, other)
            == assoc_lookup(olds, other) by {
            assert(news.drop_first() =~= olds);
            assert(assoc_lookup(news, other) == assoc_lookup(news.drop_first(), other));
        }
    } else {
        assert forall|j: int| 0 <= j < olds.drop_first().len() implies olds.drop_first()[j].0@
            != sym by {
            assert(olds[j + 1].0@ != sym);
        }
        lemma_assoc_push(olds.drop_first(), key, sym, val);
        assert(news[0] == olds[0]);
        assert(olds[0].0@ != sym);
        assert(news.drop_first() =~= olds.drop_first().push((key, val)));
        assert(assoc_lookup(news, sym) == Some(val));
        assert forall|other: Seq<char>| other != sym implies assoc_lookup(news, other)
            == assoc_lookup(olds, other) by {
            if olds[0].0@ != other {
                assert(assoc_lookup(news, other) == assoc_lookup(news.drop_first(), other));
                assert(assoc_lookup(olds, other) == assoc_lookup(olds.drop_first(), other));
            }
        }
    }
}

/// Whatever a local lookup returns is stored in the mapping.
pub proof fn lemma_assoc_lookup_is_stored(s: Seq<(Symbol, Value)>, sym: Seq<char>)
    ensures
        assoc_lookup(s, sym) matches Some(v) ==> exists|k: int|
            0 <= k < s.len() && (#[trigger] s[k]).1 == v,
    decreases s.len(),
{
    if s.len() > 0 && s[0].0@ != sym {
        lemma_assoc_lookup_is_stored(s.drop_first(), sym);
        match assoc_lookup(s, sym) {
            Some(v) => {
                let k = choose|k: int|
                    0 <= k < s.drop_first().len() && (#[trigger] s.drop_first()[k]).1 == v;
                assert(s[k + 1].1 == v);
            },
            None => {},
        }
    }
}

/// Whatever lexical lookup returns is stored in some frame of the arena.
pub proof fn lemma_arena_lookup_is_stored(frames: Seq<Environment>, at: int, sym: Seq<char>)
    ensures
        arena_lookup(frames, at, sym) matches Some(v) ==> exists|f: int, k: int|
            0 <= f < frames.len() && 0 <= k < frames[f].env@.len() && (#[trigger] frames[f].env@[k]).1
                == v,
    decreases at,
{
    if 0 <= at < frames.len() {
        lemma_assoc_lookup_is_stored(frames[at].env@, sym);
        match assoc_lookup(frames[at].env@, sym) {
            Some(v) => {
                let k = choose|k: int|
                    0 <= k < frames[at].env@.len() && (#[trigger] frames[at].env@[k]).1 == v;
                assert(0 <= at < frames.len() && 0 <= k < frames[at].env@.len() && (
                frames[at].env@[k]).1 == v);
            },
            None => {
                match frames[at].parent {
                    Some(p) => {
                        if p < at {
                            lemma_arena_lookup_is_stored(frames, p as int, sym);
                        }
                    },
                    None => {},
                }
            },
        }
    }
}

/// A local binding decides `get`: whatever the ancestor frames hold, lookup
/// from a frame whose own mapping binds `sym` returns that local value —
/// both "`get` after `set` returns the just-set value" and "a child binding
/// shadows (without mutating) an ancestor's".
pub proof fn lemma_local_binding_shadows(
    frames: Seq<Environment>,
    e: Environment,
    sym: Seq<char>,
    v: Value,
)
    requires
        assoc_lookup(e.env@, sym) == Some(v),
    ensures
        env_lookup(frames, e, sym) == Some(v),
{
}

/// A name with no local binding resolves through the parent chain, so a name
/// bound only in an ancestor frame yields the ancestor's value.
pub proof fn lemma_absent_locally_defers_to_parent(
    frames: Seq<Environment>,
    e: Environment,
    p: usize,
    sym: Seq<char>,
)
    requires
        assoc_lookup(e.env@, sym) == None::<Value>,
        e.parent == Some(p),
    ensures
        env_lookup(frames, e, sym) == arena_lookup(frames, p as int, sym),
{
}

} // verus!
