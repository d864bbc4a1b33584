//! Environments: local frames with a parent, and remote frames backed by an
//! external symbol table, held in a store and referred to by index.
use crate::value::{Builtin, BuiltinV, Primitive, Value, ValueV};
use crate::text::{push_text, same_text};
use vstd::prelude::*;

verus! {

/// An environment frame.
#[derive(Debug)]
pub enum Env {
    /// A remote symbol table: the path prefix of its names, and whether a
    /// message channel to its server is attached.
    Dust { path: Vec<String>, connected: bool },
    /// Bindings of this frame (the last binding of a name is the one seen;
    /// `bind` keeps one per name) and the index of its parent frame.
    Local { hm: Vec<(String, Value)>, parent: Option<usize> },
}

pub enum EnvV {
    Dust { path: Seq<Seq<char>>, connected: bool },
    Local { hm: Seq<(Seq<char>, ValueV)>, parent: Option<nat> },
}

pub open spec fn bindings_view(b: Vec<(String, Value)>) -> Seq<(Seq<char>, ValueV)> {
    Seq::new(b.len() as nat, |i: int| (b[i].0@, b[i].1@))
}

pub open spec fn strings_view(v: Vec<String>) -> Seq<Seq<char>> {
    Seq::new(v.len() as nat, |i: int| v[i]@)
}

impl Env {
    pub open spec fn view(self) -> EnvV {
        match self {
            Env::Dust { path, connected } => EnvV::Dust { path: strings_view(path), connected },
            Env::Local { hm, parent } => EnvV::Local {
                hm: bindings_view(hm),
                parent: match parent {
                    Some(p) => Some(p as nat),
                    None => None,
                },
            },
        }
    }

    /// A remote frame under the prefix `path`, with its channel attached.
    pub fn new_dust(path: Vec<String>) -> (e: Env)
        ensures
            e@ == (EnvV::Dust { path: strings_view(path), connected: true }),
    {
        Env::Dust { path, connected: true }
    }

    /// The standard procedure named `symbol`, if there is one.
    pub fn standard(symbol: &String) -> (r: Option<Value>)
        ensures
            match standard_spec(symbol@) {
                Some(b) => r matches Some(v) && v@ == ValueV::Builtin(b),
                None => r is None,
            },
    {
        standard_procedure(symbol)
    }

    /// A root local frame in which the standard procedures are bound to
    /// their names.
    pub fn standard_frame() -> (e: Env)
        ensures
            e@ == (EnvV::Local {
                hm: seq![
                    (seq!['+'], ValueV::Builtin(standard_spec(seq!['+']).unwrap())),
                    (
                        seq!['c', 'a', 'l', 'l', '/', 'c', 'c'],
                        ValueV::Builtin(standard_spec(seq!['c', 'a', 'l', 'l', '/', 'c', 'c']).unwrap()),
                    ),
                ],
                parent: None,
            }),
    {
        proof {
            reveal_strlit("+");
            reveal_strlit("call/cc");
            assert("+"@ =~= seq!['+']);
            assert("call/cc"@ =~= seq!['c', 'a', 'l', 'l', '/', 'c', 'c']);
        }
        let plus = "+".to_owned();
        let callcc = "call/cc".to_owned();
        let a = standard_procedure(&plus).unwrap();
        let b = standard_procedure(&callcc).unwrap();
        let ghost av = a@;
        let ghost bv = b@;
        let hm = vec![(plus, a), (callcc, b)];
        assert(bindings_view(hm) =~= seq![(seq!['+'], av), (seq!['c', 'a', 'l', 'l', '/', 'c', 'c'], bv)]);
        Env::Local { hm, parent: None }
    }

    /// An empty local frame.
    pub fn new_local(parent: Option<usize>) -> (e: Env)
        ensures
            e@ == (EnvV::Local {
                hm: Seq::empty(),
                parent: match parent {
                    Some(p) => Some(p as nat),
                    None => None,
                },
            }),
    {
        let hm: Vec<(String, Value)> = Vec::new();
        assert(bindings_view(hm) =~= Seq::empty());
        Env::Local { hm, parent }
    }
}

/// All frames; a frame is referred to by its index.
#[derive(Debug)]
pub struct Store {
    pub frames: Vec<Env>,
}

pub open spec fn frames_view(v: Vec<Env>) -> Seq<EnvV> {
    Seq::new(v.len() as nat, |i: int| v[i]@)
}

impl Store {
    pub open spec fn view(self) -> Seq<EnvV> {
        frames_view(self.frames)
    }

    pub fn new() -> (s: Store)
        ensures
            s@ == Seq::<EnvV>::empty(),
    {
        let s = Store { frames: Vec::new() };
        assert(s@ =~= Seq::<EnvV>::empty());
        s
    }

    /// Adds a frame; its index is returned.
    pub fn add(&mut self, e: Env) -> (r: usize)
        requires
            old(self)@.len() < usize::MAX,
        ensures
            r == old(self)@.len(),
            final(self)@ == old(self)@.push(e@),
    {
        let r = self.frames.len();
        self.frames.push(e);
        assert(self@ =~= old(self)@.push(e@));
        r
    }
}

/// Position of the last binding of `name` in `b`.
pub open spec fn binding_index(b: Seq<(Seq<char>, ValueV)>, name: Seq<char>) -> Option<int>
    decreases b.len(),
{
    if b.len() == 0 {
        None
    } else if b.last().0 == name {
        Some(b.len() - 1)
    } else {
        binding_index(b.drop_last(), name)
    }
}

pub proof fn lemma_binding_index_bounds(b: Seq<(Seq<char>, ValueV)>, name: Seq<char>)
    ensures
        binding_index(b, name) matches Some(i) ==> 0 <= i < b.len() && b[i].0 == name,
    decreases b.len(),
{
    if b.len() > 0 && b.last().0 != name {
        lemma_binding_index_bounds(b.drop_last(), name);
    }
}

proof fn lemma_binding_index_none(b: Seq<(Seq<char>, ValueV)>, name: Seq<char>)
    requires
        binding_index(b, name) is None,
    ensures
        forall|i: int| 0 <= i < b.len() ==> (#[trigger] b[i]).0 != name,
    decreases b.len(),
{
    if b.len() > 0 {
        lemma_binding_index_none(b.drop_last(), name);
        assert forall|i: int| 0 <= i < b.len() implies (#[trigger] b[i]).0 != name by {
            if i < b.len() - 1 {
                assert(b[i] == b.drop_last()[i]);
            }
        }
    }
}

/// No name is bound twice in `b`.
pub open spec fn unique_keys(b: Seq<(Seq<char>, ValueV)>) -> bool {
    forall|i: int, j: int| 0 <= i < j < b.len() ==> (#[trigger] b[i]).0 != (#[trigger] b[j]).0
}

/// Binding keeps a frame free of duplicate names: a name already bound is
/// rebound in place, a new one is added once.
pub proof fn lemma_bind_keeps_keys_unique(b: Seq<(Seq<char>, ValueV)>, name: Seq<char>, v: ValueV)
    requires
        unique_keys(b),
    ensures
        unique_keys(bind(b, name, v)),
{
    lemma_binding_index_bounds(b, name);
    if binding_index(b, name) is None {
        lemma_binding_index_none(b, name);
        let c = bind(b, name, v);
        assert forall|i: int, j: int| 0 <= i < j < c.len() implies (#[trigger] c[i]).0 != (#[trigger] c[j]).0 by {
            if j == b.len() {
                assert(c[i] == b[i]);
            } else {
                assert(c[i] == b[i] && c[j] == b[j]);
            }
        }
    }
}

/// The value bound to `name` in `b`.
pub open spec fn binding(b: Seq<(Seq<char>, ValueV)>, name: Seq<char>) -> Option<ValueV> {
    match binding_index(b, name) {
        Some(i) => Some(b[i].1),
        None => None,
    }
}

/// `b` with `name` bound to `v`: the last binding of `name` is replaced, or a
/// new one is added.
pub open spec fn bind(b: Seq<(Seq<char>, ValueV)>, name: Seq<char>, v: ValueV) -> Seq<(Seq<char>, ValueV)> {
    match binding_index(b, name) {
        Some(i) => b.update(i, (name, v)),
        None => b.push((name, v)),
    }
}

/// `path` joined by `/`, then `/` and `symbol`.
pub open spec fn remote_path(path: Seq<Seq<char>>, symbol: Seq<char>) -> Seq<char>
    decreases path.len(),
{
    if path.len() == 0 {
        seq!['/'] + symbol
    } else if path.len() == 1 {
        path[0] + seq!['/'] + symbol
    } else {
        path[0] + seq!['/'] + remote_path(path.drop_first(), symbol)
    }
}

/// The standard procedures, by name.
pub open spec fn standard_spec(symbol: Seq<char>) -> Option<BuiltinV> {
    if symbol == seq!['+'] {
        Some(BuiltinV { name: symbol, f: Primitive::Add, min_args: 1, max_args: None })
    } else if symbol == seq!['c', 'a', 'l', 'l', '/', 'c', 'c'] {
        Some(BuiltinV { name: symbol, f: Primitive::CallCc, min_args: 1, max_args: Some(1) })
    } else {
        None
    }
}

/// The standard procedure named `symbol`, if there is one.
pub fn standard_procedure(symbol: &String) -> (r: Option<Value>)
    ensures
        match standard_spec(symbol@) {
            Some(b) => r matches Some(v) && v@ == ValueV::Builtin(b),
            None => r is None,
        },
{
    proof {
        reveal_strlit("+");
        reveal_strlit("call/cc");
        assert("+"@ =~= seq!['+']);
        assert("call/cc"@ =~= seq!['c', 'a', 'l', 'l', '/', 'c', 'c']);
    }
    if same_text(symbol.as_str(), "+") {
        Some(Value::Builtin(Builtin { name: symbol.clone(), f: Primitive::Add, min_args: 1, max_args: None }))
    } else if same_text(symbol.as_str(), "call/cc") {
        Some(
            Value::Builtin(
                Builtin { name: symbol.clone(), f: Primitive::CallCc, min_args: 1, max_args: Some(1) },
            ),
        )
    } else {
        None
    }
}

/// Index of the last binding of `name` in `b`.
pub fn find_binding(b: &Vec<(String, Value)>, name: &String) -> (r: Option<usize>)
    ensures
        match binding_index(bindings_view(*b), name@) {
            Some(i) => r == Some(i as usize),
            None => r is None,
        },
{
    let ghost bv = bindings_view(*b);
    let mut i: usize = b.len();
    assert(bv.take(i as int) =~= bv);
    while i > 0
        invariant
            i <= b@.len(),
            bv == bindings_view(*b),
            binding_index(bv, name@) == binding_index(bv.take(i as int), name@),
        decreases i,
    {
        let ghost t = bv.take(i as int);
        assert(t.drop_last() =~= bv.take(i - 1));
        if same_text(b[i - 1].0.as_str(), name.as_str()) {
            return Some(i - 1);
        }
        i = i - 1;
    }
    assert(bv.take(0) =~= Seq::<(Seq<char>, ValueV)>::empty());
    None
}

/// Binds `name` to `v` in the local frame `b`; the previous value, if any, is
/// returned.
pub fn bind_local(b: &mut Vec<(String, Value)>, name: String, v: Value) -> (r: Option<Value>)
    ensures
        bindings_view(*final(b)) == bind(bindings_view(*old(b)), name@, v@),
        match binding(bindings_view(*old(b)), name@) {
            Some(x) => r matches Some(y) && y@ == x,
            None => r is None,
        },
{
    let ghost nv = name@;
    let ghost vv = v@;
    proof {
        lemma_binding_index_bounds(bindings_view(*b), name@);
    }
    match find_binding(b, &name) {
        Some(i) => {
            let old_pair = b.remove(i);
            b.insert(i, (name, v));
            let old_val = old_pair.1;
            assert(bindings_view(*b) =~= bindings_view(*old(b)).update(i as int, (nv, vv)));
            Some(old_val)
        },
        None => {
            b.push((name, v));
            assert(bindings_view(*b) =~= bindings_view(*old(b)).push((nv, vv)));
            None
        },
    }
}

/// The full remote name of `symbol` under `path`.
pub fn join_path(path: &Vec<String>, symbol: &String) -> (r: String)
    ensures
        r@ == remote_path(strings_view(*path), symbol@),
{
    let ghost pv = strings_view(*path);
    let mut out = String::new();
    let mut i: usize = 0;
    proof {
        reveal_strlit("/");
        assert("/"@ =~= seq!['/']);
    }
    if path.len() == 0 {
        push_text(&mut out, "/");
        push_text(&mut out, symbol.as_str());
        assert(out@ =~= seq!['/'] + symbol@);
        return out;
    }
    assert(out@ =~= Seq::<char>::empty());
    assert(pv.subrange(0, pv.len() as int) =~= pv);
    assert(out@ + remote_path(pv, symbol@) =~= remote_path(pv, symbol@));
    while i + 1 < path.len()
        invariant
            pv == strings_view(*path),
            path@.len() >= 1,
            i < path@.len(),
            out@ + remote_path(pv.subrange(i as int, pv.len() as int), symbol@) == remote_path(pv, symbol@),
        decreases path@.len() - i,
    {
        let ghost rest = pv.subrange(i as int, pv.len() as int);
        assert(rest.drop_first() =~= pv.subrange(i + 1, pv.len() as int));
        assert(rest[0] == path@[i as int]@);
        let ghost before = out@;
        proof {
            reveal_strlit("/");
            assert("/"@ =~= seq!['/']);
        }
        push_text(&mut out, path[i].as_str());
        push_text(&mut out, "/");
        assert(before + (rest[0] + seq!['/'] + remote_path(rest.drop_first(), symbol@)) =~= out@ + remote_path(
            rest.drop_first(),
            symbol@,
        ));
        i = i + 1;
    }
    let ghost rest = pv.subrange(i as int, pv.len() as int);
    assert(rest.len() == 1);
    assert(rest[0] == path@[i as int]@);
    let ghost before = out@;
    proof {
        reveal_strlit("/");
        assert("/"@ =~= seq!['/']);
    }
    push_text(&mut out, path[i].as_str());
    push_text(&mut out, "/");
    push_text(&mut out, symbol.as_str());
    assert(before + (rest[0] + seq!['/'] + symbol@) =~= out@);
    out
}

} // verus!
