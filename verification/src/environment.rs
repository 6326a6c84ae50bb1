//! The lexical scope chain, held as an arena of frames.
//!
//! A frame maps names to values and points at its enclosing frame by
//! index.  Blocks and calls push fresh frames; a closure keeps the index
//! of its defining frame, so a scope stays reachable for as long as any
//! closure (or the running block itself) still refers to it.  Frames are
//! modelled as `Map<Seq<char>, GVal>` and the three operations `define`,
//! `get` and `assign` are specified exactly against `s_resolve` and
//! `s_lookup`.
use vstd::prelude::*;

use crate::error::GErr;
use crate::error::RuntimeError;
use crate::token::GVal;
use crate::token::Token;
use crate::token::Value;

verus! {

/// One scope: its bindings, in insertion order, and the index of the
/// enclosing frame (`None` only for the global scope).
#[derive(Debug)]
pub struct Frame {
    pub entries: Vec<(String, Value)>,
    pub parent: Option<usize>,
}

/// The ghost model of one scope.
#[verifier::ext_equal]
pub ghost struct GFrame {
    pub vars: Map<Seq<char>, GVal>,
    pub parent: Option<int>,
}

/// The map denoted by an association list; a later entry for the same
/// name shadows an earlier one.
pub open spec fn assoc_map(es: Seq<(String, Value)>) -> Map<Seq<char>, GVal>
    decreases es.len(),
{
    if es.len() == 0 {
        Map::empty()
    } else {
        assoc_map(es.subrange(0, es.len() - 1)).insert(
            es[es.len() - 1].0@,
            es[es.len() - 1].1@,
        )
    }
}

impl View for Frame {
    type V = GFrame;

    open spec fn view(&self) -> GFrame {
        GFrame {
            vars: assoc_map(self.entries@),
            parent: match self.parent {
                Some(p) => Some(p as int),
                None => None,
            },
        }
    }
}

/// The frame at index `i` points strictly downwards (or is the root).
pub open spec fn frame_parent_ok(frames: Seq<GFrame>, i: int) -> bool {
    match frames[i].parent {
        Some(p) => 0 <= p < i,
        None => true,
    }
}

/// A well-formed arena: nonempty, and every parent link points at an
/// earlier frame, so every chain reaches a root and is acyclic.
pub open spec fn frames_wf(frames: Seq<GFrame>) -> bool {
    &&& frames.len() >= 1
    &&& forall|i: int| 0 <= i < frames.len() ==> #[trigger] frame_parent_ok(frames, i)
}

/// The scope, walking outwards from `env`, that defines `name`; `None`
/// when no reachable scope does.  Total even on malformed chains: a
/// parent link that does not point strictly downwards counts as a root.
pub open spec fn s_resolve(frames: Seq<GFrame>, env: int, name: Seq<char>) -> Option<int>
    decreases (if env >= 0 { env } else { 0 }),
{
    if !(0 <= env < frames.len()) {
        None
    } else if frames[env].vars.contains_key(name) {
        Some(env)
    } else {
        match frames[env].parent {
            Some(p) => if 0 <= p < env {
                s_resolve(frames, p, name)
            } else {
                None
            },
            None => None,
        }
    }
}

/// The value bound to `name` as seen from scope `env`.
pub open spec fn s_lookup(frames: Seq<GFrame>, env: int, name: Seq<char>) -> Option<GVal> {
    match s_resolve(frames, env, name) {
        Some(i) => Some(frames[i].vars[name]),
        None => None,
    }
}

/// A value is well formed for an arena of `n` frames when any scope it
/// captures exists.
pub open spec fn gval_wf(v: GVal, n: int) -> bool {
    match v {
        GVal::Fun { name, params, body, closure } => 0 <= closure < n,
        _ => true,
    }
}

/// Every value bound in `f` is well formed for `n` frames.
pub open spec fn frame_vals_wf(f: GFrame, n: int) -> bool {
    forall|k: Seq<char>| #[trigger] f.vars.contains_key(k) ==> gval_wf(f.vars[k], n)
}

/// Every value anywhere in the arena captures an existing scope.
pub open spec fn frames_vals_wf(frames: Seq<GFrame>) -> bool {
    forall|i: int| 0 <= i < frames.len() ==> frame_vals_wf(
        #[trigger] frames[i],
        frames.len() as int,
    )
}

/// Full well-formedness of an arena.
pub open spec fn env_wf(frames: Seq<GFrame>) -> bool {
    frames_wf(frames) && frames_vals_wf(frames)
}

/// Every value of the sequence is well formed for `n` frames.
pub open spec fn vals_wf(vs: Seq<GVal>, n: int) -> bool {
    forall|j: int| 0 <= j < vs.len() ==> gval_wf(#[trigger] vs[j], n)
}

/// A successful lookup in a well-formed arena yields a well-formed value.
pub proof fn lemma_lookup_wf(frames: Seq<GFrame>, env: int, name: Seq<char>)
    requires
        env_wf(frames),
    ensures
        match s_lookup(frames, env, name) {
            Some(v) => gval_wf(v, frames.len() as int),
            None => true,
        },
{
    lemma_resolve_in_range(frames, env, name);
    lemma_resolve_found(frames, env, name);
}

/// Binding a well-formed value keeps the arena well formed.
pub proof fn lemma_wf_define(frames: Seq<GFrame>, i: int, name: Seq<char>, v: GVal)
    requires
        env_wf(frames),
        0 <= i < frames.len(),
        gval_wf(v, frames.len() as int),
    ensures
        env_wf(
            frames.update(
                i,
                GFrame { vars: frames[i].vars.insert(name, v), parent: frames[i].parent },
            ),
        ),
{
    let updated = frames.update(
        i,
        GFrame { vars: frames[i].vars.insert(name, v), parent: frames[i].parent },
    );
    assert forall|j: int| 0 <= j < updated.len() implies #[trigger] frame_parent_ok(updated, j) by {
        assert(frame_parent_ok(frames, j));
    }
    assert forall|j: int| 0 <= j < updated.len() implies frame_vals_wf(
        #[trigger] updated[j],
        updated.len() as int,
    ) by {
        assert(frame_vals_wf(frames[j], frames.len() as int));
        if j == i {
            assert forall|k: Seq<char>| #[trigger] updated[j].vars.contains_key(k) implies gval_wf(
                updated[j].vars[k],
                updated.len() as int,
            ) by {
                if k != name {
                    assert(frames[j].vars.contains_key(k));
                }
            }
        }
    }
}

/// Pushing a frame whose parent exists and whose values are well formed
/// keeps the arena well formed.
pub proof fn lemma_wf_push(frames: Seq<GFrame>, f: GFrame)
    requires
        env_wf(frames),
        match f.parent {
            Some(p) => 0 <= p < frames.len(),
            None => true,
        },
        frame_vals_wf(f, frames.len() as int),
    ensures
        env_wf(frames.push(f)),
{
    let pushed = frames.push(f);
    assert forall|j: int| 0 <= j < pushed.len() implies #[trigger] frame_parent_ok(pushed, j) by {
        if j < frames.len() {
            assert(frame_parent_ok(frames, j));
            assert(pushed[j] == frames[j]);
        }
    }
    assert forall|j: int| 0 <= j < pushed.len() implies frame_vals_wf(
        #[trigger] pushed[j],
        pushed.len() as int,
    ) by {
        if j < frames.len() {
            assert(frame_vals_wf(frames[j], frames.len() as int));
            assert(pushed[j] == frames[j]);
            assert forall|k: Seq<char>| #[trigger] pushed[j].vars.contains_key(k) implies gval_wf(
                pushed[j].vars[k],
                pushed.len() as int,
            ) by {
                assert(gval_wf(frames[j].vars[k], frames.len() as int));
            }
        } else {
            assert(pushed[j] == f);
            assert forall|k: Seq<char>| #[trigger] pushed[j].vars.contains_key(k) implies gval_wf(
                pushed[j].vars[k],
                pushed.len() as int,
            ) by {
                assert(gval_wf(f.vars[k], frames.len() as int));
            }
        }
    }
}

/// If the entry at `j` is the last one for its name, the association map
/// binds that name to its value.
proof fn lemma_assoc_last(es: Seq<(String, Value)>, j: int, k: Seq<char>)
    requires
        0 <= j < es.len(),
        es[j].0@ == k,
        forall|m: int| j < m < es.len() ==> es[m].0@ != k,
    ensures
        assoc_map(es).contains_key(k),
        assoc_map(es)[k] == es[j].1@,
    decreases es.len(),
{
    if j == es.len() - 1 {
    } else {
        let prefix = es.subrange(0, es.len() - 1);
        assert(prefix[j] == es[j]);
        assert forall|m: int| j < m < prefix.len() implies prefix[m].0@ != k by {
            assert(prefix[m] == es[m]);
        }
        lemma_assoc_last(prefix, j, k);
    }
}

/// A name that no entry carries is absent from the association map.
proof fn lemma_assoc_none(es: Seq<(String, Value)>, k: Seq<char>)
    requires
        forall|m: int| 0 <= m < es.len() ==> es[m].0@ != k,
    ensures
        !assoc_map(es).contains_key(k),
    decreases es.len(),
{
    if es.len() > 0 {
        let prefix = es.subrange(0, es.len() - 1);
        assert forall|m: int| 0 <= m < prefix.len() implies prefix[m].0@ != k by {
            assert(prefix[m] == es[m]);
        }
        lemma_assoc_none(prefix, k);
    }
}

/// Replacing the last entry for a name rebinds exactly that name.
proof fn lemma_assoc_update(es: Seq<(String, Value)>, j: int, p: (String, Value))
    requires
        0 <= j < es.len(),
        p.0@ == es[j].0@,
        forall|m: int| j < m < es.len() ==> es[m].0@ != es[j].0@,
    ensures
        assoc_map(es.update(j, p)) =~= assoc_map(es).insert(p.0@, p.1@),
    decreases es.len(),
{
    let updated = es.update(j, p);
    if j == es.len() - 1 {
        assert(updated.subrange(0, es.len() - 1) =~= es.subrange(0, es.len() - 1));
    } else {
        let prefix = es.subrange(0, es.len() - 1);
        assert(prefix[j] == es[j]);
        assert forall|m: int| j < m < prefix.len() implies prefix[m].0@ != prefix[j].0@ by {
            assert(prefix[m] == es[m]);
        }
        lemma_assoc_update(prefix, j, p);
        assert(updated.subrange(0, updated.len() - 1) =~= prefix.update(j, p));
        assert(updated[updated.len() - 1] == es[es.len() - 1]);
        assert(assoc_map(prefix).insert(p.0@, p.1@).insert(es[es.len() - 1].0@, es[es.len() - 1].1@)
            =~= assoc_map(prefix).insert(es[es.len() - 1].0@, es[es.len() - 1].1@).insert(
            p.0@,
            p.1@,
        ));
    }
}

/// Finds the index of the last entry for `name`, the one the map view
/// binds; `None` when the frame does not define `name`.
fn find_last(entries: &Vec<(String, Value)>, name: &String) -> (r: Option<usize>)
    ensures
        match r {
            Some(j) => {
                &&& j < entries@.len()
                &&& entries@[j as int].0@ == name@
                &&& forall|m: int| j < m < entries@.len() ==> entries@[m].0@ != name@
                &&& assoc_map(entries@).contains_key(name@)
                &&& assoc_map(entries@)[name@] == entries@[j as int].1@
            },
            None => !assoc_map(entries@).contains_key(name@),
        },
{
    let mut i = entries.len();
    while i > 0
        invariant
            i <= entries@.len(),
            forall|m: int| i <= m < entries@.len() ==> entries@[m].0@ != name@,
        decreases i,
    {
        i = i - 1;
        let pair = &entries[i];
        if pair.0.eq(name) {
            proof {
                lemma_assoc_last(entries@, i as int, name@);
            }
            return Some(i);
        }
    }
    proof {
        lemma_assoc_none(entries@, name@);
    }
    None
}

/// The arena of scopes.  Scope handles are indices into `frames`; handle
/// 0 is the global scope.
#[derive(Debug)]
pub struct Environment {
    pub frames: Vec<Frame>,
}

impl View for Environment {
    type V = Seq<GFrame>;

    open spec fn view(&self) -> Seq<GFrame> {
        self.frames@.map_values(|f: Frame| f@)
    }
}

impl Environment {
    /// A fresh arena holding only the empty global scope.
    pub fn new() -> (env: Self)
        ensures
            env@ =~= seq![GFrame { vars: Map::empty(), parent: None }],
            frames_wf(env@),
    {
        let mut frames: Vec<Frame> = Vec::new();
        frames.push(Frame { entries: Vec::new(), parent: None });
        let env = Environment { frames };
        proof {
            assert(env@ =~= seq![GFrame { vars: assoc_map(Seq::<(String, Value)>::empty()), parent: None }]);
            assert(assoc_map(Seq::<(String, Value)>::empty()) =~= Map::<Seq<char>, GVal>::empty());
        }
        env
    }

    /// Opens a child scope enclosed by `parent` and returns its handle.
    pub fn new_scope(&mut self, parent: usize) -> (idx: usize)
        requires
            parent < old(self)@.len(),
        ensures
            idx == old(self)@.len(),
            final(self)@ =~= old(self)@.push(
                GFrame { vars: Map::empty(), parent: Some(parent as int) },
            ),
    {
        let idx = self.frames.len();
        self.frames.push(Frame { entries: Vec::new(), parent: Some(parent) });
        proof {
            assert(assoc_map(Seq::<(String, Value)>::empty()) =~= Map::<Seq<char>, GVal>::empty());
            assert(self@ =~= old(self)@.push(
                GFrame { vars: Map::empty(), parent: Some(parent as int) },
            ));
        }
        idx
    }

    /// Binds `name` to `value` in scope `scope` itself, creating the
    /// binding or replacing a previous one; never touches an enclosing
    /// scope.
    pub fn define(&mut self, scope: usize, name: String, value: Value)
        requires
            scope < old(self)@.len(),
        ensures
            final(self)@ =~= old(self)@.update(
                scope as int,
                GFrame {
                    vars: old(self)@[scope as int].vars.insert(name@, value@),
                    parent: old(self)@[scope as int].parent,
                },
            ),
    {
        let ghost gname = name@;
        let ghost gvalue = value@;
        let frame = &mut self.frames[scope];
        let ghost old_entries = frame.entries@;
        frame.entries.push((name, value));
        proof {
            assert(frame.entries@.subrange(0, old_entries.len() as int) =~= old_entries);
            assert(assoc_map(frame.entries@) =~= assoc_map(old_entries).insert(gname, gvalue));
            assert(self@ =~= old(self)@.update(
                scope as int,
                GFrame {
                    vars: old(self)@[scope as int].vars.insert(gname, gvalue),
                    parent: old(self)@[scope as int].parent,
                },
            ));
        }
    }

    /// The scope, walking outwards from `scope`, that defines `name`.
    fn resolve_scope(&self, scope: usize, name: &String) -> (r: Option<usize>)
        requires
            frames_wf(self@),
            scope < self@.len(),
        ensures
            match r {
                Some(i) => i < self@.len() && s_resolve(self@, scope as int, name@) == Some(
                    i as int,
                ),
                None => s_resolve(self@, scope as int, name@) is None,
            },
    {
        let mut cur = scope;
        loop
            invariant
                frames_wf(self@),
                cur < self@.len(),
                s_resolve(self@, scope as int, name@) == s_resolve(self@, cur as int, name@),
            decreases cur,
        {
            match find_last(&self.frames[cur].entries, name) {
                Some(_) => {
                    return Some(cur);
                },
                None => {
                    match self.frames[cur].parent {
                        Some(p) => {
                            proof {
                                assert(frame_parent_ok(self@, cur as int));
                            }
                            cur = p;
                        },
                        None => {
                            return None;
                        },
                    }
                },
            }
        }
    }

    /// Reads the value of `name` as seen from scope `scope`; fails with
    /// `UndefinedVariable` exactly when no reachable scope defines it.
    pub fn get(&self, scope: usize, name: &Token) -> (r: Result<Value, RuntimeError>)
        requires
            frames_wf(self@),
            scope < self@.len(),
        ensures
            match r {
                Result::Ok(v) => s_lookup(self@, scope as int, name.lexeme@) == Some(v@),
                Result::Err(e) => s_lookup(self@, scope as int, name.lexeme@) is None && e@
                    == GErr::UndefinedVariable { name: name.lexeme@, line: name.line as int },
            },
    {
        match self.resolve_scope(scope, &name.lexeme) {
            Some(i) => {
                proof {
                    lemma_resolve_found(self@, scope as int, name.lexeme@);
                    assert(self@[i as int] == self.frames@[i as int]@);
                }
                match find_last(&self.frames[i].entries, &name.lexeme) {
                    Some(j) => Result::Ok(self.frames[i].entries[j].1.clone()),
                    None => {
                        proof {
                            assert(false);
                        }
                        Result::Err(RuntimeError::ResourceExhausted)
                    },
                }
            },
            None => Result::Err(
                RuntimeError::UndefinedVariable { name: name.lexeme.clone(), line: name.line },
            ),
        }
    }

    /// Rebinds `name` in the nearest enclosing scope that already defines
    /// it; unlike `define`, never creates a binding, and fails with
    /// `UndefinedVariable` when the name is nowhere defined.
    pub fn assign(&mut self, scope: usize, name: &Token, value: Value) -> (r: Result<
        (),
        RuntimeError,
    >)
        requires
            frames_wf(old(self)@),
            scope < old(self)@.len(),
        ensures
            match s_resolve(old(self)@, scope as int, name.lexeme@) {
                Some(i) => r is Ok && final(self)@ =~= old(self)@.update(
                    i,
                    GFrame {
                        vars: old(self)@[i].vars.insert(name.lexeme@, value@),
                        parent: old(self)@[i].parent,
                    },
                ),
                None => final(self)@ == old(self)@ && (r matches Result::Err(e) && e@
                    == GErr::UndefinedVariable { name: name.lexeme@, line: name.line as int }),
            },
    {
        match self.resolve_scope(scope, &name.lexeme) {
            Some(i) => {
                proof {
                    lemma_resolve_found(self@, scope as int, name.lexeme@);
                    assert(self@[i as int] == self.frames@[i as int]@);
                }
                let ghost gvalue = value@;
                let frame = &mut self.frames[i];
                let ghost old_frame_entries = frame.entries@;
                match find_last(&frame.entries, &name.lexeme) {
                    Some(j) => {
                        let key = frame.entries[j].0.clone();
                        frame.entries[j] = (key, value);
                        proof {
                            lemma_assoc_update(
                                old_frame_entries,
                                j as int,
                                (frame.entries@[j as int].0, frame.entries@[j as int].1),
                            );
                            assert(frame.entries@ =~= old_frame_entries.update(
                                j as int,
                                (frame.entries@[j as int].0, frame.entries@[j as int].1),
                            ));
                            assert(self@ =~= old(self)@.update(
                                i as int,
                                GFrame {
                                    vars: old(self)@[i as int].vars.insert(name.lexeme@, gvalue),
                                    parent: old(self)@[i as int].parent,
                                },
                            ));
                        }
                        Result::Ok(())
                    },
                    None => {
                        proof {
                            assert(false);
                        }
                        Result::Err(RuntimeError::ResourceExhausted)
                    },
                }
            },
            None => Result::Err(
                RuntimeError::UndefinedVariable { name: name.lexeme.clone(), line: name.line },
            ),
        }
    }
}

/// Rebinding a name in the frame both scopes resolve it to leaves every
/// resolution unchanged.
proof fn lemma_resolve_stable(frames: Seq<GFrame>, b: int, name: Seq<char>, v: GVal, i: int)
    requires
        0 <= i < frames.len(),
        frames[i].vars.contains_key(name),
    ensures
        s_resolve(
            frames.update(
                i,
                GFrame { vars: frames[i].vars.insert(name, v), parent: frames[i].parent },
            ),
            b,
            name,
        ) == s_resolve(frames, b, name),
    decreases (if b >= 0 { b } else { 0 }),
{
    let updated = frames.update(
        i,
        GFrame { vars: frames[i].vars.insert(name, v), parent: frames[i].parent },
    );
    if 0 <= b < frames.len() {
        assert(updated[b].vars.contains_key(name) == frames[b].vars.contains_key(name));
        assert(updated[b].parent == frames[b].parent);
        if !frames[b].vars.contains_key(name) {
            match frames[b].parent {
                Some(p) => {
                    if 0 <= p < b {
                        lemma_resolve_stable(frames, p, name, v, i);
                    }
                },
                None => {},
            }
        }
    }
}

/// Closures capture scopes by reference, not by value snapshot: when two
/// scopes (say, a still-running block and the closure of a function it
/// returned) resolve a name to the same frame, an assignment made through
/// the first is seen by a later read through the second.
pub proof fn lemma_closure_sees_assign(
    frames: Seq<GFrame>,
    a: int,
    b: int,
    name: Seq<char>,
    v: GVal,
    i: int,
)
    requires
        s_resolve(frames, a, name) == Some(i),
        s_resolve(frames, b, name) == Some(i),
    ensures
        s_lookup(
            frames.update(
                i,
                GFrame { vars: frames[i].vars.insert(name, v), parent: frames[i].parent },
            ),
            b,
            name,
        ) == Some(v),
{
    lemma_resolve_in_range(frames, a, name);
    lemma_resolve_found(frames, a, name);
    lemma_resolve_stable(frames, b, name, v, i);
}

/// A successful resolution lands on a frame that exists.
pub proof fn lemma_resolve_in_range(frames: Seq<GFrame>, env: int, name: Seq<char>)
    ensures
        match s_resolve(frames, env, name) {
            Some(i) => 0 <= i < frames.len(),
            None => true,
        },
    decreases (if env >= 0 { env } else { 0 }),
{
    if 0 <= env < frames.len() && !frames[env].vars.contains_key(name) {
        match frames[env].parent {
            Some(p) => {
                if 0 <= p < env {
                    lemma_resolve_in_range(frames, p, name);
                }
            },
            None => {},
        }
    }
}

/// A successful resolution lands on a frame that defines the name.
pub proof fn lemma_resolve_found(frames: Seq<GFrame>, env: int, name: Seq<char>)
    ensures
        match s_resolve(frames, env, name) {
            Some(i) => frames[i].vars.contains_key(name),
            None => true,
        },
    decreases (if env >= 0 { env } else { 0 }),
{
    if 0 <= env < frames.len() && !frames[env].vars.contains_key(name) {
        match frames[env].parent {
            Some(p) => {
                if 0 <= p < env {
                    lemma_resolve_found(frames, p, name);
                }
            },
            None => {},
        }
    }
}

} // verus!
