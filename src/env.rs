//! Environments: chains of frames that bind names to values.
use crate::expr::{Expr, ExprV};
use crate::parser::same_text;
use vstd::prelude::*;

verus! {

/// The bindings of a frame, later ones overriding earlier ones of the same name.
pub open spec fn bindings_map(b: Seq<(String, Expr)>) -> Map<Seq<char>, ExprV>
    decreases b.len(),
{
    if b.len() == 0 {
        Map::empty()
    } else {
        bindings_map(b.drop_last()).insert(b.last().0@, b.last().1@)
    }
}

/// The view of an optional expression.
pub open spec fn opt_view(r: Option<Expr>) -> Option<ExprV> {
    match r {
        Some(e) => Some(e@),
        None => None,
    }
}

/// What a name is bound to in a frame.
pub open spec fn frame_get(f: Map<Seq<char>, ExprV>, k: Seq<char>) -> Option<ExprV> {
    if f.contains_key(k) {
        Some(f[k])
    } else {
        None
    }
}

/// What a name resolves to in a chain of frames, the innermost last: the
/// nearest binding, looking outward.
pub open spec fn lookup_in(fs: Seq<Map<Seq<char>, ExprV>>, k: Seq<char>) -> Option<ExprV>
    decreases fs.len(),
{
    if fs.len() == 0 {
        None
    } else if fs.last().contains_key(k) {
        Some(fs.last()[k])
    } else {
        lookup_in(fs.drop_last(), k)
    }
}

/// Binds a name in the innermost frame of a chain.
pub open spec fn define_in(fs: Seq<Map<Seq<char>, ExprV>>, k: Seq<char>, v: ExprV) -> Seq<
    Map<Seq<char>, ExprV>,
> {
    fs.update(fs.len() - 1, fs.last().insert(k, v))
}

/// One level of bindings.
pub struct Frame {
    bindings: Vec<(String, Expr)>,
}

impl View for Frame {
    type V = Map<Seq<char>, ExprV>;

    closed spec fn view(&self) -> Map<Seq<char>, ExprV> {
        bindings_map(self.bindings@)
    }
}

/// Where `i` is the last binding of `k` (or `-1` where there is none), the
/// frame binds `k` to its value (or leaves `k` unbound).
proof fn lemma_bindings_get(b: Seq<(String, Expr)>, i: int, k: Seq<char>)
    requires
        -1 <= i < b.len(),
        i >= 0 ==> b[i].0@ == k,
        forall|j: int| i < j < b.len() ==> (#[trigger] b[j]).0@ != k,
    ensures
        i >= 0 ==> bindings_map(b).contains_key(k) && bindings_map(b)[k] == b[i].1@,
        i == -1 ==> !bindings_map(b).contains_key(k),
    decreases b.len(),
{
    if b.len() > 0 && i != b.len() - 1 {
        let init = b.drop_last();
        assert forall|j: int| i < j < init.len() implies (#[trigger] init[j]).0@ != k by {
            assert(init[j] == b[j]);
        }
        lemma_bindings_get(init, i, k);
        if i >= 0 {
            assert(init[i] == b[i]);
        }
    }
}

/// Replacing the last binding of `k` rebinds `k` and keeps the rest.
proof fn lemma_bindings_update(b: Seq<(String, Expr)>, i: int, k: String, v: Expr)
    requires
        0 <= i < b.len(),
        b[i].0@ == k@,
        forall|j: int| i < j < b.len() ==> (#[trigger] b[j]).0@ != k@,
    ensures
        bindings_map(b.update(i, (k, v))) == bindings_map(b).insert(k@, v@),
    decreases b.len(),
{
    let u = b.update(i, (k, v));
    let init = b.drop_last();
    assert(u.drop_last() == if i == b.len() - 1 {
        init
    } else {
        init.update(i, (k, v))
    });
    if i == b.len() - 1 {
        assert(bindings_map(u) =~= bindings_map(b).insert(k@, v@));
    } else {
        assert forall|j: int| i < j < init.len() implies (#[trigger] init[j]).0@ != k@ by {
            assert(init[j] == b[j]);
        }
        lemma_bindings_update(init, i, k, v);
        assert(b.last().0@ != k@);
        assert(bindings_map(u) =~= bindings_map(b).insert(k@, v@));
    }
}

impl Frame {
    pub fn new() -> (r: Frame)
        ensures
            r@ == Map::<Seq<char>, ExprV>::empty(),
    {
        Frame { bindings: Vec::new() }
    }

    /// The index of the last binding of `name`.
    fn find(&self, name: &str) -> (r: Option<usize>)
        ensures
            r matches Some(i) ==> i < self.bindings.len() && self.bindings@[i as int].0@ == name@,
            forall|j: int|
                (if let Some(i) = r {
                    i < j
                } else {
                    0 <= j
                }) && j < self.bindings.len() ==> (#[trigger] self.bindings@[j]).0@ != name@,
    {
        let mut idx: usize = self.bindings.len();
        while idx > 0
            invariant
                idx <= self.bindings.len(),
                forall|j: int| idx <= j < self.bindings.len() ==> (#[trigger] self.bindings@[j]).0@ != name@,
            decreases idx,
        {
            idx = idx - 1;
            if same_text(self.bindings[idx].0.as_str(), name) {
                return Some(idx);
            }
        }
        None
    }

    /// A copy of the value that `name` is bound to here.
    pub fn get(&self, name: &str) -> (r: Option<Expr>)
        ensures
            opt_view(r) == frame_get(self@, name@),
    {
        match self.find(name) {
            Some(i) => {
                proof {
                    lemma_bindings_get(self.bindings@, i as int, name@);
                }
                Some(self.bindings[i].1.duplicate())
            },
            None => {
                proof {
                    lemma_bindings_get(self.bindings@, -1, name@);
                }
                None
            },
        }
    }

    /// Binds `name` to `value`, replacing a binding of the same name.
    pub fn define(&mut self, name: String, value: Expr)
        ensures
            final(self)@ == old(self)@.insert(name@, value@),
    {
        match self.find(name.as_str()) {
            Some(i) => {
                proof {
                    lemma_bindings_update(self.bindings@, i as int, name, value);
                }
                self.bindings.set(i, (name, value));
            },
            None => {
                let ghost before = self.bindings@;
                self.bindings.push((name, value));
                assert(self.bindings@.drop_last() == before);
            },
        }
    }
}

/// A chain of frames. The last is the innermost, whose parent is the one
/// before it; the first is the root, which has none.
pub struct Env {
    frames: Vec<Frame>,
}

impl View for Env {
    type V = Seq<Map<Seq<char>, ExprV>>;

    closed spec fn view(&self) -> Seq<Map<Seq<char>, ExprV>> {
        self.frames@.map_values(|f: Frame| f@)
    }
}

impl Env {
    /// An environment that holds only an empty root frame.
    pub fn new() -> (r: Env)
        ensures
            r@ == seq![Map::<Seq<char>, ExprV>::empty()],
    {
        let mut frames: Vec<Frame> = Vec::new();
        frames.push(Frame::new());
        let r = Env { frames };
        assert(r@ =~= seq![Map::<Seq<char>, ExprV>::empty()]);
        r
    }

    /// The number of frames in the chain.
    pub fn depth(&self) -> (r: usize)
        ensures
            r == self@.len(),
    {
        self.frames.len()
    }

    /// What `name` resolves to: the nearest binding, from the innermost frame
    /// outward.
    pub fn lookup(&self, name: &str) -> (r: Option<Expr>)
        ensures
            opt_view(r) == lookup_in(self@, name@),
    {
        let ghost fs = self@;
        let mut idx: usize = self.frames.len();
        assert(fs.take(idx as int) == fs);
        while idx > 0
            invariant
                idx <= self.frames.len(),
                fs == self@,
                lookup_in(fs.take(idx as int), name@) == lookup_in(fs, name@),
            decreases idx,
        {
            idx = idx - 1;
            assert(fs.take(idx + 1).drop_last() == fs.take(idx as int));
            assert(fs.take(idx + 1).last() == self.frames@[idx as int]@);
            let found = self.frames[idx].get(name);
            if found.is_some() {
                return found;
            }
        }
        None
    }

    /// Binds `name` to `value` in the innermost frame.
    pub fn define(&mut self, name: String, value: Expr)
        requires
            old(self)@.len() > 0,
        ensures
            final(self)@ == define_in(old(self)@, name@, value@),
    {
        let mut f = self.frames.pop().unwrap();
        f.define(name, value);
        self.frames.push(f);
        assert(self@ =~= define_in(old(self)@, name@, value@));
    }

    /// Opens a new, empty innermost frame, whose parent is the current one.
    pub fn push_frame(&mut self)
        ensures
            final(self)@ == old(self)@.push(Map::empty()),
    {
        self.frames.push(Frame::new());
        assert(self@ =~= old(self)@.push(Map::empty()));
    }

    /// Discards the innermost frame.
    pub fn pop_frame(&mut self)
        requires
            old(self)@.len() > 0,
        ensures
            final(self)@ == old(self)@.drop_last(),
    {
        self.frames.pop();
        assert(self@ =~= old(self)@.drop_last());
    }
}

} // verus!
