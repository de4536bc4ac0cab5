//! Variable scopes of script evaluation.
use vstd::prelude::*;
use std::rc::Rc;
use crate::types::Val;

verus! {

/// `Rc::clone`: another pointer to the same allocation, so the value it points
/// to is the same.
#[verifier::external_body]
pub(crate) fn rc_clone<T>(r: &Rc<T>) -> (s: Rc<T>)
    ensures
        s == *r,
{
    Rc::clone(r)
}

/// The bindings of a list of `(name, value)` pairs, names as text.
pub open spec fn binding_view(data: Seq<(String, Rc<Val>)>) -> Seq<(Seq<char>, Val)> {
    data.map_values(|e: (String, Rc<Val>)| (e.0@, *e.1))
}

/// The names of a list of bindings.
pub open spec fn names_of(b: Seq<(Seq<char>, Val)>) -> Seq<Seq<char>> {
    b.map_values(|e: (Seq<char>, Val)| e.0)
}

/// The value of the first binding of `name`, if any.
pub open spec fn first_binding(b: Seq<(Seq<char>, Val)>, name: Seq<char>) -> Option<Val>
    decreases b.len(),
{
    if b.len() == 0 {
        None
    } else if b[0].0 == name {
        Some(b[0].1)
    } else {
        first_binding(b.drop_first(), name)
    }
}

/// `name` is bound somewhere in `b`.
pub open spec fn is_bound(b: Seq<(Seq<char>, Val)>, name: Seq<char>) -> bool {
    exists|i: int| 0 <= i < b.len() && (#[trigger] b[i]).0 == name
}

/// The first binding of `name` is the one at index `k` when no earlier binding
/// has that name; with no binding there is none.
pub proof fn lemma_first_binding_at(b: Seq<(Seq<char>, Val)>, name: Seq<char>, k: int)
    requires
        0 <= k <= b.len(),
        forall|j: int| 0 <= j < k ==> (#[trigger] b[j]).0 != name,
        k < b.len() ==> b[k].0 == name,
    ensures
        first_binding(b, name) == (if k < b.len() { Some(b[k].1) } else { None::<Val> }),
    decreases b.len(),
{
    if b.len() > 0 && k > 0 {
        let b1 = b.drop_first();
        assert(b[0].0 != name);
        assert forall|j: int| 0 <= j < k - 1 implies (#[trigger] b1[j]).0 != name by {
            assert(b1[j] == b[j + 1]);
        }
        if k < b.len() {
            assert(b1[k - 1] == b[k]);
        }
        lemma_first_binding_at(b1, name, k - 1);
    }
}

/// A name has a first binding exactly when it is bound.
pub proof fn lemma_first_binding_bound(b: Seq<(Seq<char>, Val)>, name: Seq<char>)
    ensures
        first_binding(b, name).is_some() == is_bound(b, name),
    decreases b.len(),
{
    if b.len() > 0 {
        let b1 = b.drop_first();
        lemma_first_binding_bound(b1, name);
        if is_bound(b1, name) {
            let i = choose|i: int| 0 <= i < b1.len() && (#[trigger] b1[i]).0 == name;
            assert(b[i + 1] == b1[i]);
        }
        if is_bound(b, name) && b[0].0 != name {
            let i = choose|i: int| 0 <= i < b.len() && (#[trigger] b[i]).0 == name;
            assert(b1[i - 1] == b[i]);
        }
    }
}

/// A binding added at the end does not change an existing first binding, and
/// is the first binding of its name when the name was not bound before.
pub proof fn lemma_first_binding_push(b: Seq<(Seq<char>, Val)>, e: (Seq<char>, Val), name: Seq<char>)
    ensures
        first_binding(b.push(e), name) == (if is_bound(b, name) {
            first_binding(b, name)
        } else if e.0 == name {
            Some(e.1)
        } else {
            None::<Val>
        }),
    decreases b.len(),
{
    lemma_first_binding_bound(b, name);
    if b.len() == 0 {
        assert(b.push(e).drop_first() =~= b);
    } else {
        assert(b.push(e)[0] == b[0]);
        assert(b.push(e).drop_first() =~= b.drop_first().push(e));
        lemma_first_binding_push(b.drop_first(), e, name);
        lemma_first_binding_bound(b.drop_first(), name);
        if b[0].0 != name && is_bound(b, name) {
            let i = choose|i: int| 0 <= i < b.len() && (#[trigger] b[i]).0 == name;
            assert(b.drop_first()[i - 1] == b[i]);
        }
        if is_bound(b.drop_first(), name) {
            let i = choose|i: int| 0 <= i < b.drop_first().len() && (#[trigger] b.drop_first()[i]).0 == name;
            assert(b[i + 1] == b.drop_first()[i]);
        }
    }
}

/// One scope: bindings in the order they were made.
#[derive(Clone)]
pub struct Frame {
    data: Vec<(String, Rc<Val>)>,
}

impl Frame {
    /// The frame's bindings, oldest first.
    pub closed spec fn bindings(&self) -> Seq<(Seq<char>, Val)> {
        binding_view(self.data@)
    }

    /// Adds a binding of `name` to `data` after the existing ones.
    pub fn push(&mut self, name: String, data: Val)
        ensures
            final(self).bindings() == old(self).bindings().push((name@, data)),
    {
        self.data.push((name, Rc::new(data)));
        proof {
            assert(binding_view(self.data@) =~= binding_view(old(self).data@).push((name@, data)));
        }
    }

    /// Adds a binding of `name` to a value shared with another frame.
    pub fn push_shared(&mut self, name: String, data: Rc<Val>)
        ensures
            final(self).bindings() == old(self).bindings().push((name@, *data)),
    {
        self.data.push((name, data));
        proof {
            assert(binding_view(self.data@) =~= binding_view(old(self).data@).push((name@, *data)));
        }
    }

    /// The value of the first binding of `name` in this frame.
    pub fn get(&self, name: &String) -> (r: Option<&Val>)
        ensures
            r is Some == first_binding(self.bindings(), name@) is Some,
            r matches Some(v) ==> first_binding(self.bindings(), name@) == Some(*v),
    {
        let ghost b = self.bindings();
        let mut i: usize = 0;
        while i < self.data.len()
            invariant
                b == binding_view(self.data@),
                i <= self.data@.len(),
                forall|j: int| 0 <= j < i ==> (#[trigger] b[j]).0 != name@,
            decreases self.data@.len() - i,
        {
            if self.data[i].0 == *name {
                proof {
                    lemma_first_binding_at(b, name@, i as int);
                }
                return Some(&*self.data[i].1);
            }
            i += 1;
        }
        proof {
            lemma_first_binding_at(b, name@, i as int);
        }
        None
    }

    /// An empty frame.
    pub fn new() -> (r: Frame)
        ensures
            r.bindings() == Seq::<(Seq<char>, Val)>::empty(),
    {
        let r = Frame { data: Vec::new() };
        assert(r.bindings() =~= Seq::<(Seq<char>, Val)>::empty());
        r
    }

    /// Whether `name` is bound in this frame.
    pub fn contains(&self, name: &String) -> (r: bool)
        ensures
            r == is_bound(self.bindings(), name@),
    {
        let ghost b = self.bindings();
        let mut i: usize = 0;
        while i < self.data.len()
            invariant
                b == binding_view(self.data@),
                i <= self.data@.len(),
                forall|j: int| 0 <= j < i ==> (#[trigger] b[j]).0 != name@,
            decreases self.data@.len() - i,
        {
            if self.data[i].0 == *name {
                assert(b[i as int].0 == name@);
                return true;
            }
            i += 1;
        }
        false
    }

    /// The frame's bindings, oldest first.
    pub fn data(&self) -> (r: &Vec<(String, Rc<Val>)>)
        ensures
            binding_view(r@) == self.bindings(),
    {
        &self.data
    }
}


/// The value of `name` seen from the innermost scope outwards: the first
/// binding of `name` in the last frame that binds it.
pub open spec fn scope_lookup(frames: Seq<Seq<(Seq<char>, Val)>>, name: Seq<char>) -> Option<Val>
    decreases frames.len(),
{
    if frames.len() == 0 {
        None
    } else {
        match first_binding(frames.last(), name) {
            Some(v) => Some(v),
            None => scope_lookup(frames.drop_last(), name),
        }
    }
}

/// All bindings of all frames, innermost frame first (each frame's bindings
/// in the order they were made).
pub open spec fn scope_bindings(frames: Seq<Seq<(Seq<char>, Val)>>) -> Seq<(Seq<char>, Val)>
    decreases frames.len(),
{
    if frames.len() == 0 {
        Seq::empty()
    } else {
        frames.last() + scope_bindings(frames.drop_last())
    }
}

/// Putting an outer frame `f` below `frames` puts its bindings after theirs.
proof fn lemma_scope_bindings_outer(f: Seq<(Seq<char>, Val)>, frames: Seq<Seq<(Seq<char>, Val)>>)
    ensures
        scope_bindings(seq![f] + frames) == scope_bindings(frames) + f,
    decreases frames.len(),
{
    let s = seq![f] + frames;
    if frames.len() == 0 {
        assert(s.drop_last() =~= Seq::<Seq<(Seq<char>, Val)>>::empty());
        assert(s.last() == f);
        assert(scope_bindings(s.drop_last()) =~= Seq::<(Seq<char>, Val)>::empty());
        assert(scope_bindings(s) =~= f);
        assert(scope_bindings(frames) + f =~= f);
    } else {
        assert(s.drop_last() =~= seq![f] + frames.drop_last());
        assert(s.last() == frames.last());
        lemma_scope_bindings_outer(f, frames.drop_last());
        assert(scope_bindings(s) =~= scope_bindings(frames) + f);
    }
}

/// The first binding of a name in `a + b` is its first binding in `a`, or
/// else its first binding in `b`.
proof fn lemma_first_binding_concat(a: Seq<(Seq<char>, Val)>, b: Seq<(Seq<char>, Val)>, name: Seq<char>)
    ensures
        first_binding(a + b, name) == (match first_binding(a, name) {
            Some(v) => Some(v),
            None => first_binding(b, name),
        }),
    decreases a.len(),
{
    if a.len() == 0 {
        assert(a + b =~= b);
    } else {
        assert((a + b)[0] == a[0]);
        assert((a + b).drop_first() =~= a.drop_first() + b);
        lemma_first_binding_concat(a.drop_first(), b, name);
    }
}

/// Looking a name up among the bindings taken innermost frame first is
/// looking it up through the scopes.
pub proof fn law_scope_bindings_lookup(frames: Seq<Seq<(Seq<char>, Val)>>, name: Seq<char>)
    ensures
        first_binding(scope_bindings(frames), name) == scope_lookup(frames, name),
    decreases frames.len(),
{
    if frames.len() > 0 {
        law_scope_bindings_lookup(frames.drop_last(), name);
        lemma_first_binding_concat(frames.last(), scope_bindings(frames.drop_last()), name);
    }
}

/// The bindings of `b` with every binding of an already bound name left out:
/// one binding per name, the first one.
pub open spec fn first_bindings(b: Seq<(Seq<char>, Val)>) -> Seq<(Seq<char>, Val)>
    decreases b.len(),
{
    if b.len() == 0 {
        Seq::empty()
    } else {
        let d = first_bindings(b.drop_last());
        if is_bound(d, b.last().0) {
            d
        } else {
            d.push(b.last())
        }
    }
}

/// The frames after binding `b` in the innermost frame (opening one when
/// there is none).
pub open spec fn pushed(fl: Seq<Seq<(Seq<char>, Val)>>, b: (Seq<char>, Val)) -> Seq<Seq<(Seq<char>, Val)>> {
    if fl.len() == 0 {
        seq![seq![b]]
    } else {
        fl.update(fl.len() - 1, fl.last().push(b))
    }
}

/// The frames after binding each of `bs` in turn.
pub open spec fn pushed_all(fl: Seq<Seq<(Seq<char>, Val)>>, bs: Seq<(Seq<char>, Val)>) -> Seq<Seq<(Seq<char>, Val)>>
    decreases bs.len(),
{
    if bs.len() == 0 {
        fl
    } else {
        pushed(pushed_all(fl, bs.drop_last()), bs.last())
    }
}

/// A stack of scopes, innermost last.
#[derive(Clone)]
pub struct Environment {
    frames: Vec<Frame>,
}

impl Environment {
    /// The bindings of each frame, outermost first.
    pub closed spec fn frame_list(&self) -> Seq<Seq<(Seq<char>, Val)>> {
        self.frames@.map_values(|f: Frame| f.bindings())
    }

    /// An environment with no frame.
    pub fn new() -> (r: Environment)
        ensures
            r.frame_list() == Seq::<Seq<(Seq<char>, Val)>>::empty(),
    {
        let r = Environment { frames: Vec::new() };
        assert(r.frame_list() =~= Seq::<Seq<(Seq<char>, Val)>>::empty());
        r
    }

    /// One frame holding, for each name bound anywhere, the binding that
    /// looking it up gives (its first binding in the innermost frame that
    /// binds it): what a closure captures.
    pub fn compress(&self) -> (r: Frame)
        ensures
            r.bindings() == first_bindings(scope_bindings(self.frame_list())),
    {
        let ghost fl = self.frame_list();
        let n = self.frames.len();
        let mut new_frame = Frame::new();
        let mut i: usize = n;
        assert(fl.subrange(n as int, n as int) =~= Seq::<Seq<(Seq<char>, Val)>>::empty());
        while i > 0
            invariant
                fl == self.frame_list(),
                n == self.frames@.len(),
                i <= n,
                new_frame.bindings() == first_bindings(scope_bindings(fl.subrange(i as int, n as int))),
            decreases i,
        {
            let frame_data = self.frames[i - 1].data();
            let ghost before = scope_bindings(fl.subrange(i as int, n as int));
            let ghost cur = binding_view(frame_data@);
            assert(cur == fl[i - 1]);
            let mut j: usize = 0;
            assert(cur.take(0) =~= Seq::<(Seq<char>, Val)>::empty());
            assert(before + cur.take(0) =~= before);
            while j < frame_data.len()
                invariant
                    cur == binding_view(frame_data@),
                    j <= frame_data@.len(),
                    new_frame.bindings() == first_bindings(before + cur.take(j as int)),
                decreases frame_data@.len() - j,
            {
                let entry = &frame_data[j];
                let ghost whole = before + cur.take(j as int);
                let ghost next = before + cur.take(j + 1);
                assert(next.drop_last() =~= whole);
                assert(next.last() == cur[j as int]);
                if !new_frame.contains(&entry.0) {
                    new_frame.push_shared(entry.0.clone(), rc_clone(&entry.1));
                }
                j += 1;
            }
            proof {
                assert(cur.take(cur.len() as int) =~= cur);
                assert(fl.subrange(i - 1, n as int) =~= seq![fl[i - 1]] + fl.subrange(i as int, n as int));
                lemma_scope_bindings_outer(fl[i - 1], fl.subrange(i as int, n as int));
            }
            i -= 1;
        }
        assert(fl.subrange(0, n as int) =~= fl);
        new_frame
    }

    /// Opens an empty innermost frame.
    pub fn new_frame(&mut self)
        ensures
            final(self).frame_list() == old(self).frame_list().push(Seq::empty()),
    {
        self.frames.push(Frame::new());
        assert(self.frame_list() =~= old(self).frame_list().push(Seq::empty()));
    }

    /// Drops the innermost frame, if there is one.
    pub fn pop_frame(&mut self)
        ensures
            final(self).frame_list() == (if old(self).frame_list().len() == 0 {
                old(self).frame_list()
            } else {
                old(self).frame_list().drop_last()
            }),
    {
        self.frames.pop();
        assert(self.frame_list() =~= (if old(self).frame_list().len() == 0 {
            old(self).frame_list()
        } else {
            old(self).frame_list().drop_last()
        }));
    }

    /// Makes `frame` the innermost frame.
    pub fn push_frame(&mut self, frame: Frame)
        ensures
            final(self).frame_list() == old(self).frame_list().push(frame.bindings()),
    {
        self.frames.push(frame);
        assert(self.frame_list() =~= old(self).frame_list().push(frame.bindings()));
    }

    /// Binds `name` to `data` in the innermost frame, opening one when there
    /// is none.
    pub fn push(&mut self, name: String, data: Val)
        ensures
            final(self).frame_list() == pushed(old(self).frame_list(), (name@, data)),
    {
        self.push_shared(name, Rc::new(data));
    }

    /// Binds `name` to a value shared with its other holders, in the innermost
    /// frame, opening one when there is none.
    pub fn push_shared(&mut self, name: String, data: Rc<Val>)
        ensures
            final(self).frame_list() == pushed(old(self).frame_list(), (name@, *data)),
    {
        if self.frames.len() == 0 {
            self.new_frame();
        }
        let ghost mid = self.frame_list();
        assert(mid.len() == self.frames@.len());
        assert(mid.len() > 0);
        let last = self.frames.len() - 1;
        let mut top = self.frames.pop().unwrap();
        top.push_shared(name, data);
        self.frames.push(top);
        assert(self.frame_list() =~= mid.update(last as int, mid[last as int].push((name@, *data))));
        proof {
            if old(self).frame_list().len() == 0 {
                assert(mid =~= seq![Seq::<(Seq<char>, Val)>::empty()]);
                assert(Seq::<(Seq<char>, Val)>::empty().push((name@, *data)) =~= seq![(name@, *data)]);
                assert(self.frame_list() =~= seq![seq![(name@, *data)]]);
            }
        }
    }

    /// The value of `name`: its first binding in the innermost frame that
    /// binds it.
    pub fn get(&self, name: &String) -> (r: Option<&Val>)
        ensures
            r is Some == scope_lookup(self.frame_list(), name@) is Some,
            r matches Some(v) ==> scope_lookup(self.frame_list(), name@) == Some(*v),
    {
        let ghost fl = self.frame_list();
        let mut i: usize = self.frames.len();
        assert(fl.take(i as int) =~= fl);
        while i > 0
            invariant
                fl == self.frame_list(),
                i <= self.frames@.len(),
                scope_lookup(fl, name@) == scope_lookup(fl.take(i as int), name@),
            decreases i,
        {
            let found = self.frames[i - 1].get(name);
            proof {
                assert(fl.take(i as int).last() == fl[i - 1]);
                assert(fl.take(i as int).drop_last() =~= fl.take(i - 1));
            }
            match found {
                Some(v) => return Some(v),
                None => {},
            }
            i -= 1;
        }
        None
    }
}

/// The bindings of the innermost frame (none when there is no frame).
pub open spec fn innermost(fl: Seq<Seq<(Seq<char>, Val)>>) -> Seq<(Seq<char>, Val)> {
    if fl.len() == 0 {
        Seq::empty()
    } else {
        fl.last()
    }
}

/// Reading after a write: binding `name` to `v` makes `v` its value, unless
/// the innermost frame already binds `name` (its first binding there keeps
/// winning); every other name keeps its value.
pub proof fn law_push_then_lookup(fl: Seq<Seq<(Seq<char>, Val)>>, name: Seq<char>, v: Val, other: Seq<char>)
    ensures
        scope_lookup(pushed(fl, (name, v)), name) == (if is_bound(innermost(fl), name) {
            scope_lookup(fl, name)
        } else {
            Some(v)
        }),
        other != name ==> scope_lookup(pushed(fl, (name, v)), other) == scope_lookup(fl, other),
{
    let b = (name, v);
    lemma_first_binding_push(innermost(fl), b, name);
    lemma_first_binding_push(innermost(fl), b, other);
    lemma_first_binding_bound(innermost(fl), name);
    lemma_first_binding_bound(innermost(fl), other);
    if fl.len() == 0 {
        assert(pushed(fl, b).drop_last() =~= Seq::<Seq<(Seq<char>, Val)>>::empty());
        assert(Seq::<(Seq<char>, Val)>::empty().push(b) =~= seq![b]);
        assert(seq![b].drop_first() =~= Seq::<(Seq<char>, Val)>::empty());
        if other != name {
            assert(first_binding(seq![b], other) == first_binding(seq![b].drop_first(), other));
            assert(scope_lookup(pushed(fl, b), other) == scope_lookup(pushed(fl, b).drop_last(), other));
        }
    } else {
        assert(pushed(fl, b).drop_last() =~= fl.drop_last());
        assert(pushed(fl, b).last() == fl.last().push(b));
        if is_bound(fl.last(), name) {
            assert(first_binding(fl.last(), name) is Some);
        }
        if other != name {
            assert(first_binding(pushed(fl, b).last(), other) == first_binding(fl.last(), other));
        }
    }
}

/// A new frame hides nothing until it binds a name, and then that binding
/// is the name's value; leaving the frame gives back every earlier value.
pub proof fn law_frame_scoping(fl: Seq<Seq<(Seq<char>, Val)>>, name: Seq<char>, v: Val, other: Seq<char>)
    ensures
        scope_lookup(fl.push(Seq::empty()), other) == scope_lookup(fl, other),
        scope_lookup(pushed(fl.push(Seq::empty()), (name, v)), name) == Some(v),
        pushed(fl.push(Seq::empty()), (name, v)).drop_last() == fl,
{
    let fl1 = fl.push(Seq::<(Seq<char>, Val)>::empty());
    assert(fl1.drop_last() =~= fl);
    assert(first_binding(Seq::<(Seq<char>, Val)>::empty(), other) is None);
    law_push_then_lookup(fl1, name, v, other);
    assert(!is_bound(innermost(fl1), name));
    assert(pushed(fl1, (name, v)).drop_last() =~= fl);
}

/// Binding each of `bs` in turn into no frames at all puts them all, in
/// order, into one frame.
pub proof fn lemma_pushed_all_empty(bs: Seq<(Seq<char>, Val)>)
    ensures
        bs.len() > 0 ==> pushed_all(Seq::empty(), bs) == seq![bs],
        bs.len() == 0 ==> pushed_all(Seq::empty(), bs) == Seq::<Seq<(Seq<char>, Val)>>::empty(),
    decreases bs.len(),
{
    if bs.len() > 0 {
        lemma_pushed_all_empty(bs.drop_last());
        if bs.len() == 1 {
            assert(bs.drop_last() =~= Seq::<(Seq<char>, Val)>::empty());
            assert(bs =~= seq![bs.last()]);
        } else {
            assert(bs.drop_last().push(bs.last()) =~= bs);
            assert(seq![bs.drop_last()].update(0, bs.drop_last().push(bs.last())) =~= seq![bs]);
        }
    }
}

/// One binding per name: looking a name up in `first_bindings(b)` gives the
/// name's first binding in `b`. With `law_scope_bindings_lookup`, what
/// `Environment::compress` captures for a name is what looking the name up
/// in the environment gives.
pub proof fn law_compress_lookup(b: Seq<(Seq<char>, Val)>, name: Seq<char>)
    ensures
        first_binding(first_bindings(b), name) == first_binding(b, name),
        is_bound(first_bindings(b), name) == is_bound(b, name),
    decreases b.len(),
{
    if b.len() > 0 {
        let d = first_bindings(b.drop_last());
        law_compress_lookup(b.drop_last(), name);
        law_compress_lookup(b.drop_last(), b.last().0);
        lemma_first_binding_push(b.drop_last(), b.last(), name);
        lemma_first_binding_bound(b.drop_last(), name);
        lemma_first_binding_bound(d, name);
        assert(b.drop_last().push(b.last()) =~= b);
        if !is_bound(d, b.last().0) {
            lemma_first_binding_push(d, b.last(), name);
            lemma_first_binding_bound(d.push(b.last()), name);
        }
        lemma_first_binding_bound(b, name);
        lemma_first_binding_bound(first_bindings(b), name);
    }
}

} // verus!
