//! Scopes: an arena of frames, each a mapping from names to values with a
//! link to its enclosing frame. Closures hold the index of the frame they
//! were made in, so they see later changes to it.
use vstd::prelude::*;
use crate::ast::Statement;
use crate::eval::Object;
use std::rc::Rc;

verus! {

/// One scope: names bound to values, and the enclosing scope, if any.
pub struct Frame {
    pub names: Vec<String>,
    pub values: Vec<Object>,
    pub parent: Option<usize>,
}

/// A function value: parameters, body, and the frame it was defined in.
pub struct Closure {
    pub parameters: Vec<String>,
    pub body: Rc<Vec<Statement>>,
    pub scope: usize,
}

/// All frames, the frame that is current, the closures made so far, and
/// the values printed so far.
pub struct Env {
    pub frames: Vec<Frame>,
    pub current: usize,
    pub closures: Vec<Closure>,
    pub output: Vec<Object>,
}

/// The mathematical value of a frame.
pub ghost struct FrameM {
    pub names: Seq<Seq<char>>,
    pub values: Seq<Object>,
    pub parent: Option<usize>,
}

/// The mathematical value of a closure: parameter names, body, scope.
pub ghost struct ClosureM {
    pub params: Seq<Seq<char>>,
    pub body: Vec<Statement>,
    pub scope: usize,
}

/// The mathematical value of an environment.
pub ghost struct EnvM {
    pub frames: Seq<FrameM>,
    pub current: usize,
    pub closures: Seq<ClosureM>,
    pub output: Seq<Object>,
}

pub open spec fn frame_model(f: Frame) -> FrameM {
    FrameM { names: f.names@.map_values(|n: String| n@), values: f.values@, parent: f.parent }
}

pub open spec fn closure_model(c: Closure) -> ClosureM {
    ClosureM { params: c.parameters@.map_values(|n: String| n@), body: *c.body, scope: c.scope }
}

/// What a name is bound to as seen from a frame of a model.
pub open spec fn m_resolve(frames: Seq<FrameM>, f: int, key: Seq<char>) -> Option<Object>
    decreases f,
{
    if f < 0 || f >= frames.len() {
        None
    } else {
        let fr = frames[f];
        let i = find_name(fr.names, key, 0);
        if i >= 0 {
            Some(fr.values[i])
        } else {
            match fr.parent {
                Some(p) => if p < f {
                    m_resolve(frames, p as int, key)
                } else {
                    None
                },
                None => None,
            }
        }
    }
}

/// Resolving a name gives the same in an environment and in its model.
pub proof fn lemma_resolve_model(frames: Seq<Frame>, f: int, key: Seq<char>)
    ensures
        resolve(frames, f, key) == m_resolve(frames.map_values(|fr: Frame| frame_model(fr)), f, key),
    decreases f,
{
    if 0 <= f < frames.len() {
        lemma_find_name(frames[f].names@, key, 0);
        if let Some(p) = frames[f].parent {
            if p < f {
                lemma_resolve_model(frames, p as int, key);
            }
        }
    }
}

impl EnvM {
    pub open spec fn lookup(self, key: Seq<char>) -> Option<Object> {
        m_resolve(self.frames, self.current as int, key)
    }

    /// Binds a name in the current frame, replacing its binding there.
    pub open spec fn set(self, key: Seq<char>, v: Object) -> EnvM {
        let c = self.current as int;
        let fr = self.frames[c];
        let i = find_name(fr.names, key, 0);
        let nf = if i >= 0 {
            FrameM { values: fr.values.update(i, v), ..fr }
        } else {
            FrameM { names: fr.names.push(key), values: fr.values.push(v), parent: fr.parent }
        };
        EnvM { frames: self.frames.update(c, nf), ..self }
    }

    /// Adds an empty frame enclosed by `parent`, made current.
    pub open spec fn enter(self, parent: usize) -> EnvM {
        EnvM {
            frames: self.frames.push(FrameM { names: Seq::empty(), values: Seq::empty(), parent: Some(parent) }),
            current: self.frames.len() as usize,
            ..self
        }
    }
}

/// The first index at or after `i` that holds `key`, or -1.
pub open spec fn find_name(names: Seq<Seq<char>>, key: Seq<char>, i: int) -> int
    decreases names.len() - i,
{
    if i < 0 || i >= names.len() {
        -1
    } else if names[i] == key {
        i
    } else {
        find_name(names, key, i + 1)
    }
}

/// Finding a name among strings and among their characters agree.
pub proof fn lemma_find_name(names: Seq<String>, key: Seq<char>, i: int)
    ensures
        find(names, key, i) == find_name(names.map_values(|n: String| n@), key, i),
    decreases names.len() - i,
{
    if 0 <= i < names.len() && names[i]@ != key {
        lemma_find_name(names, key, i + 1);
    }
}

/// The first index at or after `i` whose name is `key`, or -1.
pub open spec fn find(names: Seq<String>, key: Seq<char>, i: int) -> int
    decreases names.len() - i,
{
    if i < 0 || i >= names.len() {
        -1
    } else if names[i]@ == key {
        i
    } else {
        find(names, key, i + 1)
    }
}

pub proof fn lemma_find(names: Seq<String>, key: Seq<char>, i: int)
    requires
        0 <= i,
    ensures
        find(names, key, i) == -1 || (i <= find(names, key, i) < names.len() && names[find(
            names,
            key,
            i,
        )]@ == key),
        find(names, key, i) == -1 ==> forall|j: int| i <= j < names.len() ==> names[j]@ != key,
    decreases names.len() - i,
{
    if i < names.len() && names[i]@ != key {
        lemma_find(names, key, i + 1);
    }
}

/// What a name is bound to as seen from a frame of a list: in the frame
/// itself, or else in the frames that enclose it.
pub open spec fn resolve(frames: Seq<Frame>, f: int, key: Seq<char>) -> Option<Object>
    decreases f,
{
    if f < 0 || f >= frames.len() {
        None
    } else {
        let fr = frames[f];
        let i = find(fr.names@, key, 0);
        if i >= 0 {
            Some(fr.values@[i])
        } else {
            match fr.parent {
                Some(p) => if p < f {
                    resolve(frames, p as int, key)
                } else {
                    None
                },
                None => None,
            }
        }
    }
}

/// Frames whose names and values match up and whose enclosing frames come
/// before them, so that the chain has no cycle.
pub open spec fn frames_wf(frames: Seq<Frame>) -> bool {
    forall|f: int|
        0 <= f < frames.len() ==> {
            &&& (#[trigger] frames[f]).names@.len() == frames[f].values@.len()
            &&& frames[f].parent matches Some(p) ==> p < f
            &&& distinct_names(frames[f].names@)
        }
}

/// No name occurs twice.
pub open spec fn distinct_names(names: Seq<String>) -> bool {
    forall|i: int, j: int| 0 <= i < j < names.len() ==> #[trigger] names[i]@ != #[trigger] names[j]@
}

/// What a name is bound to from a frame depends only on that frame and the
/// frames before it: frames added later, and changes to them, do not reach it.
pub proof fn lemma_resolve_prefix(a: Seq<Frame>, b: Seq<Frame>, f: int, key: Seq<char>)
    requires
        0 <= f < a.len() <= b.len(),
        forall|g: int| 0 <= g <= f ==> #[trigger] b[g] == a[g],
    ensures
        resolve(b, f, key) == resolve(a, f, key),
    decreases f,
{
    if let Some(p) = a[f].parent {
        if p < f && find(a[f].names@, key, 0) < 0 {
            lemma_resolve_prefix(a, b, p as int, key);
        }
    }
}

/// Bindings made in frames added after the current one, as a call does
/// for its parameters and its body, leave every name seen from the current
/// frame bound as it was.
pub proof fn lemma_outer_scope_unchanged(before: Env, after: Env, key: Seq<char>)
    requires
        before.wf(),
        after.current == before.current,
        after.frames@.len() >= before.frames@.len(),
        forall|f: int| 0 <= f < before.frames@.len() ==> #[trigger] after.frames@[f] == before.frames@[f],
    ensures
        after.lookup(key) == before.lookup(key),
{
    lemma_resolve_prefix(before.frames@, after.frames@, before.current as int, key);
}

impl Env {
    /// The mathematical value of this environment.
    pub open spec fn model(&self) -> EnvM {
        EnvM {
            frames: self.frames@.map_values(|f: Frame| frame_model(f)),
            current: self.current,
            closures: self.closures@.map_values(|c: Closure| closure_model(c)),
            output: self.output@,
        }
    }

    pub open spec fn wf(&self) -> bool {
        &&& self.current < self.frames@.len()
        &&& frames_wf(self.frames@)
        &&& forall|i: int|
            0 <= i < self.closures@.len() ==> #[trigger] self.closures@[i].scope
                < self.frames@.len()
    }

    /// How evaluation may change an environment: frames are added, closures
    /// are added, and only the current frame is written; the current frame
    /// stays current.
    pub open spec fn evolves(self, b: Env) -> bool {
        &&& b.wf()
        &&& b.current == self.current
        &&& b.frames@.len() >= self.frames@.len()
        &&& b.closures@.len() >= self.closures@.len()
        &&& forall|f: int|
            0 <= f < self.frames@.len() && f != self.current ==> #[trigger] b.frames@[f]
                == self.frames@[f]
        &&& b.frames@[self.current as int].parent == self.frames@[self.current as int].parent
    }

    /// What a name is bound to as seen from the current frame.
    pub open spec fn lookup(&self, key: Seq<char>) -> Option<Object> {
        resolve(self.frames@, self.current as int, key)
    }

    /// An environment of one empty frame, with no outer scope.
    pub fn new() -> (r: Self)
        ensures
            r.wf(),
            r.frames@.len() == 1,
            r.current == 0,
            r.closures@.len() == 0,
            r.output@.len() == 0,
            forall|k: Seq<char>| r.lookup(k) is None,
    {
        let mut frames: Vec<Frame> = Vec::new();
        frames.push(Frame { names: Vec::new(), values: Vec::new(), parent: None });
        Env { frames, current: 0, closures: Vec::new(), output: Vec::new() }
    }

    /// Binds a name in the current frame, replacing a binding of it there.
    pub fn set(&mut self, key: String, value: Object)
        requires
            old(self).wf(),
        ensures
            final(self).wf(),
            final(self).current == old(self).current,
            final(self).closures == old(self).closures,
            final(self).output == old(self).output,
            final(self).frames@.len() == old(self).frames@.len(),
            old(self).evolves(*final(self)),
            final(self).model() == old(self).model().set(key@, value),
            forall|f: int|
                0 <= f < old(self).frames@.len() && f != old(self).current
                    ==> #[trigger] final(self).frames@[f] == old(self).frames@[f],
            final(self).frames@[old(self).current as int].parent
                == old(self).frames@[old(self).current as int].parent,
            final(self).lookup(key@) == Some(value),
            forall|k: Seq<char>| k != key@ ==> #[trigger] final(self).lookup(k) == old(self).lookup(k),
    {
        let ghost before = self.frames@;
        let ghost m0 = self.model();
        let c = self.current;
        let mut frame = Frame { names: Vec::new(), values: Vec::new(), parent: None };
        std::mem::swap(&mut self.frames[c], &mut frame);
        let ghost old_frame = frame;
        let mut i: usize = 0;
        let mut found = false;
        while i < frame.names.len() && !found
            invariant
                frame == old_frame,
                i <= frame.names@.len(),
                found ==> i < frame.names@.len() && frame.names@[i as int]@ == key@,
                forall|j: int| 0 <= j < i ==> frame.names@[j]@ != key@,
            decreases frame.names@.len() - i, if found { 0int } else { 1int },
        {
            if frame.names[i] == key {
                found = true;
            } else {
                i = i + 1;
            }
        }
        proof {
            assert(before[c as int] == old_frame);
            assert(old_frame.names@.len() == old_frame.values@.len());
        }
        if found {
            frame.values[i] = value;
        } else {
            frame.names.push(key);
            frame.values.push(value);
        }
        std::mem::swap(&mut self.frames[c], &mut frame);
        proof {
            let fr = self.frames@[c as int];
            if found {
                lemma_find_first(fr.names@, key@, i as int);
            } else {
                lemma_find_first(fr.names@, key@, old_frame.names@.len() as int);
            }
            assert(self.lookup(key@) == Some(value));
            lemma_find(old_frame.names@, key@, 0);
            lemma_find(fr.names@, key@, 0);
            assert forall|k: Seq<char>| k != key@ implies #[trigger] find(fr.names@, k, 0) == find(
                old_frame.names@,
                k,
                0,
            ) && (find(fr.names@, k, 0) >= 0 ==> fr.values@[find(fr.names@, k, 0)]
                == old_frame.values@[find(fr.names@, k, 0)]) by {
                lemma_find_same(old_frame.names@, fr.names@, k, key@, 0);
                lemma_find(fr.names@, k, 0);
            }
            assert forall|k: Seq<char>| k != key@ implies #[trigger] self.lookup(k) == resolve(before, c as int, k) by {
                if let Some(p) = fr.parent {
                    if p < c && find(fr.names@, k, 0) < 0 {
                        lemma_resolve_prefix(before, self.frames@, p as int, k);
                    }
                }
            }
            if found {
                lemma_find_first(old_frame.names@, key@, i as int);
            } else {
                lemma_find_none(old_frame.names@, key@, 0);
            }
            lemma_find_name(old_frame.names@, key@, 0);
            let m1 = m0.set(key@, value);
            assert(frame_model(fr).names =~= m1.frames[c as int].names);
            assert(m1.frames[c as int] == frame_model(fr));
            assert(self.model().frames =~= m1.frames);
        }
    }

    /// Returns the value that a name is bound to, looking outward from the
    /// current frame.
    pub fn get(&self, key: &str) -> (r: Option<Object>)
        requires
            self.wf(),
        ensures
            r == self.lookup(key@),
    {
        let mut f = self.current;
        loop
            invariant
                self.wf(),
                f < self.frames@.len(),
                resolve(self.frames@, f as int, key@) == self.lookup(key@),
            decreases f,
        {
            let frame = &self.frames[f];
            let mut i: usize = 0;
            while i < frame.names.len()
                invariant
                    f < self.frames@.len(),
                    *frame == self.frames@[f as int],
                    resolve(self.frames@, f as int, key@) == self.lookup(key@),
                    i <= frame.names@.len(),
                    frame.names@.len() == frame.values@.len(),
                    forall|j: int| 0 <= j < i ==> frame.names@[j]@ != key@,
                decreases frame.names@.len() - i,
            {
                if same_text(&frame.names[i], key) {
                    proof {
                        lemma_find_first(frame.names@, key@, i as int);
                        assert(resolve(self.frames@, f as int, key@) == Some(frame.values@[i as int]));
                    }
                    return Some(frame.values[i].duplicate());
                }
                i = i + 1;
            }
            proof {
                lemma_find_none(frame.names@, key@, 0);
            }
            match frame.parent {
                Some(p) => {
                    if p < f {
                        f = p;
                    } else {
                        return None;
                    }
                },
                None => {
                    return None;
                },
            }
        }
    }

    /// A new empty frame enclosed by the current frame of `outer`, made current.
    pub fn new_enclosing(outer: Self) -> (r: Self)
        requires
            outer.wf(),
        ensures
            r.wf(),
            r.frames@.len() == outer.frames@.len() + 1,
            r.current == outer.frames@.len(),
            r.closures == outer.closures,
            forall|f: int| 0 <= f < outer.frames@.len() ==> #[trigger] r.frames@[f] == outer.frames@[f],
            r.frames@[r.current as int].names@.len() == 0,
            r.frames@[r.current as int].parent == Some(outer.current),
            forall|k: Seq<char>| #[trigger] r.lookup(k) == outer.lookup(k),
    {
        let mut env = outer;
        let ghost before = env.frames@;
        let parent = env.current;
        let idx = env.push_frame(parent);
        env.current = idx;
        proof {
            assert forall|k: Seq<char>| #[trigger] env.lookup(k) == outer.lookup(k) by {
                assert(env.frames@[idx as int].names@.len() == 0);
                lemma_resolve_prefix(before, env.frames@, parent as int, k);
            }
        }
        env
    }

    /// Adds an empty frame enclosed by `parent` and returns its index; the
    /// current frame stays as it is.
    pub fn push_frame(&mut self, parent: usize) -> (r: usize)
        requires
            old(self).wf(),
            parent < old(self).frames@.len(),
        ensures
            final(self).wf(),
            r == old(self).frames@.len(),
            final(self).frames@.len() == old(self).frames@.len() + 1,
            final(self).frames@ == old(self).frames@.push(final(self).frames@[r as int]),
            final(self).frames@[r as int].parent == Some(parent),
            final(self).frames@[r as int].names@.len() == 0,
            final(self).current == old(self).current,
            final(self).closures == old(self).closures,
            final(self).output == old(self).output,
            final(self).model() == (EnvM {
                current: old(self).current,
                ..old(self).model().enter(parent)
            }),
    {
        let idx = self.frames.len();
        let ghost m0 = self.model();
        self.frames.push(Frame { names: Vec::new(), values: Vec::new(), parent: Some(parent) });
        proof {
            let m1 = m0.enter(parent);
            assert(frame_model(self.frames@[idx as int]).names =~= Seq::<Seq<char>>::empty());
            assert(self.model().frames =~= m1.frames);
        }
        idx
    }
}

/// Whether a string holds the same characters as a `str`.
fn same_text(a: &String, b: &str) -> (r: bool)
    ensures
        r == (a@ == b@),
{
    let x = crate::text::chars_of(a.as_str());
    let y = crate::text::chars_of(b);
    crate::text::same_chars(x.as_slice(), y.as_slice())
}

proof fn lemma_find_first(names: Seq<String>, key: Seq<char>, i: int)
    requires
        0 <= i < names.len(),
        names[i]@ == key,
        forall|j: int| 0 <= j < i ==> names[j]@ != key,
    ensures
        find(names, key, 0) == i,
{
    lemma_find_from(names, key, 0, i);
}

proof fn lemma_find_from(names: Seq<String>, key: Seq<char>, s: int, i: int)
    requires
        0 <= s <= i < names.len(),
        names[i]@ == key,
        forall|j: int| s <= j < i ==> names[j]@ != key,
    ensures
        find(names, key, s) == i,
    decreases i - s,
{
    if s < i {
        lemma_find_from(names, key, s + 1, i);
    }
}

proof fn lemma_find_none(names: Seq<String>, key: Seq<char>, s: int)
    requires
        0 <= s,
        forall|j: int| s <= j < names.len() ==> names[j]@ != key,
    ensures
        find(names, key, s) == -1,
    decreases names.len() - s,
{
    if s < names.len() {
        lemma_find_none(names, key, s + 1);
    }
}

/// Finding a name other than `key` gives the same index in two lists that
/// differ only where `key` stands or by an added `key` at the end.
proof fn lemma_find_same(a: Seq<String>, b: Seq<String>, k: Seq<char>, key: Seq<char>, s: int)
    requires
        0 <= s,
        k != key,
        a.len() <= b.len() <= a.len() + 1,
        forall|j: int| 0 <= j < a.len() ==> a[j]@ == b[j]@,
        b.len() == a.len() + 1 ==> b[a.len() as int]@ == key,
    ensures
        find(b, k, s) == find(a, k, s),
    decreases b.len() - s,
{
    if s < b.len() {
        lemma_find_same(a, b, k, key, s + 1);
    }
}

} // verus!
