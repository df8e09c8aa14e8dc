//! The scope chain: frames of bindings, each with a link to the frame that
//! encloses it, held in an arena and addressed by handle.
use crate::node::{copy_strings, node_view, strings_view, Node, NodeView};
use vstd::prelude::*;

verus! {

/// Model of a binding: the name, the parameters in order (none for a plain
/// variable), and the body.
pub struct BindingView {
    pub name: Seq<char>,
    pub parameters: Seq<Seq<char>>,
    pub body: NodeView,
}

/// Model of a frame: what each name is bound to in it, and the handle of the
/// frame that encloses it.
pub struct ScopeView {
    pub bindings: Map<Seq<char>, BindingView>,
    pub parent: Option<nat>,
}

/// A named fragment. Without parameters it is a variable, with parameters a
/// macro.
#[derive(Debug, PartialEq, Eq)]
pub struct Binding {
    pub name: String,
    pub parameters: Vec<String>,
    pub body: Node,
}

impl View for Binding {
    type V = BindingView;

    open spec fn view(&self) -> BindingView {
        BindingView {
            name: self.name@,
            parameters: strings_view(self.parameters@),
            body: node_view(self.body),
        }
    }
}

impl Binding {
    /// A structural copy of the binding.
    pub fn deep_copy(&self) -> (copy: Binding)
        ensures
            copy@ == self@,
    {
        Binding {
            name: self.name.clone(),
            parameters: copy_strings(&self.parameters),
            body: self.body.deep_copy(),
        }
    }
}

/// A handle, or the lack of one, as the model has it.
pub open spec fn handle_view(handle: Option<usize>) -> Option<nat> {
    match handle {
        Some(scope) => Some(scope as nat),
        None => None,
    }
}

/// Every frame's parent was made before the frame itself, so that no chain
/// of parents comes back to where it started.
pub open spec fn well_formed(scopes: Seq<ScopeView>) -> bool {
    forall|i: int|
        0 <= i < scopes.len() ==> match (#[trigger] scopes[i]).parent {
            Some(p) => p < i,
            None => true,
        }
}

/// The nearest binding of `name`, from the frame `scope` outwards.
pub open spec fn lookup(scopes: Seq<ScopeView>, scope: nat, name: Seq<char>) -> Option<
    BindingView,
>
    decreases scope,
{
    if scope >= scopes.len() {
        None
    } else if scopes[scope as int].bindings.contains_key(name) {
        Some(scopes[scope as int].bindings[name])
    } else {
        match scopes[scope as int].parent {
            Some(p) => if p < scope {
                lookup(scopes, p, name)
            } else {
                None
            },
            None => None,
        }
    }
}

/// The arena with `binding` put into the frame `scope` under its name, in
/// place of what the name was bound to in that frame before.
pub open spec fn define(scopes: Seq<ScopeView>, scope: nat, binding: BindingView) -> Seq<
    ScopeView,
> {
    scopes.update(
        scope as int,
        ScopeView {
            bindings: scopes[scope as int].bindings.insert(binding.name, binding),
            parent: scopes[scope as int].parent,
        },
    )
}

/// The arena with one more frame, which is empty and has the given parent.
pub open spec fn open_scope(scopes: Seq<ScopeView>, parent: Option<nat>) -> Seq<ScopeView> {
    scopes.push(ScopeView { bindings: Map::empty(), parent })
}

/// The arena with one more frame, which binds what the frame `scope` binds
/// and has the given parent. A handle that is no frame's stands for a frame
/// without bindings.
pub open spec fn copy_scope(scopes: Seq<ScopeView>, scope: nat, parent: Option<nat>) -> Seq<
    ScopeView,
> {
    scopes.push(
        ScopeView {
            bindings: if scope < scopes.len() {
                scopes[scope as int].bindings
            } else {
                Map::empty()
            },
            parent,
        },
    )
}

/// The frame `ancestor` is `scope` itself or is reached from it by parent
/// links.
pub open spec fn encloses(scopes: Seq<ScopeView>, ancestor: nat, scope: nat) -> bool
    decreases scope,
{
    if scope >= scopes.len() {
        false
    } else if ancestor == scope {
        true
    } else {
        match scopes[scope as int].parent {
            Some(p) => p < scope && encloses(scopes, ancestor, p),
            None => false,
        }
    }
}

#[derive(Debug)]
struct Scope {
    bindings: Vec<Binding>,
    parent: Option<usize>,
}

/// All the frames of one compilation. A frame is addressed by the handle that
/// `new_scope` returned for it, and handles stay valid for as long as the
/// arena lives.
#[derive(Debug)]
pub struct ScopeArena {
    frames: Vec<Scope>,
}

spec fn distinct_names(bindings: Seq<Binding>) -> bool {
    forall|i: int, j: int|
        0 <= i < bindings.len() && 0 <= j < bindings.len() && i != j ==> bindings[i].name@
            != bindings[j].name@
}

spec fn bindings_map(bindings: Seq<Binding>) -> Map<Seq<char>, BindingView>
    decreases bindings.len(),
{
    if bindings.len() == 0 {
        Map::empty()
    } else {
        bindings_map(bindings.drop_last()).insert(bindings.last().name@, bindings.last()@)
    }
}

spec fn scope_view(scope: Scope) -> ScopeView {
    ScopeView {
        bindings: bindings_map(scope.bindings@),
        parent: handle_view(scope.parent),
    }
}

proof fn lemma_bindings_map_absent(bindings: Seq<Binding>, name: Seq<char>)
    requires
        forall|j: int| 0 <= j < bindings.len() ==> bindings[j].name@ != name,
    ensures
        !bindings_map(bindings).contains_key(name),
    decreases bindings.len(),
{
    if bindings.len() > 0 {
        lemma_bindings_map_absent(bindings.drop_last(), name);
    }
}

proof fn lemma_bindings_map_present(bindings: Seq<Binding>, i: int)
    requires
        distinct_names(bindings),
        0 <= i < bindings.len(),
    ensures
        bindings_map(bindings).contains_key(bindings[i].name@),
        bindings_map(bindings)[bindings[i].name@] == bindings[i]@,
    decreases bindings.len(),
{
    if i < bindings.len() - 1 {
        assert(bindings.drop_last()[i] == bindings[i]);
        lemma_bindings_map_present(bindings.drop_last(), i);
        assert(bindings.last().name@ != bindings[i].name@);
    }
}

proof fn lemma_bindings_map_push(bindings: Seq<Binding>, binding: Binding)
    ensures
        bindings_map(bindings.push(binding)) == bindings_map(bindings).insert(
            binding.name@,
            binding@,
        ),
{
    assert(bindings.push(binding).drop_last() =~= bindings);
}

proof fn lemma_bindings_map_update(bindings: Seq<Binding>, i: int, binding: Binding)
    requires
        distinct_names(bindings),
        0 <= i < bindings.len(),
        bindings[i].name@ == binding.name@,
    ensures
        bindings_map(bindings.update(i, binding)) == bindings_map(bindings).insert(
            binding.name@,
            binding@,
        ),
        distinct_names(bindings.update(i, binding)),
    decreases bindings.len(),
{
    let updated = bindings.update(i, binding);
    if i == bindings.len() - 1 {
        assert(updated.drop_last() =~= bindings.drop_last());
        assert(bindings_map(updated) =~= bindings_map(bindings).insert(binding.name@, binding@));
    } else {
        assert(updated.drop_last() =~= bindings.drop_last().update(i, binding));
        assert(bindings.drop_last()[i] == bindings[i]);
        lemma_bindings_map_update(bindings.drop_last(), i, binding);
        assert(bindings.last().name@ != binding.name@);
        assert(updated.last() == bindings.last());
        assert(bindings_map(updated) =~= bindings_map(bindings).insert(binding.name@, binding@));
    }
}

proof fn lemma_bindings_map_same(first: Seq<Binding>, second: Seq<Binding>)
    requires
        first.len() == second.len(),
        forall|i: int| 0 <= i < first.len() ==> first[i]@ == second[i]@,
    ensures
        bindings_map(first) == bindings_map(second),
    decreases first.len(),
{
    if first.len() > 0 {
        lemma_bindings_map_same(first.drop_last(), second.drop_last());
    }
}

impl View for ScopeArena {
    type V = Seq<ScopeView>;

    closed spec fn view(&self) -> Seq<ScopeView> {
        Seq::new(self.frames@.len(), |i: int| scope_view(self.frames@[i]))
    }
}

impl ScopeArena {
    /// The arena's invariant: its frames are well formed, and no frame holds
    /// two bindings of one name.
    pub closed spec fn wf(&self) -> bool {
        &&& well_formed(self@)
        &&& forall|i: int|
            0 <= i < self.frames@.len() ==> distinct_names((#[trigger] self.frames@[i]).bindings@)
    }

    /// The frames of an arena that holds its invariant are well formed.
    pub proof fn lemma_wf(&self)
        requires
            self.wf(),
        ensures
            well_formed(self@),
    {
    }

    /// An arena without frames.
    pub fn new() -> (arena: ScopeArena)
        ensures
            arena.wf(),
            arena@ == Seq::<ScopeView>::empty(),
    {
        let arena = ScopeArena { frames: Vec::new() };
        assert(arena@ =~= Seq::<ScopeView>::empty());
        arena
    }

    /// The number of frames, which is also the handle of the frame that
    /// `new_scope` makes next.
    pub fn len(&self) -> (count: usize)
        ensures
            count == self@.len(),
    {
        self.frames.len()
    }

    /// Makes an empty frame with the given parent and returns its handle.
    pub fn new_scope(&mut self, parent: Option<usize>) -> (scope: usize)
        requires
            old(self).wf(),
            parent matches Some(p) ==> p < old(self)@.len(),
        ensures
            final(self).wf(),
            scope == old(self)@.len(),
            final(self)@ == open_scope(old(self)@, handle_view(parent)),
    {
        let scope = self.frames.len();
        self.frames.push(Scope { bindings: Vec::new(), parent });
        assert(self@ =~= open_scope(old(self)@, handle_view(parent)));
        scope
    }

    /// Makes a frame with copies of the bindings of the frame `scope` and
    /// with the given parent, and returns its handle. The frame `scope`
    /// stays as it is.
    pub fn copy_scope(&mut self, scope: usize, parent: Option<usize>) -> (copy: usize)
        requires
            old(self).wf(),
            parent matches Some(p) ==> p < old(self)@.len(),
        ensures
            final(self).wf(),
            copy == old(self)@.len(),
            final(self)@ == copy_scope(old(self)@, scope as nat, handle_view(parent)),
    {
        let copy = self.frames.len();
        let mut bindings: Vec<Binding> = Vec::new();
        if scope < self.frames.len() {
            let source = &self.frames[scope].bindings;
            let mut i: usize = 0;
            while i < source.len()
                invariant
                    i <= source.len(),
                    bindings@.len() == i,
                    forall|j: int| 0 <= j < i ==> bindings@[j]@ == source@[j]@,
                decreases source.len() - i,
            {
                bindings.push(source[i].deep_copy());
                i += 1;
            }
            proof {
                lemma_bindings_map_same(bindings@, source@);
                assert(distinct_names(bindings@)) by {
                    assert(distinct_names(source@));
                    assert forall|i: int, j: int|
                        0 <= i < bindings@.len() && 0 <= j < bindings@.len() && i
                            != j implies bindings@[i].name@ != bindings@[j].name@ by {
                        assert(bindings@[i]@ == source@[i]@);
                        assert(bindings@[j]@ == source@[j]@);
                    }
                }
            }
        }
        self.frames.push(Scope { bindings, parent });
        assert(self@ =~= copy_scope(old(self)@, scope as nat, handle_view(parent)));
        copy
    }

    /// The parent of a frame.
    pub fn parent(&self, scope: usize) -> (parent: Option<usize>)
        requires
            scope < self@.len(),
        ensures
            handle_view(parent) == self@[scope as int].parent,
    {
        self.frames[scope].parent
    }

    /// Binds `binding.name` to `binding` in the frame `scope`, and in no
    /// other. What the name was bound to in that frame before is gone.
    pub fn define(&mut self, scope: usize, binding: Binding)
        requires
            old(self).wf(),
            scope < old(self)@.len(),
        ensures
            final(self).wf(),
            final(self)@ == define(old(self)@, scope as nat, binding@),
    {
        let ghost before = self.frames@[scope as int].bindings@;
        let mut i: usize = 0;
        let mut found: Option<usize> = None;
        while i < self.frames[scope].bindings.len()
            invariant_except_break
                found is None,
                forall|j: int|
                    0 <= j < i ==> self.frames@[scope as int].bindings@[j].name@ != binding.name@,
            invariant
                scope < self.frames.len(),
                i <= self.frames@[scope as int].bindings.len(),
            ensures
                match found {
                    Some(at) => at < self.frames@[scope as int].bindings.len()
                        && self.frames@[scope as int].bindings@[at as int].name@ == binding.name@,
                    None => forall|j: int|
                        0 <= j < self.frames@[scope as int].bindings.len()
                            ==> self.frames@[scope as int].bindings@[j].name@ != binding.name@,
                },
            decreases self.frames@[scope as int].bindings.len() - i,
        {
            if self.frames[scope].bindings[i].name == binding.name {
                found = Some(i);
                break;
            }
            i += 1;
        }
        match found {
            Some(at) => {
                proof {
                    lemma_bindings_map_update(before, at as int, binding);
                }
                self.frames[scope].bindings.set(at, binding);
            },
            None => {
                proof {
                    lemma_bindings_map_push(before, binding);
                    assert(distinct_names(before.push(binding)));
                }
                self.frames[scope].bindings.push(binding);
            },
        }
        assert(self@ =~= define(old(self)@, scope as nat, binding@));
    }

    /// The nearest binding of `name`, searched from the frame `scope`
    /// outwards, as a copy.
    pub fn lookup(&self, scope: usize, name: &String) -> (found: Option<Binding>)
        requires
            self.wf(),
        ensures
            match found {
                Some(binding) => lookup(self@, scope as nat, name@) == Some(binding@),
                None => lookup(self@, scope as nat, name@) is None,
            },
    {
        if scope >= self.frames.len() {
            return None;
        }
        let mut current = scope;
        loop
            invariant
                self.wf(),
                current < self.frames.len(),
                lookup(self@, scope as nat, name@) == lookup(self@, current as nat, name@),
            decreases current,
        {
            let frame = &self.frames[current];
            let mut i: usize = 0;
            while i < frame.bindings.len()
                invariant
                    self.wf(),
                    current < self.frames.len(),
                    *frame == self.frames@[current as int],
                    lookup(self@, scope as nat, name@) == lookup(self@, current as nat, name@),
                    i <= frame.bindings.len(),
                    forall|j: int| 0 <= j < i ==> frame.bindings@[j].name@ != name@,
                decreases frame.bindings.len() - i,
            {
                if frame.bindings[i].name == *name {
                    proof {
                        lemma_bindings_map_present(frame.bindings@, i as int);
                        assert(self@[current as int] == scope_view(*frame));
                        assert(lookup(self@, current as nat, name@) == Some(
                            frame.bindings@[i as int]@,
                        ));
                    }
                    return Some(frame.bindings[i].deep_copy());
                }
                i += 1;
            }
            proof {
                lemma_bindings_map_absent(frame.bindings@, name@);
                assert(self@[current as int] == scope_view(*frame));
            }
            match frame.parent {
                Some(p) => {
                    assert(self@[current as int].parent == Some(p as nat));
                    current = p;
                },
                None => {
                    return None;
                },
            }
        }
    }
}

} // verus!
