//! Memory-management core of an interpreter for a lexically scoped language:
//! a chain of scope frames, a reference-counted heap of boxed values, and a
//! manager that the evaluator drives.
pub mod alloc_box;
pub mod gc_error;
pub mod js_types;
pub mod scope;

use vstd::prelude::*;
use vstd::multiset::Multiset;
use crate::alloc_box::{heap_matches, AllocBox, HeapEntry};
use crate::gc_error::GcError;
use crate::js_types::{Binding, JsPtrEnum, JsVar};
use crate::scope::{
    after_store, captured_by, escapes, lookup, overflows, refs_of, slot_ref, Exp, Scope, ScopeTag, Slot,
};

verus! {

broadcast use vstd::multiset::group_multiset_axioms;

/// The heap identities referred to by a run of frames.
pub open spec fn frames_refs(fs: Seq<Scope>) -> Multiset<u128>
    decreases fs.len(),
{
    if fs.len() == 0 {
        Multiset::empty()
    } else {
        frames_refs(fs.drop_last()).add(refs_of(fs.last().vars@))
    }
}

/// A frame of a run holds no more of an identity than the whole run.
pub proof fn lemma_frame_refs_within(fs: Seq<Scope>, i: int, u: u128)
    requires
        0 <= i < fs.len(),
    ensures
        refs_of(fs[i].vars@).count(u) <= frames_refs(fs).count(u),
    decreases fs.len(),
{
    if i < fs.len() - 1 {
        lemma_frame_refs_within(fs.drop_last(), i, u);
    }
}

/// The parent of a kept frame: the live frame at a depth of the current
/// chain (the root is at depth 0), or another kept frame, by its index.
#[derive(Clone, Copy, Debug, PartialEq, Eq, Structural)]
pub enum Link {
    Live(usize),
    Kept(usize),
}

/// `links` with each link to the live frame at `depth` turned to kept frame `k`.
pub open spec fn relinked(links: Seq<Link>, depth: usize, k: usize) -> Seq<Link> {
    Seq::new(
        links.len(),
        |i: int|
            if links[i] == Link::Live(depth) {
                Link::Kept(k)
            } else {
                links[i]
            },
    )
}

/// The façade the evaluator drives: the global frame, the current frame and
/// the chain of its parents (innermost last), the frames kept alive by
/// escaped closures with the link to each one's parent, and the heap.
pub struct ScopeManager {
    globals: Scope,
    curr_scope: Scope,
    parents: Vec<Scope>,
    closures: Vec<Scope>,
    links: Vec<Link>,
    alloc_box: AllocBox,
    /// References of frames that were popped without collection.
    deferred: Ghost<Multiset<u128>>,
}

impl ScopeManager {
    pub closed spec fn global_vars(&self) -> Seq<Slot> {
        self.globals.vars@
    }

    pub closed spec fn current_frame(&self) -> Scope {
        self.curr_scope
    }

    pub open spec fn current_vars(&self) -> Seq<Slot> {
        self.current_frame().vars@
    }

    pub open spec fn current_tag(&self) -> ScopeTag {
        self.current_frame().tag
    }

    /// The parents of the current frame, outermost first.
    pub closed spec fn parent_frames(&self) -> Seq<Scope> {
        self.parents@
    }

    pub closed spec fn closure_frames(&self) -> Seq<Scope> {
        self.closures@
    }

    pub closed spec fn closure_links(&self) -> Seq<Link> {
        self.links@
    }

    /// The live frame at depth `d`: a parent, or the current frame.
    pub closed spec fn live_frame(&self, d: int) -> Scope {
        if d == self.parents@.len() {
            self.curr_scope
        } else {
            self.parents@[d]
        }
    }

    pub closed spec fn heap(&self) -> Map<u128, HeapEntry> {
        self.alloc_box@
    }

    /// References left in the heap by frames popped without collection.
    pub closed spec fn deferred(&self) -> Multiset<u128> {
        self.deferred@
    }

    /// The heap references held by every frame still alive.
    pub open spec fn held(&self) -> Multiset<u128> {
        refs_of(self.global_vars()).add(refs_of(self.current_vars())).add(
            frames_refs(self.parent_frames()),
        ).add(frames_refs(self.closure_frames()))
    }

    /// The heap holds exactly what live frames and uncollected pops refer to.
    /// Each kept frame has a link; a live link names a frame of the current
    /// chain, and a kept one a frame kept later.
    pub open spec fn links_ok(&self) -> bool {
        &&& self.closure_links().len() == self.closure_frames().len()
        &&& forall|i: int|
            0 <= i < self.closure_links().len() ==> match #[trigger] self.closure_links()[i] {
                Link::Live(d) => d <= self.parent_frames().len(),
                Link::Kept(j) => i < j < self.closure_frames().len(),
            }
    }

    /// The heap holds exactly what live frames and uncollected pops refer to,
    /// and the links are in order.
    pub open spec fn wf(&self) -> bool {
        &&& heap_matches(self.heap(), self.held().add(self.deferred()))
        &&& self.links_ok()
    }

    /// Whether some kept frame has the live frame at `depth` as its parent.
    pub open spec fn pinned(&self, depth: usize) -> bool {
        exists|i: int| 0 <= i < self.closure_links().len() && #[trigger] self.closure_links()[i] == Link::Live(depth)
    }

    /// Where `b` resolves along the live chain from depth `d` down to the root.
    pub open spec fn live_lookup(&self, d: int, b: Binding) -> Option<Slot>
        decreases d,
    {
        if d < 0 {
            None
        } else {
            match lookup(self.live_frame(d).vars@, b) {
                Some(s) => Some(s),
                None => if d == 0 {
                    None
                } else {
                    self.live_lookup(d - 1, b)
                },
            }
        }
    }

    /// Where `b` resolves from kept frame `i` along its parent links.
    pub open spec fn kept_lookup(&self, i: int, b: Binding) -> Option<Slot>
        decreases self.closure_frames().len() - i,
    {
        if i < 0 || i >= self.closure_frames().len() || i >= self.closure_links().len() {
            None
        } else {
            match lookup(self.closure_frames()[i].vars@, b) {
                Some(s) => Some(s),
                None => match self.closure_links()[i] {
                    Link::Kept(j) => if i < j < self.closure_frames().len() {
                        self.kept_lookup(j as int, b)
                    } else {
                        None
                    },
                    Link::Live(d) => self.live_lookup(d as int, b),
                },
            }
        }
    }

    /// Where `b` resolves for the closure kept at `i`: along its chain of
    /// frames, then in globals.
    pub open spec fn captured_resolve(&self, i: int, b: Binding) -> Option<Slot> {
        match self.kept_lookup(i, b) {
            Some(s) => Some(s),
            None => lookup(self.global_vars(), b),
        }
    }

    /// Where `b` resolves: the current frame first, then globals.
    pub open spec fn resolve(&self, b: Binding) -> Option<Slot> {
        match lookup(self.current_vars(), b) {
            Some(v) => Some(v),
            None => lookup(self.global_vars(), b),
        }
    }

    /// A manager over an empty heap, with empty global and current frames.
    pub fn new(alloc_box: AllocBox) -> (r: ScopeManager)
        requires
            alloc_box@ == Map::<u128, HeapEntry>::empty(),
        ensures
            r.wf(),
            r.global_vars() == Seq::<Slot>::empty(),
            r.current_vars() == Seq::<Slot>::empty(),
            r.current_tag() == ScopeTag::Call,
            r.parent_frames() == Seq::<Scope>::empty(),
            r.closure_frames() == Seq::<Scope>::empty(),
            r.heap() == Map::<u128, HeapEntry>::empty(),
            r.deferred() == Multiset::<u128>::empty(),
    {
        let r = ScopeManager {
            globals: Scope::new(ScopeTag::Call),
            curr_scope: Scope::new(ScopeTag::Call),
            parents: Vec::new(),
            closures: Vec::new(),
            links: Vec::new(),
            alloc_box,
            deferred: Ghost(Multiset::empty()),
        };
        assert(r.held().add(r.deferred()) =~= Multiset::empty());
        r
    }
}

impl ScopeManager {
    /// Everything but the current frame and the heap is as in `o`.
    pub open spec fn others_unchanged(&self, o: &ScopeManager) -> bool {
        &&& self.global_vars() == o.global_vars()
        &&& self.current_tag() == o.current_tag()
        &&& self.parent_frames() == o.parent_frames()
        &&& self.closure_frames() == o.closure_frames()
        &&& self.closure_links() == o.closure_links()
        &&& self.deferred() == o.deferred()
    }

    /// The reference held by a declaration that a lookup finds in the current
    /// or global frame is registered in the heap.
    proof fn lemma_resolved_live(&self, b: Binding)
        requires
            self.wf(),
            self.resolve(b) is Some,
            self.resolve(b).unwrap().held is Some,
        ensures
            self.heap().contains_key(self.resolve(b).unwrap().held.unwrap()),
    {
        if lookup(self.current_vars(), b) is Some {
            crate::scope::lemma_lookup_ref(self.current_vars(), b);
        } else {
            crate::scope::lemma_lookup_ref(self.global_vars(), b);
        }
    }

    /// Opens a frame for `exp`: a call frame for a call, a block frame
    /// otherwise. The old current frame becomes its parent.
    pub fn push_scope(&mut self, exp: &Exp)
        requires
            old(self).wf(),
        ensures
            final(self).wf(),
            final(self).current_tag() == (if *exp == Exp::Call {
                ScopeTag::Call
            } else {
                ScopeTag::Block
            }),
            final(self).current_vars() == Seq::<Slot>::empty(),
            final(self).parent_frames() == old(self).parent_frames().push(old(self).current_frame()),
            final(self).global_vars() == old(self).global_vars(),
            final(self).closure_frames() == old(self).closure_frames(),
            final(self).closure_links() == old(self).closure_links(),
            final(self).heap() == old(self).heap(),
            final(self).deferred() == old(self).deferred(),
    {
        let tag = match exp {
            Exp::Call => ScopeTag::Call,
            _ => ScopeTag::Block,
        };
        let mut frame = Scope::new(tag);
        std::mem::swap(&mut self.curr_scope, &mut frame);
        self.parents.push(frame);
        proof {
            assert(self.parents@.drop_last() =~= old(self).parents@);
            assert(self.held() =~= old(self).held());
        }
    }

    /// Whether some kept frame has the live frame at `depth` as its parent.
    fn linked_to(&self, depth: usize) -> (r: bool)
        ensures
            r == self.pinned(depth),
    {
        let mut i: usize = 0;
        while i < self.links.len()
            invariant
                i <= self.links@.len(),
                forall|j: int| 0 <= j < i ==> self.links@[j] != Link::Live(depth),
            decreases self.links@.len() - i,
        {
            if self.links[i] == Link::Live(depth) {
                return true;
            }
            i = i + 1;
        }
        false
    }

    /// Turns each link to the live frame at `depth` into one to kept frame `k`.
    fn relink(&mut self, depth: usize, k: usize)
        ensures
            final(self).links@ == relinked(old(self).links@, depth, k),
            final(self).closures == old(self).closures,
            final(self).parents == old(self).parents,
            final(self).curr_scope == old(self).curr_scope,
            final(self).globals == old(self).globals,
            final(self).alloc_box == old(self).alloc_box,
            final(self).deferred == old(self).deferred,
    {
        let mut i: usize = 0;
        while i < self.links.len()
            invariant
                i <= self.links@.len(),
                self.links@.len() == old(self).links@.len(),
                forall|j: int| 0 <= j < i ==> self.links@[j] == relinked(old(self).links@, depth, k)[j],
                forall|j: int| i <= j < self.links@.len() ==> self.links@[j] == old(self).links@[j],
                self.closures == old(self).closures,
                self.parents == old(self).parents,
                self.curr_scope == old(self).curr_scope,
                self.globals == old(self).globals,
                self.alloc_box == old(self).alloc_box,
                self.deferred == old(self).deferred,
            decreases self.links@.len() - i,
        {
            if self.links[i] == Link::Live(depth) {
                self.links.set(i, Link::Kept(k));
            }
            i = i + 1;
        }
        assert(self.links@ =~= relinked(old(self).links@, depth, k));
    }

    /// Leaves the current frame and makes its parent current. The frame is
    /// kept, with a link to its parent, when a kept frame has it as parent,
    /// or a closure held in it or in globals captures one of its bindings; the links to it
    /// then name it as kept. Otherwise its references are released when
    /// `gc_yield` holds. Popping the root frame fails and changes nothing.
    pub fn pop_scope(&mut self, gc_yield: bool) -> (r: Result<(), GcError>)
        requires
            old(self).wf(),
        ensures
            final(self).wf(),
            old(self).parent_frames().len() == 0 ==> r == Err::<(), GcError>(GcError::Scope)
                && *final(self) == *old(self),
            old(self).parent_frames().len() > 0 ==> {
                let frame = old(self).current_frame();
                let depth = old(self).parent_frames().len() as usize;
                let k = old(self).closure_frames().len() as usize;
                let kept = old(self).pinned(depth) || escapes(frame.vars@, old(self).heap())
                    || captured_by(old(self).global_vars(), old(self).heap(), frame.vars@);
                &&& r is Ok
                &&& final(self).current_frame() == old(self).parent_frames().last()
                &&& final(self).parent_frames() == old(self).parent_frames().drop_last()
                &&& final(self).global_vars() == old(self).global_vars()
                &&& kept ==> {
                    &&& final(self).closure_frames() == old(self).closure_frames().push(frame)
                    &&& final(self).closure_links() == relinked(
                        old(self).closure_links(),
                        depth,
                        k,
                    ).push(Link::Live((depth - 1) as usize))
                    &&& final(self).heap() == old(self).heap()
                    &&& final(self).deferred() == old(self).deferred()
                }
                &&& !kept ==> final(self).closure_frames() == old(self).closure_frames()
                &&& !kept ==> final(self).closure_links() == old(self).closure_links()
                &&& !kept && gc_yield ==> {
                    &&& final(self).deferred() == old(self).deferred()
                    &&& forall|u: u128|
                        #[trigger] final(self).heap().contains_key(u) ==> old(
                            self,
                        ).heap().contains_key(u) && final(self).heap()[u].thing == old(
                            self,
                        ).heap()[u].thing
                }
                &&& !kept && !gc_yield ==> {
                    &&& final(self).heap() == old(self).heap()
                    &&& final(self).deferred() == old(self).deferred().add(refs_of(frame.vars@))
                }
            },
    {
        if self.parents.len() == 0 {
            return Err(GcError::Scope);
        }
        let depth = self.parents.len();
        let linked = self.linked_to(depth);
        let k = self.closures.len();
        let ghost h0 = self.alloc_box@;
        let mut frame = self.parents.pop().unwrap();
        std::mem::swap(&mut self.curr_scope, &mut frame);
        let pinned = linked || self.globals.holds_closure_over(&self.alloc_box, &frame);
        let ghost fvars = frame.vars@;
        let ghost kept = pinned || escapes(fvars, h0);
        let ghost rest = self.held().add(self.deferred());
        proof {
            assert(old(self).parents@.drop_last() =~= self.parents@);
            assert(rest.add(refs_of(fvars)) =~= old(self).held().add(old(self).deferred()));
        }
        frame.transfer_stack(
            &mut self.closures,
            &mut self.alloc_box,
            gc_yield,
            pinned,
            Ghost(rest),
        );
        if self.closures.len() > k {
            self.relink(depth, k);
            self.links.push(Link::Live(depth - 1));
        }
        if !gc_yield {
            self.deferred = Ghost(
                if kept {
                    self.deferred@
                } else {
                    self.deferred@.add(refs_of(fvars))
                },
            );
        }
        proof {
            if kept {
                assert(self.closures@.drop_last() =~= old(self).closures@);
                assert(self.held().add(self.deferred()) =~= rest.add(refs_of(fvars)));
                assert(self.links@.drop_last() =~= relinked(old(self).links@, depth, k));
                assert forall|i: int| 0 <= i < self.closure_links().len() implies match #[trigger] self.closure_links()[i] {
                    Link::Live(d) => d <= self.parent_frames().len(),
                    Link::Kept(j) => i < j < self.closure_frames().len(),
                } by {
                    if i < k {
                        assert(self.links@[i] == relinked(old(self).links@, depth, k)[i]);
                        assert(old(self).links@[i] == old(self).closure_links()[i]);
                    }
                }
            } else {
                assert forall|i: int| 0 <= i < self.closure_links().len() implies match #[trigger] self.closure_links()[i] {
                    Link::Live(d) => d <= self.parent_frames().len(),
                    Link::Kept(j) => i < j < self.closure_frames().len(),
                } by {
                    assert(old(self).closure_links()[i] == self.closure_links()[i]);
                }
                if !gc_yield {
                    assert(self.held().add(self.deferred()) =~= rest.add(refs_of(fvars)));
                }
            }
        }
        Ok(())
    }

    /// Declares `var` in the current frame, recorded with `ptr`, and takes
    /// the heap reference it holds (see `slot_ref`). Fails, handing both back
    /// and changing nothing, only where a reference count would overflow.
    pub fn allocate(&mut self, var: JsVar, ptr: Option<JsPtrEnum>) -> (r: Result<(), GcError>)
        requires
            old(self).wf(),
        ensures
            final(self).wf(),
            final(self).others_unchanged(old(self)),
            r is Ok <==> !overflows(old(self).heap(), var, ptr),
            r is Ok ==> {
                &&& final(self).current_vars() == old(self).current_vars().push(
                    (Slot { var, ptr, held: slot_ref(old(self).heap(), var, ptr) }),
                )
                &&& final(self).heap() == after_store(old(self).heap(), None, var, ptr)
            },
            r is Err ==> {
                &&& r == Err::<(), GcError>(GcError::Store(var, ptr))
                &&& final(self).current_vars() == old(self).current_vars()
                &&& final(self).heap() == old(self).heap()
            },
    {
        let ghost rest = refs_of(self.globals.vars@).add(frames_refs(self.parents@)).add(
            frames_refs(self.closures@),
        ).add(self.deferred@);
        proof {
            assert(rest.add(refs_of(self.curr_scope.vars@)) =~= self.held().add(self.deferred()));
        }
        let r = self.curr_scope.push_var(&mut self.alloc_box, var, ptr, Ghost(rest));
        proof {
            assert(rest.add(refs_of(self.curr_scope.vars@)) =~= self.held().add(self.deferred()));
        }
        r
    }

    /// Declares `var` in the global frame, as `allocate` does in the current one.
    pub fn allocate_global(&mut self, var: JsVar, ptr: Option<JsPtrEnum>) -> (r: Result<(), GcError>)
        requires
            old(self).wf(),
        ensures
            final(self).wf(),
            final(self).current_frame() == old(self).current_frame(),
            final(self).parent_frames() == old(self).parent_frames(),
            final(self).closure_frames() == old(self).closure_frames(),
            final(self).deferred() == old(self).deferred(),
            r is Ok <==> !overflows(old(self).heap(), var, ptr),
            r is Ok ==> {
                &&& final(self).global_vars() == old(self).global_vars().push(
                    (Slot { var, ptr, held: slot_ref(old(self).heap(), var, ptr) }),
                )
                &&& final(self).heap() == after_store(old(self).heap(), None, var, ptr)
            },
            r is Err ==> {
                &&& r == Err::<(), GcError>(GcError::Store(var, ptr))
                &&& final(self).global_vars() == old(self).global_vars()
                &&& final(self).heap() == old(self).heap()
            },
    {
        let ghost rest = refs_of(self.curr_scope.vars@).add(frames_refs(self.parents@)).add(
            frames_refs(self.closures@),
        ).add(self.deferred@);
        proof {
            assert(rest.add(refs_of(self.globals.vars@)) =~= self.held().add(self.deferred()));
        }
        let r = self.globals.push_var(&mut self.alloc_box, var, ptr, Ghost(rest));
        proof {
            assert(rest.add(refs_of(self.globals.vars@)) =~= self.held().add(self.deferred()));
        }
        r
    }

    /// The variable behind `bnd`, looked up in the current frame and then in
    /// globals, with the payload it was recorded with.
    pub fn load(&self, bnd: &Binding) -> (r: Result<(JsVar, Option<JsPtrEnum>), GcError>)
        ensures
            match self.resolve(*bnd) {
                Some(s) => r == Ok::<(JsVar, Option<JsPtrEnum>), GcError>((s.var, s.ptr)),
                None => r == Err::<(JsVar, Option<JsPtrEnum>), GcError>(GcError::Load(*bnd)),
            },
    {
        let found = match self.curr_scope.get_var_copy(bnd) {
            Some(pair) => Some(pair),
            None => self.globals.get_var_copy(bnd),
        };
        match found {
            Some(pair) => Ok(pair),
            None => Err(GcError::Load(*bnd)),
        }
    }

    /// Assigns `var` to its binding: overwrites its latest declaration in the
    /// current frame, or declares it there when there is none. Fails, handing
    /// both back and changing nothing, only where a reference count would
    /// overflow.
    pub fn store(&mut self, var: JsVar, ptr: Option<JsPtrEnum>) -> (r: Result<(), GcError>)
        requires
            old(self).wf(),
        ensures
            final(self).wf(),
            final(self).others_unchanged(old(self)),
            r is Ok <==> !overflows(old(self).heap(), var, ptr),
            r is Ok ==> {
                let prior = lookup(old(self).current_vars(), var.binding);
                &&& lookup(final(self).current_vars(), var.binding) == Some(
                    (Slot { var, ptr, held: slot_ref(old(self).heap(), var, ptr) }),
                )
                &&& forall|b: Binding|
                    b != var.binding ==> lookup(final(self).current_vars(), b) == lookup(
                        old(self).current_vars(),
                        b,
                    )
                &&& final(self).current_vars().len() == old(self).current_vars().len() + (
                if prior is Some {
                    0int
                } else {
                    1int
                })
                &&& final(self).heap() == after_store(
                    old(self).heap(),
                    match prior {
                        Some(o) => o.held,
                        None => None,
                    },
                    var,
                    ptr,
                )
            },
            r is Err ==> {
                &&& r == Err::<(), GcError>(GcError::Store(var, ptr))
                &&& final(self).current_vars() == old(self).current_vars()
                &&& final(self).heap() == old(self).heap()
            },
    {
        let ghost rest = refs_of(self.globals.vars@).add(frames_refs(self.parents@)).add(
            frames_refs(self.closures@),
        ).add(self.deferred@);
        proof {
            assert(rest.add(refs_of(self.curr_scope.vars@)) =~= self.held().add(self.deferred()));
        }
        let update = self.curr_scope.update_var(&mut self.alloc_box, var, ptr, Ghost(rest));
        proof {
            assert(rest.add(refs_of(self.curr_scope.vars@)) =~= self.held().add(self.deferred()));
        }
        match update {
            Err(GcError::Store(var, ptr)) => {
                let ghost before = self.curr_scope.vars@;
                let r = self.allocate(var, ptr);
                proof {
                    if r is Ok {
                        assert(self.curr_scope.vars@.drop_last() =~= before);
                    }
                }
                r
            },
            other => other,
        }
    }

    /// Searches the live chain from depth `d` down to the root.
    fn walk_live(&self, d: usize, bnd: &Binding) -> (r: Option<(JsVar, Option<JsPtrEnum>)>)
        requires
            d <= self.parent_frames().len(),
        ensures
            match self.live_lookup(d as int, *bnd) {
                Some(s) => r == Some((s.var, s.ptr)),
                None => r is None,
            },
    {
        let mut e: usize = d;
        loop
            invariant
                e <= d,
                d <= self.parent_frames().len(),
                self.live_lookup(e as int, *bnd) == self.live_lookup(d as int, *bnd),
            decreases e,
        {
            let found = if e == self.parents.len() {
                self.curr_scope.get_var_copy(bnd)
            } else {
                self.parents[e].get_var_copy(bnd)
            };
            if found.is_some() {
                return found;
            }
            if e == 0 {
                return None;
            }
            e = e - 1;
        }
    }

    /// The variable behind `bnd` for the closure kept at `idx`, looked up
    /// in its frame, along the parent links, then in globals, with the
    /// payload it was recorded with.
    pub fn load_captured(&self, idx: usize, bnd: &Binding) -> (r: Result<
        (JsVar, Option<JsPtrEnum>),
        GcError,
    >)
        requires
            self.wf(),
        ensures
            idx >= self.closure_frames().len() ==> r == Err::<(JsVar, Option<JsPtrEnum>), GcError>(
                GcError::Load(*bnd),
            ),
            idx < self.closure_frames().len() ==> match self.captured_resolve(idx as int, *bnd) {
                Some(s) => r == Ok::<(JsVar, Option<JsPtrEnum>), GcError>((s.var, s.ptr)),
                None => r == Err::<(JsVar, Option<JsPtrEnum>), GcError>(GcError::Load(*bnd)),
            },
    {
        if idx >= self.closures.len() {
            return Err(GcError::Load(*bnd));
        }
        let mut i: usize = idx;
        let mut found: Option<(JsVar, Option<JsPtrEnum>)> = None;
        let mut live: Option<usize> = None;
        while live.is_none() && found.is_none()
            invariant
                self.wf(),
                i < self.closure_frames().len(),
                live is None && found is None ==> self.kept_lookup(i as int, *bnd)
                    == self.kept_lookup(idx as int, *bnd),
                found matches Some(p) ==> self.kept_lookup(idx as int, *bnd) matches Some(s) && p == (s.var, s.ptr),
                live matches Some(d) ==> d <= self.parent_frames().len() && self.live_lookup(d as int, *bnd)
                    == self.kept_lookup(idx as int, *bnd),
                live is Some ==> found is None,
            decreases self.closure_frames().len() - i, if live is None && found is None { 1int } else { 0int },
        {
            assert(self.closure_links()[i as int] == self.links@[i as int]);
            match self.closures[i].get_var_copy(bnd) {
                Some(p) => {
                    found = Some(p);
                },
                None => match self.links[i] {
                    Link::Kept(j) => {
                        i = j;
                    },
                    Link::Live(d) => {
                        live = Some(d);
                    },
                },
            }
        }
        if let Some(d) = live {
            found = self.walk_live(d, bnd);
        }
        match found {
            Some(p) => Ok(p),
            None => match self.globals.get_var_copy(bnd) {
                Some(p) => Ok(p),
                None => Err(GcError::Load(*bnd)),
            },
        }
    }

    /// Whether the current frame has a parent.
    pub fn has_parent(&self) -> (r: bool)
        ensures
            r == (self.parent_frames().len() > 0),
    {
        self.parents.len() > 0
    }

    /// How many frames escaped closures keep alive.
    pub fn closure_count(&self) -> (r: usize)
        ensures
            r == self.closure_frames().len(),
    {
        self.closures.len()
    }

    /// Whether the heap holds no object.
    pub fn heap_is_empty(&self) -> (r: bool)
        ensures
            r <==> self.heap() == Map::<u128, HeapEntry>::empty(),
    {
        self.alloc_box.is_empty()
    }
}

/// When every pop so far has collected, the heap holds exactly the objects
/// that live frames refer to: once no live frame refers to any, it is empty.
pub proof fn lemma_no_leak(m: ScopeManager)
    requires
        m.wf(),
        m.deferred() == Multiset::<u128>::empty(),
    ensures
        forall|u: u128| m.heap().contains_key(u) <==> m.held().count(u) > 0,
        m.held() == Multiset::<u128>::empty() ==> m.heap() == Map::<u128, HeapEntry>::empty(),
{
    assert(m.held().add(m.deferred()) =~= m.held());
    if m.held() == Multiset::<u128>::empty() {
        assert(m.heap() =~= Map::<u128, HeapEntry>::empty());
    }
}

/// The heap is fixed by the references that live frames and uncollected pops
/// hold, together with the content of each object: two managers that agree
/// on both have the same heap. So a frame that is opened, used and left with
/// collection, holding no closure that captures it, gives back the heap it
/// was opened over.
pub proof fn lemma_heap_determined(a: ScopeManager, b: ScopeManager)
    requires
        a.wf(),
        b.wf(),
        a.held().add(a.deferred()) == b.held().add(b.deferred()),
        forall|u: u128|
            #[trigger] b.heap().contains_key(u) ==> a.heap().contains_key(u) && b.heap()[u].thing
                == a.heap()[u].thing,
    ensures
        a.heap() == b.heap(),
{
    assert(a.heap() =~= b.heap());
}

/// A declaration found along the live chain holds an object the heap has.
proof fn lemma_live_lookup_live(m: ScopeManager, d: int, b: Binding)
    requires
        m.wf(),
        0 <= d <= m.parent_frames().len(),
        m.live_lookup(d, b) is Some,
        m.live_lookup(d, b).unwrap().held is Some,
    ensures
        m.heap().contains_key(m.live_lookup(d, b).unwrap().held.unwrap()),
    decreases d,
{
    let slots = m.live_frame(d).vars@;
    if lookup(slots, b) is Some {
        let u = lookup(slots, b).unwrap().held.unwrap();
        crate::scope::lemma_lookup_ref(slots, b);
        if d < m.parent_frames().len() {
            lemma_frame_refs_within(m.parent_frames(), d, u);
        }
    } else {
        lemma_live_lookup_live(m, d - 1, b);
    }
}

/// A declaration found from a kept frame along its links holds an object
/// the heap has.
proof fn lemma_kept_lookup_live(m: ScopeManager, i: int, b: Binding)
    requires
        m.wf(),
        m.kept_lookup(i, b) is Some,
        m.kept_lookup(i, b).unwrap().held is Some,
    ensures
        m.heap().contains_key(m.kept_lookup(i, b).unwrap().held.unwrap()),
    decreases m.closure_frames().len() - i,
{
    let slots = m.closure_frames()[i].vars@;
    if lookup(slots, b) is Some {
        let u = lookup(slots, b).unwrap().held.unwrap();
        crate::scope::lemma_lookup_ref(slots, b);
        lemma_frame_refs_within(m.closure_frames(), i, u);
    } else {
        match m.closure_links()[i] {
            Link::Kept(j) => {
                lemma_kept_lookup_live(m, j as int, b);
            },
            Link::Live(d) => {
                lemma_live_lookup_live(m, d as int, b);
            },
        }
    }
}

/// What a kept closure's frame chain (or globals) resolves a binding to
/// refers only to objects still in the heap: nothing a kept frame can reach
/// has been freed.
pub proof fn lemma_captured_resolve_live(m: ScopeManager, i: int, b: Binding)
    requires
        m.wf(),
        m.captured_resolve(i, b) is Some,
        m.captured_resolve(i, b).unwrap().held is Some,
    ensures
        m.heap().contains_key(m.captured_resolve(i, b).unwrap().held.unwrap()),
{
    if m.kept_lookup(i, b) is Some {
        lemma_kept_lookup_live(m, i, b);
    } else {
        crate::scope::lemma_lookup_ref(m.global_vars(), b);
    }
}

/// A binding declared in globals resolves there from any frame that does not
/// shadow it.
pub proof fn lemma_global_fallback(m: ScopeManager, b: Binding)
    requires
        lookup(m.current_vars(), b) is None,
    ensures
        m.resolve(b) == lookup(m.global_vars(), b),
{
}

/// What a store records in the current frame is what resolves for its
/// binding, and the heap reference it holds is registered.
pub proof fn lemma_store_then_load(m: ScopeManager, b: Binding)
    requires
        m.wf(),
        lookup(m.current_vars(), b) is Some,
    ensures
        m.resolve(b) == lookup(m.current_vars(), b),
        lookup(m.current_vars(), b).unwrap().held is Some ==> m.heap().contains_key(
            lookup(m.current_vars(), b).unwrap().held.unwrap(),
        ),
{
    if lookup(m.current_vars(), b).unwrap().held is Some {
        m.lemma_resolved_live(b);
    }
}

/// A fresh manager with its own empty heap.
pub fn init_gc() -> (r: ScopeManager)
    ensures
        r.wf(),
        r.global_vars() == Seq::<Slot>::empty(),
        r.current_vars() == Seq::<Slot>::empty(),
        r.current_tag() == ScopeTag::Call,
        r.parent_frames() == Seq::<Scope>::empty(),
        r.closure_frames() == Seq::<Scope>::empty(),
        r.heap() == Map::<u128, HeapEntry>::empty(),
        r.deferred() == Multiset::<u128>::empty(),
{
    ScopeManager::new(AllocBox::new())
}

} // verus!
