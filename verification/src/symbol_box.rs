//! Boxes that own a symbol and keep track of the references to it.
use vstd::prelude::*;

verus! {

/// A reader-writer lock.
#[verifier::external_type_specification]
#[verifier::external_body]
#[verifier::reject_recursive_types(T)]
pub struct ExRwLock<T: ?Sized>(std::sync::RwLock<T>);

/// `RwLock::new`: a lock holding `value`. Nothing is stated of the lock, which the
/// library hands on without reading.
#[verifier::external_body]
fn rwlock_new<T>(value: T) -> std::sync::RwLock<T> {
    std::sync::RwLock::new(value)
}

/// A weak reference to a locked value (`std::sync::Weak`), held whole: Verus sees none
/// of it.
#[verifier::external_body]
#[verifier::reject_recursive_types(H)]
pub struct WeakRef<H> {
    inner: std::sync::Weak<std::sync::RwLock<H>>,
}

/// `Arc::downgrade`: a weak reference to the locked value the `Arc` shares.
#[verifier::external_body]
fn downgrade<H>(a: &std::sync::Arc<std::sync::RwLock<H>>) -> WeakRef<H> {
    WeakRef { inner: std::sync::Arc::downgrade(a) }
}

/// `Weak::upgrade`: the value if it is still alive. Whether it is depends on what
/// else holds it, so nothing is stated of the result; callers state what they do with
/// it through `call_ensures` of this function on the reference they handed to it.
#[verifier::external_body]
pub fn weak_upgrade<H>(w: &WeakRef<H>) -> Option<std::sync::Arc<std::sync::RwLock<H>>> {
    w.inner.upgrade()
}

/// Guard to make sure [SymbolBox] can't be dropped when it's accessed via a reference
/// (or the other way around)
#[verifier::reject_recursive_types(T)]
pub struct Guard<'a, T>(pub std::sync::Arc<std::sync::RwLock<T>>, pub std::marker::PhantomData<&'a T>);

/// Smart pointer for your symbols, so they can be referenced
#[verifier::reject_recursive_types(T)]
#[verifier::reject_recursive_types(H)]
pub struct SymbolBox<T, H> {
    object: std::sync::Arc<std::sync::RwLock<T>>,
    references: Vec<WeakRef<H>>,
}

/// `keep` picks out the kept entries: `sub` is `all` with the entries at the positions
/// where `keep` is false left out, in order.
pub open spec fn picked<A>(all: Seq<A>, keep: Seq<bool>, sub: Seq<A>) -> bool
    decreases all.len(),
{
    if all.len() == 0 {
        keep.len() == 0 && sub.len() == 0
    } else {
        keep.len() == all.len() && if keep.last() {
            sub.len() > 0 && sub.last() == all.last() && picked(all.drop_last(), keep.drop_last(), sub.drop_last())
        } else {
            picked(all.drop_last(), keep.drop_last(), sub)
        }
    }
}

impl<T, H> SymbolBox<T, H> {
    /// The weak references recorded, in the order they were made.
    pub closed spec fn refs(&self) -> Seq<WeakRef<H>> {
        self.references@
    }

    /// The lock that holds the box's symbol.
    pub closed spec fn spec_object(&self) -> std::sync::RwLock<T> {
        *self.object
    }

    /// Create a new [SymbolBox] from it's contents
    pub fn new(object: T) -> (r: Self)
        ensures
            r.refs().len() == 0,
    {
        SymbolBox { object: std::sync::Arc::new(rwlock_new(object)), references: Vec::new() }
    }

    /// Access contents of this [SymbolBox]
    pub fn object(&self) -> (r: &std::sync::RwLock<T>)
        ensures
            *r == self.spec_object(),
    {
        &*self.object
    }

    /// Get a list of the references to this [SymbolBox] that are still alive, forgetting
    /// the others: a guard for each reference kept, in order. Whether a reference is
    /// alive is what upgrading it gives, and that depends on its other owners; what is
    /// done with each outcome is [`keep_alive`].
    pub fn references(&mut self) -> (r: Vec<Guard<'_, H>>)
        ensures
            final(self).spec_object() == old(self).spec_object(),
            exists|outcomes: Seq<Option<std::sync::Arc<std::sync::RwLock<H>>>>|
                #![trigger marks(outcomes)]
                outcomes.len() == old(self).refs().len()
                && (forall|j: int|
                    0 <= j < outcomes.len() ==> call_ensures(
                        weak_upgrade::<H>,
                        (&old(self).refs()[j],),
                        #[trigger] outcomes[j],
                    ))
                && picked(old(self).refs(), marks(outcomes), final(self).refs())
                && guard_values(r@) == somes(outcomes),
    {
        let mut outcomes: Vec<Option<std::sync::Arc<std::sync::RwLock<H>>>> = Vec::new();
        let mut i: usize = 0;
        while i < self.references.len()
            invariant
                i <= self.references@.len(),
                outcomes@.len() == i,
                *self == *old(self),
                forall|j: int|
                    0 <= j < i ==> call_ensures(
                        weak_upgrade::<H>,
                        (&self.references@[j],),
                        #[trigger] outcomes@[j],
                    ),
            decreases self.references@.len() - i,
        {
            outcomes.push(weak_upgrade(&self.references[i]));
            i += 1;
        }
        let mut refs: Vec<WeakRef<H>> = Vec::new();
        std::mem::swap(&mut refs, &mut self.references);
        let ghost outs = outcomes@;
        let (kept, guards) = keep_alive(refs, outcomes);
        self.references = kept;
        assert(outs.len() == old(self).refs().len());
        guards
    }
}

/// Whether each upgrade outcome found its value alive.
pub open spec fn marks<A>(outcomes: Seq<Option<A>>) -> Seq<bool> {
    outcomes.map_values(|o: Option<A>| o is Some)
}

/// The values of the outcomes that found them, in order.
pub open spec fn somes<A>(outcomes: Seq<Option<A>>) -> Seq<A>
    decreases outcomes.len(),
{
    if outcomes.len() == 0 {
        Seq::empty()
    } else {
        let prev = somes(outcomes.drop_last());
        match outcomes.last() {
            Some(a) => prev.push(a),
            None => prev,
        }
    }
}

/// The locked values the guards hold.
pub open spec fn guard_values<'a, H>(guards: Seq<Guard<'a, H>>) -> Seq<std::sync::Arc<std::sync::RwLock<H>>> {
    guards.map_values(|g: Guard<'a, H>| g.0)
}

/// Keep the references whose upgrade outcome (at the same position) found the value
/// alive and drop the others, in order; a guard for each value found, in order.
pub fn keep_alive<'a, H>(
    refs: Vec<WeakRef<H>>,
    outcomes: Vec<Option<std::sync::Arc<std::sync::RwLock<H>>>>,
) -> (r: (Vec<WeakRef<H>>, Vec<Guard<'a, H>>))
    requires
        refs@.len() == outcomes@.len(),
    ensures
        picked(refs@, marks(outcomes@), r.0@),
        guard_values(r.1@) == somes(outcomes@),
{
    let ghost all = refs@;
    let ghost outs = outcomes@;
    let mut rest = refs;
    let mut rest_out = outcomes;
    let mut kept: Vec<WeakRef<H>> = Vec::new();
    let mut guards: Vec<Guard<'a, H>> = Vec::new();
    let ghost mut done: int = 0;
    assert(marks(outs.take(0)) =~= Seq::<bool>::empty());
    assert(outs.take(0) =~= Seq::<Option<std::sync::Arc<std::sync::RwLock<H>>>>::empty());
    assert(guard_values(guards@) =~= Seq::<std::sync::Arc<std::sync::RwLock<H>>>::empty());
    while rest.len() > 0
        invariant
            0 <= done <= all.len(),
            all.len() == outs.len(),
            rest@ == all.skip(done),
            rest_out@ == outs.skip(done),
            picked(all.take(done), marks(outs.take(done)), kept@),
            guard_values(guards@) == somes(outs.take(done)),
        decreases rest@.len(),
    {
        let w = rest.remove(0);
        let o = rest_out.remove(0);
        proof {
            assert(rest@ =~= all.skip(done + 1));
            assert(rest_out@ =~= outs.skip(done + 1));
            assert(w == all[done]);
            assert(o == outs[done]);
            assert(all.take(done + 1).drop_last() =~= all.take(done));
            assert(outs.take(done + 1).drop_last() =~= outs.take(done));
            assert(marks(outs.take(done + 1)).drop_last() =~= marks(outs.take(done)));
            assert(marks(outs.take(done + 1)).last() == (o is Some));
        }
        match o {
            Some(object) => {
                proof {
                    assert(kept@.push(w).drop_last() =~= kept@);
                }
                kept.push(w);
                guards.push(Guard(object, std::marker::PhantomData));
                assert(guard_values(guards@) =~= somes(outs.take(done + 1)));
            },
            None => {
                assert(guard_values(guards@) =~= somes(outs.take(done + 1)));
            },
        }
        proof {
            done = done + 1;
        }
    }
    assert(all.take(done) =~= all);
    assert(outs.take(done) =~= outs);
    (kept, guards)
}

/// `Arc::strong_count`: how many owners share the locked value. It depends on what
/// else holds the value; the `Arc` it is asked of is one of them, so it is at least 1.
#[verifier::external_body]
fn arc_strong_count<T>(a: &std::sync::Arc<std::sync::RwLock<T>>) -> (r: usize)
    ensures
        r >= 1,
{
    std::sync::Arc::strong_count(a)
}

/// `Arc::weak_count`: how many weak references point at the locked value. It depends on
/// what else holds them, so nothing is stated of it.
#[verifier::external_body]
fn arc_weak_count<T>(a: &std::sync::Arc<std::sync::RwLock<T>>) -> usize {
    std::sync::Arc::weak_count(a)
}

impl<T, H> SymbolBox<T, H> {
    /// How many owners share the box's symbol: the box and any guards alive.
    pub fn object_strong_count(&self) -> (r: usize)
        ensures
            r >= 1,
    {
        arc_strong_count(&self.object)
    }

    /// How many weak references point at the box's symbol.
    pub fn object_weak_count(&self) -> usize {
        arc_weak_count(&self.object)
    }
}

/// Reference to [SymbolBox], invalidates, if SymbolBox drops
#[verifier::reject_recursive_types(T)]
#[verifier::reject_recursive_types(H)]
pub struct SymbolRef<T, H> {
    object: Option<WeakRef<T>>,
    handler: std::sync::Arc<std::sync::RwLock<H>>,
}

impl<T, H> SymbolRef<T, H> {
    /// Whether this reference was bound to a box.
    pub closed spec fn is_bound(&self) -> bool {
        self.object is Some
    }

    /// The weak reference to the box's symbol that a bound reference holds.
    pub closed spec fn bound_ref(&self) -> WeakRef<T> {
        self.object->0
    }

    /// The lock that holds the reference's handler.
    pub closed spec fn spec_handler(&self) -> std::sync::RwLock<H> {
        *self.handler
    }

    /// Create a new SymbolRef, bound to no box yet.
    pub fn new(handler: H) -> (r: Self)
        ensures
            !r.is_bound(),
    {
        SymbolRef { object: None, handler: std::sync::Arc::new(rwlock_new(handler)) }
    }

    /// Bind this [SymbolRef] to a [SymbolBox]: the box records one more reference.
    pub fn bind(&mut self, symbol_box: &mut SymbolBox<T, H>)
        ensures
            final(self).is_bound(),
            final(self).spec_handler() == old(self).spec_handler(),
            final(symbol_box).refs().len() == old(symbol_box).refs().len() + 1,
            final(symbol_box).refs().drop_last() == old(symbol_box).refs(),
            final(symbol_box).spec_object() == old(symbol_box).spec_object(),
    {
        let handler = downgrade(&self.handler);
        symbol_box.references.push(handler);
        assert(symbol_box.references@.drop_last() =~= old(symbol_box).references@);
        self.object = Some(downgrade(&symbol_box.object));
    }

    /// Access contents of the [SymbolBox]: `None` when bound to none, or when the box is
    /// gone.
    pub fn object(&self) -> (r: Option<Guard<'_, T>>)
        ensures
            !self.is_bound() ==> r is None,
            r is Some ==> self.is_bound() && call_ensures(
                weak_upgrade::<T>,
                (&self.bound_ref(),),
                Some(r.unwrap().0),
            ),
    {
        match &self.object {
            Some(object) => match weak_upgrade(object) {
                Some(object) => Some(Guard(object, std::marker::PhantomData)),
                None => None,
            },
            None => None,
        }
    }

    /// How many owners share the handler: the reference and any guards alive.
    pub fn handler_strong_count(&self) -> (r: usize)
        ensures
            r >= 1,
    {
        arc_strong_count(&self.handler)
    }

    /// How many weak references point at the handler.
    pub fn handler_weak_count(&self) -> usize {
        arc_weak_count(&self.handler)
    }

    /// Get the handler associated with this [SymbolRef]
    pub fn handler(&self) -> (r: &std::sync::RwLock<H>)
        ensures
            *r == self.spec_handler(),
    {
        &*self.handler
    }
}

impl<T, H> SymbolBox<T, H> {
    /// Create a new [SymbolRef] referencing this [SymbolBox]
    pub fn new_ref(&mut self, handler: H) -> (r: SymbolRef<T, H>)
        ensures
            r.is_bound(),
            final(self).refs().len() == old(self).refs().len() + 1,
            final(self).refs().drop_last() == old(self).refs(),
            final(self).spec_object() == old(self).spec_object(),
    {
        let mut symbol_ref = SymbolRef::new(handler);
        symbol_ref.bind(self);
        symbol_ref
    }
}

} // verus!
