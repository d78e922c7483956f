//! Field lenses: read and write access to one field of an animation target,
//! whatever the type that owns the field.
use vstd::prelude::*;
use core::marker::PhantomData;
use crate::NodeId;

verus! {

/// Why a lens could not reach its field.
#[derive(Clone, Copy, Debug, PartialEq, Eq, Structural)]
pub enum FieldError {
    /// The target lacks the field that the lens expects.
    FieldMissing,
}

/// Access to a field of type `T` on targets of type `E`.
pub trait FieldLens<E, T> {
    /// Whether `target` has the field.
    spec fn has_field(&self, target: &E) -> bool;

    /// The field's value, where `target` has the field.
    spec fn field(&self, target: &E) -> T;

    /// Whether `after` is `before` with the field set to `value` and nothing
    /// else changed.
    spec fn updated(&self, before: &E, value: T, after: &E) -> bool;

    /// Read the field.
    fn get_field(&self, target: &E) -> (value: Result<T, FieldError>)
        ensures
            self.has_field(target) ==> value == Ok::<T, FieldError>(self.field(target)),
            !self.has_field(target) ==> value == Err::<T, FieldError>(FieldError::FieldMissing),
    ;

    /// Write the field. A target without the field is left as it is.
    fn set_field(&self, target: &mut E, value: T) -> (done: Result<(), FieldError>)
        ensures
            self.has_field(old(target)) ==> done == Ok::<(), FieldError>(()) && self.updated(old(target), value, final(target)),
            !self.has_field(old(target)) ==> done == Err::<(), FieldError>(FieldError::FieldMissing) && *final(target)
                == *old(target),
    ;
}

/// The lens on one slot of a target that keeps its values in a list. A
/// target with too few slots lacks the field.
#[derive(Clone, Copy, Debug, PartialEq, Eq, Structural)]
pub struct SlotLens {
    pub slot: usize,
}

impl<T: Copy> FieldLens<Vec<T>, T> for SlotLens {
    open spec fn has_field(&self, target: &Vec<T>) -> bool {
        self.slot < target@.len()
    }

    open spec fn field(&self, target: &Vec<T>) -> T {
        target@[self.slot as int]
    }

    open spec fn updated(&self, before: &Vec<T>, value: T, after: &Vec<T>) -> bool {
        after@ == before@.update(self.slot as int, value)
    }

    fn get_field(&self, target: &Vec<T>) -> (value: Result<T, FieldError>) {
        if self.slot < target.len() {
            Ok(target[self.slot])
        } else {
            Err(FieldError::FieldMissing)
        }
    }

    fn set_field(&self, target: &mut Vec<T>, value: T) -> (done: Result<(), FieldError>) {
        if self.slot < target.len() {
            target.set(self.slot, value);
            Ok(())
        } else {
            Err(FieldError::FieldMissing)
        }
    }
}

/// The lens that two functions make on a component that a target may or
/// may not have: one reads the field from the component, the other gives the
/// component with the field set.
#[verifier::reject_recursive_types(C)]
#[verifier::reject_recursive_types(P)]
pub struct FunctionFieldLens<C, P, G: Fn(&C) -> P, S: Fn(C, P) -> C> {
    get: G,
    set: S,
    marker: PhantomData<(C, P)>,
}

/// What two functions must do to make a lens: both can be called on
/// anything, the first always gives the same value for the same component,
/// and it gives back whatever the second has set.
pub open spec fn lawful<C, P, G: Fn(&C) -> P, S: Fn(C, P) -> C>(get: G, set: S) -> bool {
    &&& forall|component: &C| #[trigger] get.requires((component,))
    &&& forall|component: C, value: P| #[trigger] set.requires((component, value))
    &&& forall|component: &C, first: P, second: P|
        #![trigger get.ensures((component,), first), get.ensures((component,), second)]
        get.ensures((component,), first) && get.ensures((component,), second) ==> first == second
    &&& forall|component: C, value: P, after: C, read: P|
        #![trigger set.ensures((component, value), after), get.ensures((&after,), read)]
        set.ensures((component, value), after) && get.ensures((&after,), read) ==> read == value
}

impl<C, P, G: Fn(&C) -> P, S: Fn(C, P) -> C> FunctionFieldLens<C, P, G, S> {
    #[verifier::type_invariant]
    closed spec fn inv(&self) -> bool {
        lawful(self.get, self.set)
    }

    /// The function that reads the field.
    pub closed spec fn getter(&self) -> G {
        self.get
    }

    /// The function that sets the field.
    pub closed spec fn setter(&self) -> S {
        self.set
    }

    /// The lens that reads with `get` and writes with `set`. A target has
    /// the field where it has the component.
    pub fn new(get: G, set: S) -> (lens: Self)
        requires
            lawful(get, set),
        ensures
            lens.getter() == get,
            lens.setter() == set,
            forall|target: &Option<C>| #[trigger] lens.has_field(target) == target.is_some(),
            forall|before: &Option<C>, value: P, after: &Option<C>| #[trigger]
                lens.updated(before, value, after) == (before.is_some() && after.is_some() && set.ensures(
                    (before.unwrap(), value),
                    after.unwrap(),
                )),
    {
        FunctionFieldLens { get, set, marker: PhantomData }
    }
}

impl<C, P, G: Fn(&C) -> P, S: Fn(C, P) -> C> FieldLens<Option<C>, P> for FunctionFieldLens<C, P, G, S> {
    open spec fn has_field(&self, target: &Option<C>) -> bool {
        target.is_some()
    }

    open spec fn field(&self, target: &Option<C>) -> P {
        choose|value: P| self.getter().ensures((&target.unwrap(),), value)
    }

    open spec fn updated(&self, before: &Option<C>, value: P, after: &Option<C>) -> bool {
        before.is_some() && after.is_some() && self.setter().ensures((before.unwrap(), value), after.unwrap())
    }

    fn get_field(&self, target: &Option<C>) -> (value: Result<P, FieldError>)
        ensures
            value.is_ok() ==> self.getter().ensures((&target.unwrap(),), value.unwrap()),
    {
        proof {
            use_type_invariant(self);
        }
        match target {
            Some(component) => Ok((self.get)(component)),
            None => Err(FieldError::FieldMissing),
        }
    }

    fn set_field(&self, target: &mut Option<C>, value: P) -> (done: Result<(), FieldError>) {
        proof {
            use_type_invariant(self);
        }
        match target.take() {
            Some(component) => {
                *target = Some((self.set)(component, value));
                Ok(())
            },
            None => Err(FieldError::FieldMissing),
        }
    }
}

/// A target keeps its slot when the slot is set, and the slot then holds
/// what was set.
pub proof fn lemma_slot_set_then_get<T: Copy>(lens: SlotLens, before: &Vec<T>, value: T, after: &Vec<T>)
    requires
        lens.has_field(before),
        lens.updated(before, value, after),
    ensures
        lens.has_field(after),
        lens.field(after) == value,
{
}

/// A target keeps its component when a lawful lens of functions sets the
/// field, and whatever is read from the field then is what was set.
pub proof fn lemma_function_set_then_get<C, P, G: Fn(&C) -> P, S: Fn(C, P) -> C>(
    lens: FunctionFieldLens<C, P, G, S>,
    before: &Option<C>,
    value: P,
    after: &Option<C>,
)
    requires
        lawful(lens.getter(), lens.setter()),
        lens.updated(before, value, after),
    ensures
        lens.has_field(after),
        forall|read: P| lens.getter().ensures((&after.unwrap(),), read) ==> read == value,
{
}

/// The reference from a node to the node that carries the lens it sees.
#[derive(Clone, Copy, Debug, PartialEq, Eq, Structural)]
pub struct AnimationLens {
    pub lens: NodeId,
}

impl AnimationLens {
    pub fn new(lens: NodeId) -> (reference: Self)
        ensures
            reference.lens == lens,
    {
        AnimationLens { lens }
    }

    pub fn get(&self) -> (lens: NodeId)
        ensures
            lens == self.lens,
    {
        self.lens
    }
}

} // verus!
