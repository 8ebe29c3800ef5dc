//! Parameter lists of systems: what each parameter locks, and whether a run
//! can proceed.
use vstd::prelude::*;
use crate::borrow::{Borrow, BorrowType, concat_borrows, conflicting, find_conflict, has_conflict};
use crate::resource::RunError;

verus! {

/// One parameter of a system, as the run sees it.
pub enum Param {
    /// Shared access to the resource with type key `key`.
    Res { key: u64, optional: bool },
    /// Exclusive access to the resource with type key `key`.
    ResMut { key: u64, optional: bool },
    /// A query, with the component borrows it declares.
    Query(Vec<Borrow>),
    /// The view of alive entities.
    Entities,
    /// A command buffer.
    Commands,
}

/// The resource borrows one parameter declares.
pub open spec fn param_resource_types(p: Param) -> Seq<Borrow> {
    match p {
        Param::Res { key, .. } => seq![Borrow { key, kind: BorrowType::Immutable }],
        Param::ResMut { key, .. } => seq![Borrow { key, kind: BorrowType::Mutable }],
        _ => Seq::empty(),
    }
}

/// The component borrows one parameter declares.
pub open spec fn param_component_types(p: Param) -> Seq<Borrow> {
    match p {
        Param::Query(list) => list@,
        _ => Seq::empty(),
    }
}

/// The resource borrows of a parameter list: each parameter's, in order.
pub open spec fn resource_types_of(ps: Seq<Param>) -> Seq<Borrow>
    decreases ps.len(),
{
    if ps.len() == 0 {
        Seq::empty()
    } else {
        resource_types_of(ps.drop_last()) + param_resource_types(ps.last())
    }
}

/// The component borrows of a parameter list: each parameter's, in order.
pub open spec fn component_types_of(ps: Seq<Param>) -> Seq<Borrow>
    decreases ps.len(),
{
    if ps.len() == 0 {
        Seq::empty()
    } else {
        component_types_of(ps.drop_last()) + param_component_types(ps.last())
    }
}

/// Whether `p` is a required resource parameter whose resource is absent.
pub open spec fn missing(p: Param, present: Set<u64>) -> bool {
    match p {
        Param::Res { key, optional } => !optional && !present.contains(key),
        Param::ResMut { key, optional } => !optional && !present.contains(key),
        _ => false,
    }
}

/// The type key of the resource that `p` locks, if it is a resource parameter.
pub open spec fn resource_key(p: Param) -> Option<u64> {
    match p {
        Param::Res { key, .. } => Some(key),
        Param::ResMut { key, .. } => Some(key),
        _ => None,
    }
}

/// Whether two declarations in `list` lock table `key` in conflicting modes.
pub open spec fn conflict_on(list: Seq<Borrow>, key: u64) -> bool {
    exists|i: int, j: int|
        0 <= i < j < list.len() && conflicting(list[i], list[j]) && list[j].key == key
}

/// Whether some parameter in `ps` is missing its resource.
pub open spec fn any_missing(ps: Seq<Param>, present: Set<u64>) -> bool {
    exists|i: int| 0 <= i < ps.len() && missing(#[trigger] ps[i], present)
}

/// A required resource parameter whose resource was never added makes the
/// parameter list unrunnable (the run aborts), while the same parameter marked
/// optional is never the cause: it is constructed empty instead.
pub proof fn lemma_absent_resource(ps: Seq<Param>, i: int, key: u64, present: Set<u64>)
    requires
        0 <= i < ps.len(),
        resource_key(ps[i]) == Some(key),
        !present.contains(key),
    ensures
        (ps[i] matches Param::Res { optional: false, .. }) ==> any_missing(ps, present),
        (ps[i] matches Param::ResMut { optional: false, .. }) ==> any_missing(ps, present),
        (ps[i] matches Param::Res { optional: true, .. }) ==> !missing(ps[i], present),
        (ps[i] matches Param::ResMut { optional: true, .. }) ==> !missing(ps[i], present),
{
    if missing(ps[i], present) {
        assert(any_missing(ps, present));
    }
}

impl Param {
    /// The resource borrows this parameter declares.
    pub fn resource_types(&self) -> (r: Vec<Borrow>)
        ensures
            r@ == param_resource_types(*self),
    {
        match self {
            Param::Res { key, .. } => vec![Borrow { key: *key, kind: BorrowType::Immutable }],
            Param::ResMut { key, .. } => vec![Borrow { key: *key, kind: BorrowType::Mutable }],
            _ => Vec::new(),
        }
    }

    /// The component borrows this parameter declares.
    pub fn component_types(&self) -> (r: Vec<Borrow>)
        ensures
            r@ == param_component_types(*self),
    {
        match self {
            Param::Query(list) => list.clone(),
            _ => Vec::new(),
        }
    }

    /// The type key of the resource this parameter requires, if it requires one.
    pub fn required_resource(&self) -> (r: Option<u64>)
        ensures
            r == (match *self {
                Param::Res { key, optional } => if optional {
                    None
                } else {
                    Some(key)
                },
                Param::ResMut { key, optional } => if optional {
                    None
                } else {
                    Some(key)
                },
                _ => None::<u64>,
            }),
    {
        match self {
            Param::Res { key, optional } => if *optional {
                None
            } else {
                Some(*key)
            },
            Param::ResMut { key, optional } => if *optional {
                None
            } else {
                Some(*key)
            },
            _ => None,
        }
    }
}

/// The resource borrows of a parameter list.
pub fn resource_types(params: &Vec<Param>) -> (r: Vec<Borrow>)
    ensures
        r@ == resource_types_of(params@),
{
    let mut r: Vec<Borrow> = Vec::new();
    let mut k: usize = 0;
    while k < params.len()
        invariant
            k <= params@.len(),
            r@ == resource_types_of(params@.subrange(0, k as int)),
        decreases params@.len() - k,
    {
        let more = params[k].resource_types();
        r = concat_borrows(&r, &more);
        proof {
            let s = params@.subrange(0, k + 1);
            assert(s.drop_last() == params@.subrange(0, k as int));
            assert(s.last() == params@[k as int]);
        }
        k = k + 1;
    }
    assert(params@.subrange(0, params@.len() as int) == params@);
    r
}

/// The component borrows of a parameter list.
pub fn component_types(params: &Vec<Param>) -> (r: Vec<Borrow>)
    ensures
        r@ == component_types_of(params@),
{
    let mut r: Vec<Borrow> = Vec::new();
    let mut k: usize = 0;
    while k < params.len()
        invariant
            k <= params@.len(),
            r@ == component_types_of(params@.subrange(0, k as int)),
        decreases params@.len() - k,
    {
        let more = params[k].component_types();
        r = concat_borrows(&r, &more);
        proof {
            let s = params@.subrange(0, k + 1);
            assert(s.drop_last() == params@.subrange(0, k as int));
            assert(s.last() == params@[k as int]);
        }
        k = k + 1;
    }
    assert(params@.subrange(0, params@.len() as int) == params@);
    r
}

/// Decides whether a system with these parameters can run, given the type
/// keys of the resources that are present. A required resource that is
/// absent aborts the run; optional ones never do. Otherwise two parameters
/// that lock one table in conflicting modes abort it (such locks would
/// contend).
pub fn plan_run(params: &Vec<Param>, present: &Vec<u64>) -> (r: Result<(), RunError>)
    ensures
        r is Ok <==> !any_missing(params@, present@.to_set()) && !has_conflict(
            resource_types_of(params@),
        ) && !has_conflict(component_types_of(params@)),
        any_missing(params@, present@.to_set()) <==> r matches Err(RunError::MissingResource(_)),
        r matches Err(RunError::MissingResource(key)) ==> exists|i: int|
            0 <= i < params@.len() && missing(#[trigger] params@[i], present@.to_set())
                && resource_key(params@[i]) == Some(key),
        r matches Err(RunError::Conflict(key)) ==> conflict_on(resource_types_of(params@), key)
            || conflict_on(component_types_of(params@), key),
{
    let mut k: usize = 0;
    while k < params.len()
        invariant
            k <= params@.len(),
            forall|i: int| 0 <= i < k ==> !missing(#[trigger] params@[i], present@.to_set()),
        decreases params@.len() - k,
    {
        match params[k].required_resource() {
            Some(key) => {
                if !contains_key(present, key) {
                    return Err(RunError::MissingResource(key));
                }
            },
            None => {},
        }
        k = k + 1;
    }
    let res = resource_types(params);
    match find_conflict(&res) {
        Some(key) => {
            return Err(RunError::Conflict(key));
        },
        None => {},
    }
    let comp = component_types(params);
    match find_conflict(&comp) {
        Some(key) => Err(RunError::Conflict(key)),
        None => Ok(()),
    }
}

/// Whether `key` occurs in `keys`.
fn contains_key(keys: &Vec<u64>, key: u64) -> (r: bool)
    ensures
        r == keys@.contains(key),
{
    let mut k: usize = 0;
    while k < keys.len()
        invariant
            k <= keys@.len(),
            forall|i: int| 0 <= i < k ==> keys@[i] != key,
        decreases keys@.len() - k,
    {
        if keys[k] == key {
            return true;
        }
        k = k + 1;
    }
    false
}

/// A user function together with its declared parameter list.
pub struct SystemWrapper<F> {
    func: F,
    params: Vec<Param>,
}

impl<F> SystemWrapper<F> {
    pub closed spec fn params(self) -> Seq<Param> {
        self.params@
    }

    pub closed spec fn function(self) -> F {
        self.func
    }

    /// The wrapped function.
    pub fn func(&self) -> (r: &F)
        ensures
            *r == self.function(),
    {
        &self.func
    }

    /// The wrapped function, for calling it.
    pub fn func_mut(&mut self) -> (r: &mut F)
        ensures
            *r == old(self).function(),
            final(self).function() == *final(r),
            final(self).params() == old(self).params(),
    {
        &mut self.func
    }

    pub fn new(func: F, params: Vec<Param>) -> (r: SystemWrapper<F>)
        ensures
            r.function() == func,
            r.params() == params@,
    {
        SystemWrapper { func, params }
    }

    /// Every resource borrow the parameter list declares.
    pub fn get_resource_types(&self) -> (r: Vec<Borrow>)
        ensures
            r@ == resource_types_of(self.params()),
    {
        resource_types(&self.params)
    }

    /// Every component borrow the parameter list declares.
    pub fn get_component_types(&self) -> (r: Vec<Borrow>)
        ensures
            r@ == component_types_of(self.params()),
    {
        component_types(&self.params)
    }

    /// Whether a run can proceed given the resources present (see `plan_run`).
    pub fn plan(&self, present: &Vec<u64>) -> (r: Result<(), RunError>)
        ensures
            r is Ok <==> !any_missing(self.params(), present@.to_set()) && !has_conflict(
                resource_types_of(self.params()),
            ) && !has_conflict(component_types_of(self.params())),
            any_missing(self.params(), present@.to_set()) ==> r matches Err(
                RunError::MissingResource(_),
            ),
    {
        plan_run(&self.params, present)
    }
}

/// Systems in registration order; a run of the set runs each once, in that
/// order.
pub struct SystemSet<F> {
    systems: Vec<SystemWrapper<F>>,
}

impl<F> SystemSet<F> {
    pub closed spec fn view(self) -> Seq<SystemWrapper<F>> {
        self.systems@
    }

    pub fn new() -> (r: SystemSet<F>)
        ensures
            r@ == Seq::<SystemWrapper<F>>::empty(),
    {
        SystemSet { systems: Vec::new() }
    }

    /// Appends `system`; it runs after every system registered before it.
    pub fn register_system(&mut self, system: SystemWrapper<F>)
        ensures
            final(self)@ == old(self)@.push(system),
    {
        self.systems.push(system);
    }

    /// The number of registered systems.
    pub fn len(&self) -> (r: usize)
        ensures
            r == self@.len(),
    {
        self.systems.len()
    }

    /// The system registered `i`-th, for running it.
    pub fn system_mut(&mut self, i: usize) -> (r: &mut SystemWrapper<F>)
        requires
            i < old(self)@.len(),
        ensures
            *r == old(self)@[i as int],
            final(self)@ == old(self)@.update(i as int, *final(r)),
    {
        &mut self.systems[i]
    }
}

} // verus!
