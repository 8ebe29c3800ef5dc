//! Resources: at most one value per type, independent of any entity.
use vstd::prelude::*;

verus! {

/// A type that can be held as a resource.
pub trait Resource {

}

/// Why a system run cannot proceed.
#[derive(Clone, Copy, Debug, PartialEq, Eq, Structural)]
pub enum RunError {
    /// A required (non-optional) resource parameter names a type that has no value.
    MissingResource(u64),
    /// Two parameters lock one table in conflicting modes.
    Conflict(u64),
}

/// The resource of one type: empty, or one value.
pub struct ResourceCell<R> {
    value: Option<R>,
}

/// Shared access to a resource for one system run.
pub struct Res<'a, R> {
    inner: &'a R,
}

/// Exclusive access to a resource for one system run.
pub struct ResMut<'a, R> {
    pub inner: &'a mut R,
}

impl<R> ResourceCell<R> {
    pub closed spec fn view(self) -> Option<R> {
        self.value
    }

    pub fn new() -> (r: ResourceCell<R>)
        ensures
            r@ is None,
    {
        ResourceCell { value: None }
    }

    /// Sets the resource, returning the value it replaces.
    pub fn insert(&mut self, value: R) -> (r: Option<R>)
        ensures
            final(self)@ == Some(value),
            r == old(self)@,
    {
        let prev = self.value.take();
        self.value = Some(value);
        prev
    }

    /// Takes the resource out, leaving the cell empty.
    pub fn remove(&mut self) -> (r: Option<R>)
        ensures
            final(self)@ is None,
            r == old(self)@,
    {
        self.value.take()
    }

    /// Whether the cell holds a value.
    pub fn is_present(&self) -> (r: bool)
        ensures
            r == self@ is Some,
    {
        self.value.is_some()
    }

    /// Shared access for a required parameter: the run aborts with
    /// `MissingResource(key)` when the cell is empty.
    pub fn lock(&self, key: u64) -> (r: Result<Res<'_, R>, RunError>)
        ensures
            r is Ok <==> self@ is Some,
            self@ is None <==> r == Err::<Res<'_, R>, RunError>(RunError::MissingResource(key)),
            r matches Ok(res) ==> Some(res@) == self@,
    {
        match &self.value {
            Some(v) => Ok(Res { inner: v }),
            None => Err(RunError::MissingResource(key)),
        }
    }

    /// Shared access for an optional parameter: never fails, empty when the
    /// cell is empty.
    pub fn lock_optional(&self) -> (r: Option<Res<'_, R>>)
        ensures
            r is Some == self@ is Some,
            r matches Some(res) ==> Some(res@) == self@,
    {
        match &self.value {
            Some(v) => Some(Res { inner: v }),
            None => None,
        }
    }

    /// Exclusive access for a required parameter: the run aborts with
    /// `MissingResource(key)` when the cell is empty.
    pub fn lock_mut(&mut self, key: u64) -> (r: Result<ResMut<'_, R>, RunError>)
        ensures
            r is Ok <==> old(self)@ is Some,
            r matches Err(err) ==> err == RunError::MissingResource(key)
                && final(self)@ == old(self)@,
            r matches Ok(res) ==> Some(res@) == old(self)@ && final(self)@ == Some(*final(res.inner)),
    {
        match &mut self.value {
            Some(v) => Ok(ResMut { inner: v }),
            None => Err(RunError::MissingResource(key)),
        }
    }

    /// Exclusive access for an optional parameter: never fails, empty when
    /// the cell is empty.
    pub fn lock_optional_mut(&mut self) -> (r: Option<ResMut<'_, R>>)
        ensures
            r is Some == old(self)@ is Some,
            r is None ==> final(self)@ == old(self)@,
            r matches Some(res) ==> Some(res@) == old(self)@ && final(self)@ == Some(*final(res.inner)),
    {
        match &mut self.value {
            Some(v) => Some(ResMut { inner: v }),
            None => None,
        }
    }
}

impl<'a, R> Res<'a, R> {
    pub closed spec fn view(self) -> R {
        *self.inner
    }

    /// The resource.
    pub fn get(&self) -> (r: &R)
        ensures
            *r == self@,
    {
        self.inner
    }
}

impl<'a, R> ResMut<'a, R> {
    pub closed spec fn view(self) -> R {
        *self.inner
    }

    /// The resource.
    pub fn get(&self) -> (r: &R)
        ensures
            *r == self@,
    {
        self.inner
    }

    /// The resource, for writing.
    pub fn get_mut(&mut self) -> (r: &mut R)
        ensures
            *r == old(self)@,
            final(self)@ == *final(r),
            *final(final(self).inner) == *final(old(self).inner),
    {
        self.inner
    }
}

} // verus!
