//! A dispatcher initialized after the Tauri plugin is registered.

use std::sync::{Arc, OnceLock};
use vstd::prelude::*;

verus! {

/// [`std::sync::OnceLock`], a cell that is written at most once. What it holds at
/// a moment depends on what every handle on it has done, so a value of this type
/// stands for the cell alone, not for its contents.
#[verifier::external_type_specification]
#[verifier::external_body]
#[verifier::reject_recursive_types(D)]
pub struct ExOnceLock<D>(std::sync::OnceLock<D>);

/// [`OnceLock::new`] creates a cell of its own, with nothing in it. No clause says so:
/// a cell's contents are not part of its value, and a clause cannot speak of the cells
/// that other calls have made.
pub assume_specification<D>[ std::sync::OnceLock::<D>::new ]() -> (r: std::sync::OnceLock<D>)
;

/// [`OnceLock::set`] hands back the very value that it does not store. Whether it
/// stores it depends on whether the cell has been written by then.
pub assume_specification<D>[ std::sync::OnceLock::<D>::set ](
    cell: &std::sync::OnceLock<D>,
    value: D,
) -> (r: Result<(), D>)
    ensures
        r matches Err(back) ==> back == value,
;

/// [`OnceLock::get`] hands out what the cell holds by then, if anything.
pub assume_specification<D>[ std::sync::OnceLock::<D>::get ](
    cell: &std::sync::OnceLock<D>,
) -> (r: Option<&D>)
;

/// Calls [`Arc::ptr_eq`]: whether two handles share one allocation. A cell lies in
/// one allocation, so they do exactly if they are handles on the same cell.
#[verifier::external_body]
fn same_cell<D>(a: &Arc<OnceLock<D>>, b: &Arc<OnceLock<D>>) -> (r: bool)
    ensures
        r == (*a == *b),
{
    Arc::ptr_eq(a, b)
}

/// A ConnectRPC dispatcher that can be initialized exactly once.
///
/// Tauri requires plugins that register URI schemes to be attached to the
/// builder, but application services may depend on state created later in the
/// app setup hook. Clone this dispatcher into the plugin's service, then set
/// the real dispatcher during setup.
///
/// Calls made before initialization are reported as unimplemented.
#[verifier::reject_recursive_types(D)]
pub struct DeferredDispatcher<D> {
    /// Shared one-time initialization cell used by every clone.
    inner: Arc<OnceLock<D>>,
}

impl<D> DeferredDispatcher<D> {
    /// The cell that every clone shares.
    pub closed spec fn cell(self) -> OnceLock<D> {
        *self.inner
    }

    /// Whether both are handles on the same cell.
    pub open spec fn same(self, other: Self) -> bool {
        self.cell() == other.cell()
    }

    /// Creates an uninitialized dispatcher, around a cell of its own. That the cell is
    /// empty, and no other handle's, is left to [`OnceLock::new`].
    #[must_use]
    pub fn new() -> (r: Self)
        ensures
            call_ensures(OnceLock::<D>::new, (), r.cell()),
    {
        DeferredDispatcher { inner: Arc::new(OnceLock::new()) }
    }

    /// Sets the dispatcher used for all subsequent calls.
    ///
    /// Returns `dispatcher` unchanged if this instance was already initialized.
    /// Whether it was depends on every handle on it: the outcome is the one that
    /// setting the shared cell has.
    pub fn set(&self, dispatcher: D) -> (r: Result<(), D>)
        ensures
            call_ensures(OnceLock::<D>::set, (&self.cell(), dispatcher), r),
            r matches Err(back) ==> back == dispatcher,
    {
        self.inner.set(dispatcher)
    }

    /// The dispatcher that was set, if one was: what the shared cell holds.
    pub fn get(&self) -> (r: Option<&D>)
        ensures
            call_ensures(OnceLock::<D>::get, (&self.cell(),), r),
    {
        self.inner.get()
    }

    /// Returns `true` when both handles refer to the same deferred dispatcher.
    #[must_use]
    pub fn same_dispatcher(&self, other: &Self) -> (r: bool)
        ensures
            r == self.same(*other),
            r == (self.cell() == other.cell()),
    {
        same_cell(&self.inner, &other.inner)
    }
}

impl<D> Clone for DeferredDispatcher<D> {
    /// A second handle on the same deferred dispatcher.
    fn clone(&self) -> (r: Self)
        ensures
            r == *self,
            r.same(*self),
    {
        DeferredDispatcher { inner: Arc::clone(&self.inner) }
    }
}

impl<D> Default for DeferredDispatcher<D> {
    fn default() -> (r: Self)
        ensures
            call_ensures(OnceLock::<D>::new, (), r.cell()),
    {
        Self::new()
    }
}

/// Being the same deferred dispatcher is an equivalence: every handle is the same as
/// itself, whichever of two is asked, and two that are the same as a third are the
/// same as each other.
pub proof fn being_the_same_is_an_equivalence<D>(
    a: DeferredDispatcher<D>,
    b: DeferredDispatcher<D>,
    c: DeferredDispatcher<D>,
)
    ensures
        a.same(a),
        a.same(b) == b.same(a),
        a.same(b) && b.same(c) ==> a.same(c),
{
}

/// Two handles are the same deferred dispatcher exactly if they are handles on one cell.
pub proof fn one_cell_makes_one_dispatcher<D>(a: DeferredDispatcher<D>, b: DeferredDispatcher<D>)
    ensures
        a.same(b) <==> a.cell() == b.cell(),
        a.same(b) <==> a == b,
{
}

} // verus!
