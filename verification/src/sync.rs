//! The lock that guards a device's state, from the `spin` crate.

use vstd::prelude::*;

verus! {

/// `spin::mutex::Mutex`, carried as an opaque value.
#[verifier::external_type_specification]
#[verifier::external_body]
#[verifier::reject_recursive_types(T)]
#[verifier::reject_recursive_types(R)]
pub struct ExMutex<T: ?Sized, R>(spin::mutex::Mutex<T, R>);

/// `spin::mutex::MutexGuard`, carried as an opaque value.
#[verifier::external_type_specification]
#[verifier::external_body]
#[verifier::reject_recursive_types(T)]
pub struct ExMutexGuard<'a, T: 'a + ?Sized>(spin::mutex::MutexGuard<'a, T>);

/// `spin::relax::Spin`, the strategy by which `spin::Mutex` waits. It
/// only appears as a parameter of the lock's type.
#[verifier::external_type_specification]
#[verifier::external_body]
pub struct ExSpin(spin::relax::Spin);

/// `spin::Mutex::new`: a lock around `value`. Nothing is claimed of the
/// lock; what it guards is seen again only through `lock`.
#[verifier::external_body]
pub(crate) fn mutex_new<T>(value: T) -> spin::Mutex<T> {
    spin::Mutex::new(value)
}

/// `spin::Mutex::lock`: spins until the lock is held, then hands out the
/// guard. Nothing is claimed of what the guard protects: other holders of
/// the lock may have changed it in any way their own code allows. A caller
/// that holds a guard of the same lock already never gets a second one, so
/// no function of this library takes a lock while it holds one.
#[verifier::external_body]
pub(crate) fn mutex_lock<'a, T>(m: &'a spin::Mutex<T>) -> spin::MutexGuard<'a, T> {
    m.lock()
}

/// `DerefMut::deref_mut` of `spin::MutexGuard`: the guarded value, for as
/// long as the guard is borrowed. Nothing is claimed of it.
#[verifier::external_body]
pub(crate) fn guard_mut<'a, 'b, T>(guard: &'b mut spin::MutexGuard<'a, T>) -> &'b mut T {
    &mut **guard
}

} // verus!
