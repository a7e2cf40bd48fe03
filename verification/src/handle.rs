//! Reference-counted asset handles. A strong handle shares ownership of
//! its numeric id through `Arc`; a weak handle never keeps the id alive
//! and reports "absent" once every strong handle is gone. Ids are
//! allocated monotonically and never reused: this registry is built once
//! per level, so reclamation is deliberately left out.

use vstd::prelude::*;
use std::marker::PhantomData;
use std::sync::Arc;
use std::sync::Weak;

verus! {

/// Holds one `std::sync::Weak<u64>`. Verus cannot declare `Weak` itself
/// (its allocator type parameter is an unstable feature), so this cell is
/// opaque and everything known about it is said by the trusted wrappers
/// below in terms of `weak_target`.
#[verifier::external_body]
pub struct WeakCell {
    w: Weak<u64>,
}

/// The id a weak reference was taken from: the value held by the
/// allocation that `Arc::downgrade` was applied to.
pub uninterp spec fn weak_target(w: WeakCell) -> u64;

/// Relies on std::sync::Arc::clone: the clone shares the same allocation,
/// so it holds the same id.
#[verifier::external_body]
fn arc_clone(a: &Arc<u64>) -> (r: Arc<u64>)
    ensures
        r == a,
{
    Arc::clone(a)
}

/// Relies on std::sync::Arc's deref: reading through the pointer yields
/// the stored id.
#[verifier::external_body]
fn arc_value(a: &Arc<u64>) -> (r: u64)
    ensures
        r == a,
{
    **a
}

/// Relies on std::sync::Arc::downgrade: the weak reference points at the
/// same allocation, so its target is the stored id.
#[verifier::external_body]
fn arc_downgrade(a: &Arc<u64>) -> (r: WeakCell)
    ensures
        weak_target(r) == a,
{
    WeakCell { w: Arc::downgrade(a) }
}

/// Relies on std::sync::Weak::clone: the clone refers to the same
/// allocation.
#[verifier::external_body]
fn weak_clone(w: &WeakCell) -> (r: WeakCell)
    ensures
        weak_target(r) == weak_target(*w),
{
    WeakCell { w: Weak::clone(&w.w) }
}

/// Relies on std::sync::Weak::upgrade: it returns the pointed-to
/// allocation while any strong reference to it remains, and `None` once
/// none does; whenever it succeeds, the value is the weak target.
#[verifier::external_body]
fn weak_upgrade(w: &WeakCell) -> (r: Option<Arc<u64>>)
    ensures
        r is Some ==> r->0 == weak_target(*w),
{
    w.w.upgrade()
}

/// A strong, reference-counted identifier for one entry of an asset
/// storage, scoped to the asset type `A`.
#[derive(Debug)]
pub struct AssetHandle<A> {
    id: Arc<u64>,
    marker: PhantomData<A>,
}

impl<A> View for AssetHandle<A> {
    type V = u64;

    closed spec fn view(&self) -> u64 {
        *self.id
    }
}

impl<A> AssetHandle<A> {
    /// The numeric id this handle stands for.
    pub fn id(&self) -> (r: u64)
        ensures
            r == self@,
    {
        arc_value(&self.id)
    }

    /// A weak reference to the same entry, which does not keep it alive.
    pub fn downgrade(&self) -> (r: WeakHandle<A>)
        ensures
            r@ == self@,
    {
        WeakHandle { id: arc_downgrade(&self.id), marker: PhantomData }
    }
}

impl<A> Clone for AssetHandle<A> {
    fn clone(&self) -> (r: Self)
        ensures
            r@ == self@,
    {
        AssetHandle { id: arc_clone(&self.id), marker: PhantomData }
    }
}

/// A non-owning reference to an asset storage entry: it upgrades to a
/// strong handle only while some strong handle to the same id remains.
pub struct WeakHandle<A> {
    id: WeakCell,
    marker: PhantomData<A>,
}

impl<A> View for WeakHandle<A> {
    type V = u64;

    closed spec fn view(&self) -> u64 {
        weak_target(self.id)
    }
}

impl<A> WeakHandle<A> {
    /// The strong handle this was taken from, or `None` once no strong
    /// handle to that id remains anywhere.
    pub fn upgrade(&self) -> (r: Option<AssetHandle<A>>)
        ensures
            r is Some ==> r->0@ == self@,
    {
        match weak_upgrade(&self.id) {
            Some(id) => Some(AssetHandle { id, marker: PhantomData }),
            None => None,
        }
    }
}

impl<A> Clone for WeakHandle<A> {
    fn clone(&self) -> (r: Self)
        ensures
            r@ == self@,
    {
        WeakHandle { id: weak_clone(&self.id), marker: PhantomData }
    }
}

/// Hands out handle ids, counting up from 1 and never reusing an id.
#[derive(Clone, Copy, Debug)]
pub struct HandleAllocator {
    highest_id: u64,
}

impl View for HandleAllocator {
    type V = u64;

    closed spec fn view(&self) -> u64 {
        self.highest_id
    }
}

impl HandleAllocator {
    pub fn new() -> (r: HandleAllocator)
        ensures
            r@ == 0,
    {
        HandleAllocator { highest_id: 0 }
    }

    /// The highest id handed out so far.
    pub fn current(&self) -> (r: u64)
        ensures
            r == self@,
    {
        self.highest_id
    }

    /// A fresh handle with the next unused id.
    pub fn allocate<A>(&mut self) -> (r: AssetHandle<A>)
        requires
            old(self)@ < u64::MAX,
        ensures
            final(self)@ == old(self)@ + 1,
            r@ == final(self)@,
    {
        self.highest_id = self.highest_id + 1;
        AssetHandle { id: Arc::new(self.highest_id), marker: PhantomData }
    }
}

} // verus!
