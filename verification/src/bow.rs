//! A clone-on-write holder that is either a boxed owned value, a borrowed
//! one, or a `'static` one, so that static data can be carried without
//! copying.
use vstd::prelude::*;

verus! {

/// The owned and the `'static` counterparts of a type, and how to make an
/// owned copy of a value of it.
pub trait BowOwned {
    /// The type of the `'static` variant.
    type Static: 'static + ?Sized;

    /// The type of the owned variant.
    type Owned: Sized + 'static;

    fn to_owned(&self) -> Self::Owned;
}

/// The holder for values of `T`, with its owned and static counterparts.
pub type Bow<'a, T> = BowHolder<'a, <T as BowOwned>::Owned, T, <T as BowOwned>::Static>;

/// Either an owned value in a box, a borrowed value, or a `'static` one.
pub enum BowHolder<'a, B, T: ?Sized, S: 'static + ?Sized> {
    /// Owned data stored in a box.
    Owned(Box<B>),
    /// Borrowed data.
    Borrowed(&'a T),
    /// A static reference: no allocation, `'static` lifetime.
    Static(&'static S),
}

impl<'a, B, T: ?Sized, S: 'static + ?Sized> BowHolder<'a, B, T, S> {
    /// Holds a borrowed value.
    pub fn from_borrowed(shared: &'a T) -> (r: Self)
        ensures
            r == BowHolder::<'a, B, T, S>::Borrowed(shared),
    {
        BowHolder::Borrowed(shared)
    }

    /// Holds a static value.
    pub fn from_static(s: &'static S) -> (r: Self)
        ensures
            r == BowHolder::<'a, B, T, S>::Static(s),
    {
        BowHolder::Static(s)
    }

    /// Holds an owned value, boxed.
    pub fn from_owned(val: B) -> (r: Self)
        ensures
            r matches BowHolder::Owned(b) && *b == val,
    {
        BowHolder::Owned(Box::new(val))
    }

    /// Holds an owned value that is already boxed.
    pub fn from_box(boxed: Box<B>) -> (r: Self)
        ensures
            r == BowHolder::<'a, B, T, S>::Owned(boxed),
    {
        BowHolder::Owned(boxed)
    }

    /// Whether the value is owned.
    pub fn is_owned(&self) -> (r: bool)
        ensures
            r == self is Owned,
    {
        match self {
            BowHolder::Owned(_) => true,
            _ => false,
        }
    }

    /// Whether the value is borrowed.
    pub fn is_borrowed(&self) -> (r: bool)
        ensures
            r == self is Borrowed,
    {
        match self {
            BowHolder::Borrowed(_) => true,
            _ => false,
        }
    }

    /// Whether the value is static.
    pub fn is_static(&self) -> (r: bool)
        ensures
            r == self is Static,
    {
        match self {
            BowHolder::Static(_) => true,
            _ => false,
        }
    }
}

impl<'a, T: BowOwned + ?Sized> BowHolder<'a, T::Owned, T, T::Static> {
    /// The same value with the `'static` lifetime: owned and static values
    /// are kept as they are, a borrowed one is replaced by an owned copy.
    pub fn to_static(self) -> (r: BowHolder<'static, T::Owned, T, T::Static>) where T: 'static
        ensures
            match self {
                BowHolder::Owned(b) => r == BowHolder::<'static, T::Owned, T, T::Static>::Owned(b),
                BowHolder::Static(s) => r == BowHolder::<'static, T::Owned, T, T::Static>::Static(s),
                BowHolder::Borrowed(b) => r matches BowHolder::Owned(o) && call_ensures(
                    T::to_owned,
                    (b,),
                    *o,
                ),
            },
    {
        match self {
            BowHolder::Owned(b) => BowHolder::Owned(b),
            BowHolder::Static(s) => BowHolder::Static(s),
            BowHolder::Borrowed(b) => BowHolder::Owned(Box::new(b.to_owned())),
        }
    }
}

impl<'a, B: Clone, T: ?Sized, S: 'static + ?Sized> Clone for BowHolder<'a, B, T, S> {
    /// Borrowed and static values are shared; an owned value is cloned into
    /// a new box.
    fn clone(&self) -> (r: Self)
        ensures
            match *self {
                BowHolder::Owned(b) => r matches BowHolder::Owned(c) && cloned::<B>(*b, *c),
                BowHolder::Borrowed(t) => r == BowHolder::<'a, B, T, S>::Borrowed(t),
                BowHolder::Static(s) => r == BowHolder::<'a, B, T, S>::Static(s),
            },
    {
        match self {
            BowHolder::Borrowed(b) => BowHolder::Borrowed(b),
            BowHolder::Static(s) => BowHolder::Static(*s),
            BowHolder::Owned(o) => {
                let inner: &B = &**o;
                let c = inner.clone();
                proof {
                    assert(cloned::<B>(*inner, c));
                }
                BowHolder::Owned(Box::new(c))
            },
        }
    }
}

} // verus!
