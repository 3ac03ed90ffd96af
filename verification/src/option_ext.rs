//! Running a closure on the content of an `Option`, when there is one.
use vstd::prelude::*;

verus! {

pub trait OptionExt<T>: Sized {
    spec fn content(&self) -> Option<T>;

    /// Runs `f` on the content, if there is one; says whether it ran.
    fn with_some<F: FnOnce(T)>(self, f: F) -> (ran: bool)
        requires
            self.content() matches Some(t) ==> call_requires(f, (t,)),
        ensures
            ran == self.content() is Some,
            self.content() matches Some(t) ==> call_ensures(f, (t,), ()),
    ;

    /// Runs `f` on a reference to the content, if there is one; says
    /// whether it ran.
    fn with_some_ref<F: FnOnce(&T)>(&self, f: F) -> (ran: bool)
        requires
            self.content() matches Some(t) ==> call_requires(f, (&t,)),
        ensures
            ran == self.content() is Some,
            self.content() matches Some(t) ==> call_ensures(f, (&t,), ()),
    ;

    /// Runs `f` on a mutable reference to the content, if there is one,
    /// which then holds what `f` left there; says whether it ran.
    fn with_some_mut<F: FnOnce(&mut T)>(&mut self, f: F) -> (ran: bool)
        requires
            old(self).content() matches Some(t) ==> forall|r: &mut T| *r == t ==> call_requires(f, (r,)),
        ensures
            ran == old(self).content() is Some,
            old(self).content() is None ==> final(self).content() is None,
            old(self).content() matches Some(t) ==> exists|r: &mut T|
                *r == t && call_ensures(f, (r,), ()) && final(self).content() == Some(*final(r)),
    ;
}

impl<T> OptionExt<T> for Option<T> {
    open spec fn content(&self) -> Option<T> {
        *self
    }

    fn with_some<F: FnOnce(T)>(self, f: F) -> (ran: bool) {
        match self {
            None => false,
            Some(t) => {
                f(t);
                true
            },
        }
    }

    fn with_some_ref<F: FnOnce(&T)>(&self, f: F) -> (ran: bool) {
        match self {
            None => false,
            Some(t) => {
                f(t);
                true
            },
        }
    }

    fn with_some_mut<F: FnOnce(&mut T)>(&mut self, f: F) -> (ran: bool) {
        match self {
            None => false,
            Some(t) => {
                f(t);
                true
            },
        }
    }
}

} // verus!
