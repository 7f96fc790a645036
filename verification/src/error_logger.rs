use vstd::prelude::*;

verus! {

/// Observation of the error inside a result: the callback sees the error,
/// the result itself comes back unchanged.
pub trait InspectErr<Error> where Self: Sized {
    fn inspect_error<F: FnOnce(&Error)>(self, f: F) -> (r: Self)
        requires
            forall|e: &Error| call_requires(f, (e,)),
        ensures
            r == self,
    ;
}

impl<T, Error> InspectErr<Error> for Result<T, Error> {
    fn inspect_error<F: FnOnce(&Error)>(self, f: F) -> (r: Self) {
        match &self {
            Err(err) => {
                f(err);
            },
            Ok(_) => {
            },
        }
        self
    }
}

} // verus!
