use vstd::prelude::*;

verus! {

/// Reduces the outcome of running an external command to "it ran and succeeded".
pub trait CommandExt: Sized {
    spec fn succeeded(&self) -> bool;

    fn status_bool(&mut self) -> (r: bool)
        ensures
            r == old(self).succeeded(),
            *final(self) == *old(self),
    ;
}

/// The outcome of a command run: `None` when it could not be started, else
/// whether it exited successfully.
impl CommandExt for Option<bool> {
    open spec fn succeeded(&self) -> bool {
        *self == Some(true)
    }

    fn status_bool(&mut self) -> (r: bool) {
        match *self {
            Some(ok) => ok,
            None => false,
        }
    }
}

} // verus!
