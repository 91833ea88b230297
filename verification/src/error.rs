use vstd::prelude::*;

verus! {

/// The kind of failure a component can report.
#[derive(Clone, Copy, Debug, PartialEq, Eq, Structural)]
pub enum ErrorKind {
    /// The configuration names something the environment does not have,
    /// such as an unknown network interface.
    Configuration,
    /// An external process could not be started.
    Spawn,
    /// Reading process output or an OS counter failed.
    Io,
    /// A scheduling (timer) facility failed.
    Timer,
}

/// The single error type every component reports: a kind plus a chain of
/// context messages, newest first.
pub struct ComponentError {
    pub kind: ErrorKind,
    pub context: Vec<String>,
}

impl ComponentError {
    /// A fresh error of the given kind with one context message.
    pub fn new(kind: ErrorKind, message: String) -> (r: ComponentError)
        ensures
            r.kind == kind,
            r.context@.len() == 1,
            r.context@[0]@ == message@,
    {
        let mut context: Vec<String> = Vec::new();
        context.push(message);
        ComponentError { kind, context }
    }

    /// Wrap the error in one more layer of context; the kind and the older
    /// messages are kept, the new message becomes the outermost one.
    pub fn chain(self, message: String) -> (r: ComponentError)
        ensures
            r.kind == self.kind,
            r.context@.len() == self.context@.len() + 1,
            r.context@[0]@ == message@,
            forall|i: int| 0 <= i < self.context@.len() ==> r.context@[i + 1] == self.context@[i],
    {
        let mut context: Vec<String> = Vec::new();
        context.push(message);
        let mut rest = self.context;
        let mut i: usize = 0;
        while i < rest.len()
            invariant
                i <= rest.len(),
                context@.len() == 1 + i,
                context@[0]@ == message@,
                forall|j: int| 0 <= j < i ==> context@[j + 1] == rest@[j],
            decreases rest.len() - i,
        {
            context.push(rest[i].clone());
            i = i + 1;
        }
        ComponentError { kind: self.kind, context }
    }
}

} // verus!
