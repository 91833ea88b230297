use vstd::prelude::*;

verus! {

use vstd::string::StringExecFns;
use crate::error::ComponentError;

/// The screen zone an update belongs to.
#[derive(Clone, Copy, Debug)]
pub enum Slot {
    Left,
    Right,
    Center,
}

/// One update handed to a rendering layer: where it goes, its position
/// within that zone, which producer instance it came from, and the text.
pub struct ComponentUpdate {
    pub slot: Slot,
    pub index: usize,
    pub id: usize,
    pub value: String,
}

/// What every producer offers: fallible initialization that checks the
/// environment without touching it, and a one-shot conversion into the
/// running stream state a driver then pulls text from. The conversion only
/// builds the value `stream_spec` names; every side effect (spawning,
/// counter reads) happens when a driver acts on that state, never before.
pub trait Component: Sized {
    /// The running stream state this producer converts into.
    type Stream;

    /// The stream state this producer's conversion builds.
    spec fn stream_spec(self) -> Self::Stream;

    /// Check the environment and the configuration; validation only, the
    /// producer is left as it was.
    fn init(&mut self) -> (r: Result<(), ComponentError>)
        ensures
            *final(self) == *old(self),
    ;

    /// Consume the producer and build its running stream state.
    fn stream(self) -> (s: Self::Stream)
        ensures
            s == self.stream_spec(),
    ;
}

/// The uniform way a driver obtains a stream: initialization runs first, and
/// on its failure the producer is never converted, so no stream state exists
/// that a driver could act on.
pub trait ComponentCreator: Sized {
    type Stream;

    fn create(self) -> Result<Self::Stream, ComponentError>;
}

impl<C: Component> ComponentCreator for C {
    type Stream = C::Stream;

    /// Run initialization; only on success is the producer converted, into
    /// exactly the stream state its conversion names. A failing
    /// initialization yields its error wrapped under the adapter's context,
    /// and no stream state exists that a driver could act on.
    fn create(self) -> (r: Result<C::Stream, ComponentError>)
        ensures
            r matches Ok(s) ==> s == self.stream_spec(),
            r matches Err(e) ==> (e.context@.len() >= 1 && e.context@[0]@
                == "Failed to initialize component"@),
    {
        let mut this = self;
        match this.init() {
            Ok(()) => Ok(this.stream()),
            Err(e) => Err(e.chain(String::from_str("Failed to initialize component"))),
        }
    }
}

/// Wrap an item-level stream error in the adapter's reporting context: the
/// kind is kept and "Component raised an error" becomes the outermost
/// message. A driver reports the wrapped error for the item it belongs to;
/// for the sampler that item is one cycle, and the stream goes on.
pub fn wrap_stream_error(error: ComponentError) -> (r: ComponentError)
    ensures
        r.kind == error.kind,
        r.context@.len() == error.context@.len() + 1,
        r.context@[0]@ == "Component raised an error"@,
        forall|i: int| 0 <= i < error.context@.len() ==> r.context@[i + 1] == error.context@[i],
{
    error.chain(String::from_str("Component raised an error"))
}

} // verus!
