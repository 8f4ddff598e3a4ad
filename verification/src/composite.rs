//! The composite at run time, as a model: a nest of pairs, each holding the
//! composite before it and one handler.

use vstd::prelude::*;
use crate::parse::{EffectView, SelfAccess};
use crate::rewrite::{access_path, is_first_match, lemma_resolve_first_match, resolve, Step};

verus! {

/// A composite of handlers. Attaching wraps the composite so far and the new
/// handler in one more pair, so the chain is linear and never shared.
pub enum Composite<H> {
    /// The bare program: no handler attached, no state.
    Root,
    /// The composite before, and the handler attached last.
    Layer(Box<Composite<H>>, H),
}

/// Attaches `handler` to `composite`.
pub open spec fn attach<H>(composite: Composite<H>, handler: H) -> Composite<H> {
    Composite::Layer(Box::new(composite), handler)
}

/// The composite after attaching `handlers` to the bare program, first to
/// last.
pub open spec fn saturated<H>(handlers: Seq<H>) -> Composite<H>
    decreases handlers.len(),
{
    if handlers.len() == 0 {
        Composite::Root
    } else {
        attach(saturated(handlers.drop_last()), handlers.last())
    }
}

/// Follows `steps` into `composite`. The way must end with the step to a
/// handler, and only there.
pub open spec fn project<H>(composite: Composite<H>, steps: Seq<Step>) -> Option<H>
    decreases steps.len(),
{
    if steps.len() == 0 {
        None
    } else {
        match composite {
            Composite::Root => None,
            Composite::Layer(previous, handler) => match steps[0] {
                Step::Previous => project(*previous, steps.drop_first()),
                Step::Handler => if steps.len() == 1 {
                    Some(handler)
                } else {
                    None
                },
            },
        }
    }
}

/// Receiver addressing: in the composite of all handlers, attached in
/// declaration order, the access path of effect `index` leads to the handler
/// that was attached for that effect.
pub proof fn lemma_access_path_reaches_handler<H>(handlers: Seq<H>, index: int)
    requires
        0 <= index < handlers.len(),
    ensures
        project(saturated(handlers), access_path(handlers.len(), index as nat)) == Some(
            handlers[index],
        ),
    decreases handlers.len(),
{
    let total = handlers.len();
    let steps = access_path(total, index as nat);
    if index == total - 1 {
        assert(steps.len() == 1);
        assert(steps[0] == Step::Handler);
    } else {
        assert(steps[0] == Step::Previous);
        assert(steps.drop_first() =~= access_path((total - 1) as nat, index as nat));
        lemma_access_path_reaches_handler(handlers.drop_last(), index);
        assert(handlers.drop_last()[index] == handlers[index]);
    }
}

/// A rewritten call reaches its handler: where one handler per effect is
/// attached in declaration order, the receiver of a call that is served by an
/// operation of effect `i` is the handler attached for effect `i`.
pub proof fn lemma_call_reaches_its_handler<H>(
    effects: Seq<EffectView>,
    callee: Seq<char>,
    i: int,
    f: int,
    handlers: Seq<H>,
)
    requires
        is_first_match(effects, callee, i, f),
        effects[i].functions[f].self_reference != SelfAccess::NoReceiver,
        handlers.len() == effects.len(),
    ensures
        resolve(effects, callee) matches Some(rewrite) && rewrite.receiver matches Some(receiver)
            && project(saturated(handlers), receiver.steps) == Some(handlers[i]),
{
    lemma_resolve_first_match(effects, callee, i, f);
    lemma_access_path_reaches_handler(handlers, i);
}

/// The access path of effect `index` among `total`: `total - index - 1`
/// steps into the composite before, then the one step to the handler.
pub proof fn lemma_access_path_shape(total: nat, index: nat)
    requires
        index < total,
    ensures
        access_path(total, index).len() == total - index,
        forall|k: int| 0 <= k < total - index - 1 ==> access_path(total, index)[k] == Step::Previous,
        access_path(total, index).last() == Step::Handler,
{
}

} // verus!
