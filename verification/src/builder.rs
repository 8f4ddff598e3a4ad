//! The attachment operations: one `add` per layer, each taking the composite
//! so far and the next handler, and returning the next composite.

use vstd::prelude::*;
use vstd::string::*;
use crate::intermediate_structs::{
    chain, composite_type, layer_bounds, Bound, BoundView, IntermediateStruct,
    IntermediateStructView, TypeExpr, TypeExprView,
};
use crate::lette::label;
use crate::parse::{views, EffectView};

verus! {

/// One attachment operation:
/// `impl<generics> target { fn name<handler>(self, t) -> returns { constructor(self, t) } }`.
#[derive(Debug, PartialEq, Eq)]
pub struct AddImpl {
    /// The operation's name, the same at every layer.
    pub name: String,
    /// The generic parameters of the composite that `add` is defined on.
    pub generics: Vec<Bound>,
    /// The composite that `add` consumes.
    pub target: TypeExpr,
    /// The handler's type parameter and the interface it must satisfy.
    pub handler: Bound,
    /// The composite that `add` returns.
    pub returns: TypeExpr,
    /// The name of the layer that pairs the composite with the handler.
    pub constructor: String,
}

pub struct AddImplView {
    pub name: Seq<char>,
    pub generics: Seq<BoundView>,
    pub target: TypeExprView,
    pub handler: BoundView,
    pub returns: TypeExprView,
    pub constructor: Seq<char>,
}

impl View for AddImpl {
    type V = AddImplView;

    open spec fn view(&self) -> AddImplView {
        AddImplView {
            name: self.name@,
            generics: views(self.generics@),
            target: self.target@,
            handler: self.handler@,
            returns: self.returns@,
            constructor: self.constructor@,
        }
    }
}

/// The name of every attachment operation.
pub open spec fn add_name() -> Seq<char> {
    seq!['a', 'd', 'd']
}

/// The attachment operation that leads to layer `i`. It is defined on the
/// layer before it, or on the bare program for the first, and its handler is
/// bound by the newest interface of layer `i`.
pub open spec fn add_impl(prog: Seq<char>, layers: Seq<IntermediateStructView>, i: int) -> AddImplView {
    AddImplView {
        name: add_name(),
        generics: if i == 0 {
            Seq::empty()
        } else {
            layers[i - 1].generics
        },
        target: if i == 0 {
            TypeExprView { name: prog, arguments: Seq::empty() }
        } else {
            TypeExprView { name: layers[i - 1].id, arguments: layers[i - 1].letters }
        },
        handler: BoundView { letter: layers[i].letters.last(), bound: layers[i].traits.last() },
        returns: TypeExprView { name: layers[i].id, arguments: layers[i].letters },
        constructor: layers[i].id,
    }
}

/// All attachment operations for `layers`, in order.
pub open spec fn add_impls(prog: Seq<char>, layers: Seq<IntermediateStructView>) -> Seq<AddImplView> {
    Seq::new(layers.len(), |i: int| add_impl(prog, layers, i))
}

/// Synthesizes one `add` per layer. Every layer must name at least one
/// interface and one label.
pub fn impls(prog_name: &str, intermediate_structs: &Vec<IntermediateStruct>) -> (out: Vec<AddImpl>)
    requires
        forall|i: int|
            0 <= i < intermediate_structs@.len() ==> (#[trigger] intermediate_structs@[i]).traits@.len()
                > 0 && intermediate_structs@[i].letters@.len() > 0,
    ensures
        views(out@) == add_impls(prog_name@, views(intermediate_structs@)),
{
    let ghost layers = views(intermediate_structs@);
    let mut impls: Vec<AddImpl> = Vec::new();
    let mut id = TypeExpr { name: String::from_str(prog_name), arguments: Vec::new() };
    let mut impl_generics: Vec<Bound> = Vec::new();
    assert(id@.arguments =~= Seq::empty());
    assert(views(impl_generics@) =~= Seq::empty());
    let mut i: usize = 0;
    while i < intermediate_structs.len()
        invariant
            i <= intermediate_structs@.len(),
            layers == views(intermediate_structs@),
            impls@.len() == i,
            forall|j: int|
                0 <= j < intermediate_structs@.len() ==> (#[trigger] intermediate_structs@[j]).traits@.len()
                    > 0 && intermediate_structs@[j].letters@.len() > 0,
            forall|j: int| 0 <= j < i ==> (#[trigger] impls@[j])@ == add_impl(prog_name@, layers, j),
            id@ == add_impl(prog_name@, layers, i as int).target,
            views(impl_generics@) == add_impl(prog_name@, layers, i as int).generics,
        decreases intermediate_structs@.len() - i,
    {
        let inter = &intermediate_structs[i];
        assert(inter@ == layers[i as int]);
        let ret = TypeExpr { name: inter.id.clone(), arguments: inter.letters.clone() };
        assert(ret@.arguments =~= inter@.letters);

        let t = inter.traits[inter.traits.len() - 1].clone();
        let l = inter.letters[inter.letters.len() - 1].clone();
        assert(t@ == inter@.traits.last());
        assert(l@ == inter@.letters.last());

        let name = String::from_str("add");
        proof {
            reveal_strlit("add");
            assert(name@ =~= add_name());
        }
        let next_generics = inter.generics.clone();
        assert(views(next_generics@) =~= inter@.generics);
        impls.push(
            AddImpl {
                name,
                generics: impl_generics,
                target: id,
                handler: Bound { letter: l, bound: t },
                returns: ret.clone(),
                constructor: inter.id.clone(),
            },
        );
        id = ret;
        impl_generics = next_generics;
        i += 1;
    }
    assert(views(impls@) =~= add_impls(prog_name@, layers));
    impls
}

/// Attachment follows declaration: over the chain built for `effects`, the
/// `add` at position `i` is defined on the composite of the first `i`
/// effects, accepts only a handler bound by the interface of effect `i`, and
/// returns the composite of the first `i + 1` effects. So the only way to the
/// last layer attaches one handler per effect, in declaration order.
pub proof fn lemma_attachment_follows_declaration(prog: Seq<char>, effects: Seq<EffectView>, i: int)
    requires
        0 <= i < effects.len(),
    ensures
        add_impl(prog, chain(prog, effects), i).name == add_name(),
        add_impl(prog, chain(prog, effects), i).handler == (BoundView {
            letter: label(i as nat),
            bound: effects[i].path,
        }),
        add_impl(prog, chain(prog, effects), i).target == composite_type(prog, effects, i as nat),
        add_impl(prog, chain(prog, effects), i).returns == composite_type(
            prog,
            effects,
            (i + 1) as nat,
        ),
        add_impl(prog, chain(prog, effects), i).generics == layer_bounds(effects, i as nat),
        i + 1 < effects.len() ==> add_impl(prog, chain(prog, effects), i + 1).target == add_impl(
            prog,
            chain(prog, effects),
            i,
        ).returns,
{
    let layers = chain(prog, effects);
    assert(add_impl(prog, layers, i).generics =~= layer_bounds(effects, i as nat));
}

/// Out of order, a handler is refused: the `add` at position `stage` does
/// not accept a handler for an effect whose interface is another than that
/// of effect `stage`.
pub proof fn lemma_out_of_order_attachment_is_refused(
    prog: Seq<char>,
    effects: Seq<EffectView>,
    stage: int,
    other: int,
)
    requires
        0 <= stage < effects.len(),
        0 <= other < effects.len(),
        effects[other].path != effects[stage].path,
    ensures
        add_impl(prog, chain(prog, effects), stage).handler.bound != effects[other].path,
{
    lemma_attachment_follows_declaration(prog, effects, stage);
}

} // verus!
