//! The chain of composite types: one layer per declared effect, each wrapping
//! the layer before it and one more handler.

use vstd::prelude::*;
use vstd::string::*;
use crate::lette::{label, labels, lemma_labels_distinct, take_labels};
use crate::parse::{is_identifier, is_name_char, views, Args, EffectView, Path};

verus! {

/// A generic parameter with its bound: `A: Printer`.
#[derive(Debug, PartialEq, Eq)]
pub struct Bound {
    pub letter: String,
    pub bound: Path,
}

pub struct BoundView {
    pub letter: Seq<char>,
    pub bound: Seq<Seq<char>>,
}

impl View for Bound {
    type V = BoundView;

    open spec fn view(&self) -> BoundView {
        BoundView { letter: self.letter@, bound: self.bound@ }
    }
}

impl Clone for Bound {
    fn clone(&self) -> (out: Self)
        ensures
            out@ == self@,
    {
        Bound { letter: self.letter.clone(), bound: self.bound.clone() }
    }
}

/// A type by name, instantiated with labels: `ProgWithPrinter<A,>`, or a bare
/// name where `arguments` is empty.
#[derive(Debug, PartialEq, Eq)]
pub struct TypeExpr {
    pub name: String,
    pub arguments: Vec<String>,
}

pub struct TypeExprView {
    pub name: Seq<char>,
    pub arguments: Seq<Seq<char>>,
}

impl View for TypeExpr {
    type V = TypeExprView;

    open spec fn view(&self) -> TypeExprView {
        TypeExprView { name: self.name@, arguments: views(self.arguments@) }
    }
}

impl Clone for TypeExpr {
    fn clone(&self) -> (out: Self)
        ensures
            out@ == self@,
    {
        let out = TypeExpr { name: self.name.clone(), arguments: self.arguments.clone() };
        assert(out@.arguments =~= self@.arguments);
        out
    }
}

/// The definition of one layer: a pair of the composite so far and the
/// newest handler, `struct name<generics>(previous, handler);`.
#[derive(Debug, PartialEq, Eq)]
pub struct StructDef {
    pub name: String,
    pub generics: Vec<Bound>,
    pub previous: TypeExpr,
    pub handler: String,
}

pub struct StructDefView {
    pub name: Seq<char>,
    pub generics: Seq<BoundView>,
    pub previous: TypeExprView,
    pub handler: Seq<char>,
}

impl View for StructDef {
    type V = StructDefView;

    open spec fn view(&self) -> StructDefView {
        StructDefView {
            name: self.name@,
            generics: views(self.generics@),
            previous: self.previous@,
            handler: self.handler@,
        }
    }
}

/// One layer of the chain: the composite after its effect and all earlier
/// ones are attached.
#[derive(Debug, PartialEq, Eq)]
pub struct IntermediateStruct {
    pub tokens: StructDef,
    pub id: String,
    /// The interfaces attached so far, oldest first.
    pub traits: Vec<Path>,
    /// One label per attached interface.
    pub letters: Vec<String>,
    /// `letters` and `traits` paired up.
    pub generics: Vec<Bound>,
}

pub struct IntermediateStructView {
    pub tokens: StructDefView,
    pub id: Seq<char>,
    pub traits: Seq<Seq<Seq<char>>>,
    pub letters: Seq<Seq<char>>,
    pub generics: Seq<BoundView>,
}

impl View for IntermediateStruct {
    type V = IntermediateStructView;

    open spec fn view(&self) -> IntermediateStructView {
        IntermediateStructView {
            tokens: self.tokens@,
            id: self.id@,
            traits: views(self.traits@),
            letters: views(self.letters@),
            generics: views(self.generics@),
        }
    }
}

impl IntermediateStruct {
    pub fn new(
        tokens: StructDef,
        id: String,
        traits: Vec<Path>,
        letters: Vec<String>,
        generics: Vec<Bound>,
    ) -> (out: Self)
        ensures
            out.tokens == tokens,
            out.id == id,
            out.traits == traits,
            out.letters == letters,
            out.generics == generics,
    {
        Self { tokens, id, traits, letters, generics }
    }
}

/// What stands between the program's name and the effect names in a layer's
/// name.
pub open spec fn with_infix() -> Seq<char> {
    seq!['W', 'i', 't', 'h']
}

/// The names of the first `count` effects, written one after another.
pub open spec fn joined_names(effects: Seq<EffectView>, count: nat) -> Seq<char>
    decreases count,
{
    if count == 0 {
        Seq::empty()
    } else {
        joined_names(effects, (count - 1) as nat) + effects[count - 1].name
    }
}

/// The name of layer `i`: the program's name, `With`, and the names of
/// effects `0..=i`.
pub open spec fn layer_name(prog: Seq<char>, effects: Seq<EffectView>, i: int) -> Seq<char> {
    prog + with_infix() + joined_names(effects, (i + 1) as nat)
}

/// The interfaces of the first `count` effects.
pub open spec fn layer_traits(effects: Seq<EffectView>, count: nat) -> Seq<Seq<Seq<char>>> {
    Seq::new(count, |j: int| effects[j].path)
}

/// The generic parameters of a composite of `count` effects: slot `j` is
/// labelled `label(j)` and bound by the interface of effect `j`.
pub open spec fn layer_bounds(effects: Seq<EffectView>, count: nat) -> Seq<BoundView> {
    Seq::new(count, |j: int| BoundView { letter: label(j as nat), bound: effects[j].path })
}

/// The type of the composite once `count` effects are attached: the bare
/// program for none, else layer `count - 1` with all its labels.
pub open spec fn composite_type(
    prog: Seq<char>,
    effects: Seq<EffectView>,
    count: nat,
) -> TypeExprView {
    if count == 0 {
        TypeExprView { name: prog, arguments: Seq::empty() }
    } else {
        TypeExprView { name: layer_name(prog, effects, count - 1), arguments: labels(count) }
    }
}

/// Layer `i` of the chain for `effects`.
pub open spec fn layer(prog: Seq<char>, effects: Seq<EffectView>, i: int) -> IntermediateStructView {
    IntermediateStructView {
        tokens: StructDefView {
            name: layer_name(prog, effects, i),
            generics: layer_bounds(effects, (i + 1) as nat),
            previous: composite_type(prog, effects, i as nat),
            handler: label(i as nat),
        },
        id: layer_name(prog, effects, i),
        traits: layer_traits(effects, (i + 1) as nat),
        letters: labels((i + 1) as nat),
        generics: layer_bounds(effects, (i + 1) as nat),
    }
}

/// The whole chain for `effects`: one layer per effect, in declaration order.
pub open spec fn chain(prog: Seq<char>, effects: Seq<EffectView>) -> Seq<IntermediateStructView> {
    Seq::new(effects.len(), |i: int| layer(prog, effects, i))
}

/// The shape of the chain: one layer per effect; layer `i` has `i + 1`
/// generic parameters, slot `k` labelled `label(k)` and bound by the interface
/// of effect `k`, so that every earlier slot stays nameable; no label occurs
/// twice in a layer; and each layer but the first wraps the layer before it,
/// instantiated with all that layer's labels.
pub proof fn lemma_chain_shape(prog: Seq<char>, effects: Seq<EffectView>, i: int)
    requires
        0 <= i < effects.len(),
    ensures
        chain(prog, effects).len() == effects.len(),
        chain(prog, effects)[i].generics.len() == i + 1,
        chain(prog, effects)[i].letters.len() == i + 1,
        chain(prog, effects)[i].traits.len() == i + 1,
        forall|k: int|
            0 <= k <= i ==> #[trigger] chain(prog, effects)[i].generics[k] == (BoundView {
                letter: label(k as nat),
                bound: effects[k].path,
            }),
        forall|a: int, b: int|
            0 <= a < b <= i ==> chain(prog, effects)[i].letters[a] != chain(prog, effects)[i].letters[b],
        chain(prog, effects)[i].tokens.handler == chain(prog, effects)[i].letters.last(),
        i == 0 ==> chain(prog, effects)[i].tokens.previous == (TypeExprView {
            name: prog,
            arguments: Seq::empty(),
        }),
        i > 0 ==> chain(prog, effects)[i].tokens.previous == (TypeExprView {
            name: chain(prog, effects)[i - 1].id,
            arguments: chain(prog, effects)[i - 1].letters,
        }),
{
    assert forall|a: int, b: int| 0 <= a < b <= i implies chain(prog, effects)[i].letters[a]
        != chain(prog, effects)[i].letters[b] by {
        lemma_labels_distinct(a as nat, b as nat);
    }
}

/// Joined names grow with every effect whose name is not empty.
pub proof fn lemma_joined_names_grow(effects: Seq<EffectView>, n: nat, m: nat)
    requires
        n < m <= effects.len(),
        forall|k: int| 0 <= k < effects.len() ==> (#[trigger] effects[k]).name.len() > 0,
    ensures
        joined_names(effects, n).len() < joined_names(effects, m).len(),
    decreases m,
{
    if n + 1 < m {
        lemma_joined_names_grow(effects, n, (m - 1) as nat);
    }
}

/// No two layers share a name, whatever the effects are called: a layer's
/// name holds the names of all effects attached so far, so it is longer than
/// the name of every layer before it. Effects may even share a name.
pub proof fn lemma_layer_names_distinct(prog: Seq<char>, effects: Seq<EffectView>, i: int, j: int)
    requires
        0 <= i < j < effects.len(),
        forall|k: int| 0 <= k < effects.len() ==> (#[trigger] effects[k]).name.len() > 0,
    ensures
        layer_name(prog, effects, i) != layer_name(prog, effects, j),
{
    lemma_joined_names_grow(effects, (i + 1) as nat, (j + 1) as nat);
    assert(layer_name(prog, effects, i).len() < layer_name(prog, effects, j).len());
}

/// Joined names hold name characters only, where the names do.
pub proof fn lemma_joined_names_are_name_chars(effects: Seq<EffectView>, count: nat)
    requires
        count <= effects.len(),
        forall|k: int| 0 <= k < effects.len() ==> is_identifier((#[trigger] effects[k]).name),
    ensures
        forall|c: int|
            0 <= c < joined_names(effects, count).len() ==> is_name_char(
                #[trigger] joined_names(effects, count)[c],
            ),
    decreases count,
{
    if count > 0 {
        lemma_joined_names_are_name_chars(effects, (count - 1) as nat);
        let earlier = joined_names(effects, (count - 1) as nat);
        let newest = effects[count - 1].name;
        assert(is_identifier(newest));
        assert forall|c: int| 0 <= c < joined_names(effects, count).len() implies is_name_char(
            #[trigger] joined_names(effects, count)[c],
        ) by {
            if c < earlier.len() {
                assert(joined_names(effects, count)[c] == earlier[c]);
            } else {
                assert(joined_names(effects, count)[c] == newest[c - earlier.len()]);
            }
        }
    }
}

/// Generated names are identifiers: where the program's name and the
/// effects' names are, so is the name of every layer.
pub proof fn lemma_layer_name_is_identifier(prog: Seq<char>, effects: Seq<EffectView>, i: int)
    requires
        0 <= i < effects.len(),
        is_identifier(prog),
        forall|k: int| 0 <= k < effects.len() ==> is_identifier((#[trigger] effects[k]).name),
    ensures
        is_identifier(layer_name(prog, effects, i)),
{
    let joined = joined_names(effects, (i + 1) as nat);
    let name = layer_name(prog, effects, i);
    lemma_joined_names_are_name_chars(effects, (i + 1) as nat);
    assert(name[0] == prog[0]);
    assert forall|c: int| 0 <= c < name.len() implies is_name_char(#[trigger] name[c]) by {
        if c < prog.len() {
            assert(name[c] == prog[c]);
        } else if c < prog.len() + 4 {
            assert(name[c] == with_infix()[c - prog.len()]);
        } else {
            assert(name[c] == joined[c - prog.len() - 4]);
        }
    }
}

/// Pairs labels with interfaces, position by position.
fn zip_bounds(letters: &Vec<String>, traits: &Vec<Path>) -> (out: Vec<Bound>)
    requires
        letters@.len() == traits@.len(),
    ensures
        views(out@) == Seq::new(
            traits@.len(),
            |j: int| BoundView { letter: letters@[j]@, bound: traits@[j]@ },
        ),
{
    let mut out: Vec<Bound> = Vec::new();
    let mut j: usize = 0;
    while j < traits.len()
        invariant
            j <= traits@.len(),
            letters@.len() == traits@.len(),
            out@.len() == j,
            forall|k: int|
                0 <= k < j ==> (#[trigger] out@[k])@ == (BoundView {
                    letter: letters@[k]@,
                    bound: traits@[k]@,
                }),
        decreases traits@.len() - j,
    {
        out.push(Bound { letter: letters[j].clone(), bound: traits[j].clone() });
        j += 1;
    }
    assert(views(out@) =~= Seq::new(
        traits@.len(),
        |j: int| BoundView { letter: letters@[j]@, bound: traits@[j]@ },
    ));
    out
}

/// Builds the chain of layers for the declared effects.
///
/// There is one layer per effect, in declaration order. Layer `i` carries
/// `i + 1` generic parameters, so that every earlier slot stays nameable, and
/// wraps the composite before it together with the newest handler.
pub fn intermediate_structs(args: &Args, prog_name: &str) -> (out: Vec<IntermediateStruct>)
    ensures
        views(out@) == chain(prog_name@, args@.effects),
        out@.len() == args.effects@.len(),
        forall|i: int| 0 <= i < out@.len() ==> (#[trigger] out@[i]).generics@.len() == i + 1,
{
    let ghost prog = prog_name@;
    let ghost effects = args@.effects;
    let mut structs: Vec<IntermediateStruct> = Vec::new();
    let mut name = String::from_str(prog_name);
    name.append("With");
    proof {
        reveal_strlit("With");
        assert("With"@ =~= with_infix());
        assert(name@ =~= prog + with_infix() + joined_names(effects, 0));
    }
    let mut traits: Vec<Path> = Vec::new();
    let mut i: usize = 0;
    while i < args.effects.len()
        invariant
            i <= args.effects@.len(),
            effects == args@.effects,
            prog == prog_name@,
            structs@.len() == i,
            forall|j: int| 0 <= j < i ==> (#[trigger] structs@[j])@ == layer(prog, effects, j),
            forall|j: int| 0 <= j < i ==> (#[trigger] structs@[j]).generics@.len() == j + 1,
            name@ == prog + with_infix() + joined_names(effects, i as nat),
            traits@.len() == i,
            views(traits@) == layer_traits(effects, i as nat),
        decreases args.effects@.len() - i,
    {
        let eff = &args.effects[i];
        assert(eff@ == effects[i as int]);
        name.append(eff.name.as_str());
        assert(name@ =~= layer_name(prog, effects, i as int)) by {
            assert(joined_names(effects, (i + 1) as nat) == joined_names(effects, i as nat)
                + effects[i as int].name);
        }
        let ghost earlier = traits@;
        traits.push(eff.path.clone());
        assert(views(traits@) =~= layer_traits(effects, (i + 1) as nat)) by {
            assert forall|j: int| 0 <= j < i implies views(traits@)[j] == effects[j].path by {
                assert(views(earlier)[j] == layer_traits(effects, i as nat)[j]);
            }
        }

        let letters = take_labels(traits.len());
        let generics = zip_bounds(&letters, &traits);
        assert(views(generics@) =~= layer_bounds(effects, (i + 1) as nat)) by {
            assert forall|j: int| 0 <= j < i + 1 implies traits@[j]@ == effects[j].path by {
                assert(views(traits@)[j] == layer_traits(effects, (i + 1) as nat)[j]);
            }
        }

        let id = name.clone();
        let last = if i == 0 {
            TypeExpr { name: String::from_str(prog_name), arguments: Vec::new() }
        } else {
            let previous = &structs[i - 1];
            TypeExpr { name: previous.id.clone(), arguments: previous.letters.clone() }
        };
        assert(last@ == composite_type(prog, effects, i as nat)) by {
            if i == 0 {
                assert(last@.arguments =~= Seq::empty());
            } else {
                assert(structs@[i - 1]@ == layer(prog, effects, i - 1));
                assert(last@.arguments =~= labels(i as nat));
            }
        }
        let last_letter = letters[i].clone();
        let definition = StructDef {
            name: id.clone(),
            generics: generics.clone(),
            previous: last,
            handler: last_letter,
        };
        assert(views(definition.generics@) =~= views(generics@));
        assert(generics@.len() == i + 1) by {
            assert(views(generics@).len() == layer_bounds(effects, (i + 1) as nat).len());
        }
        let traits_so_far = traits.clone();
        assert(views(traits_so_far@) =~= views(traits@));
        structs.push(IntermediateStruct::new(definition, id, traits_so_far, letters, generics));
        i += 1;
    }
    assert(views(structs@) =~= chain(prog, effects));
    structs
}

} // verus!
