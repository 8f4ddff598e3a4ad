//! Planning of effect-composition programs.
//!
//! A function written against abstract effect operations is turned into a
//! chain of composite program types, one per declared effect, a uniform `add`
//! operation linking each type to the next, and a `run` operation in which
//! every effect call is addressed to the handler that serves it.

pub mod builder;
pub mod composite;
pub mod intermediate_structs;
pub mod lette;
pub mod parse;
pub mod rewrite;
pub mod spelling;
pub mod syntax;

use convert_case::{Case, Casing};
use vstd::prelude::*;
use vstd::string::*;
use crate::builder::{add_impls, impls, AddImpl, AddImplView};
use crate::intermediate_structs::{
    chain, composite_type, intermediate_structs, Bound, BoundView, IntermediateStruct,
    IntermediateStructView, TypeExpr, TypeExprView,
};
use crate::parse::{views, Args, ArgsView, EffectView, MalformedDeclaration};
use crate::rewrite::{rewrite_func, run_method, RunMethod, RunMethodView};
use crate::syntax::{declaration_of, ParseError};

verus! {

/// The implementation block of the last layer, which houses `run`:
/// `impl<generics> target { run }`.
#[derive(Debug, PartialEq, Eq)]
pub struct FinalImpl {
    pub generics: Vec<Bound>,
    pub target: TypeExpr,
    pub run: RunMethod,
}

pub struct FinalImplView {
    pub generics: Seq<BoundView>,
    pub target: TypeExprView,
    pub run: RunMethodView,
}

impl View for FinalImpl {
    type V = FinalImplView;

    open spec fn view(&self) -> FinalImplView {
        FinalImplView { generics: views(self.generics@), target: self.target@, run: self.run@ }
    }
}

/// Everything that is generated for one function, in the order in which it is
/// emitted: the bare program, the layers, the attachment operations, and the
/// block with `run`.
#[derive(Debug, PartialEq, Eq)]
pub struct Program {
    /// The name of the bare program type, which carries no state.
    pub root: String,
    pub layers: Vec<IntermediateStruct>,
    pub impls: Vec<AddImpl>,
    pub final_impl: FinalImpl,
}

pub struct ProgramView {
    pub root: Seq<char>,
    pub layers: Seq<IntermediateStructView>,
    pub impls: Seq<AddImplView>,
    pub final_impl: FinalImplView,
}

impl View for Program {
    type V = ProgramView;

    open spec fn view(&self) -> ProgramView {
        ProgramView {
            root: self.root@,
            layers: views(self.layers@),
            impls: views(self.impls@),
            final_impl: self.final_impl@,
        }
    }
}

/// What becomes of the annotated function.
#[derive(Debug, PartialEq, Eq)]
pub enum Generated {
    /// No effect is declared: the function stays as it is.
    Unchanged,
    /// The function is replaced by the generated definitions.
    Rewritten(Program),
}

/// The block that houses `run`, on the layer `last`.
pub open spec fn final_impl_of(
    last: IntermediateStructView,
    effects: Seq<EffectView>,
    callees: Seq<Seq<char>>,
) -> FinalImplView {
    FinalImplView {
        generics: last.generics,
        target: TypeExprView { name: last.id, arguments: last.letters },
        run: run_method(effects, callees),
    }
}

/// The definitions generated for a program named `prog` with the effects
/// `effects`, whose body calls `callees`.
pub open spec fn plan(
    prog: Seq<char>,
    effects: Seq<EffectView>,
    callees: Seq<Seq<char>>,
) -> ProgramView
    recommends
        effects.len() > 0,
{
    ProgramView {
        root: prog,
        layers: chain(prog, effects),
        impls: add_impls(prog, chain(prog, effects)),
        final_impl: final_impl_of(chain(prog, effects).last(), effects, callees),
    }
}

/// The Pascal-case form of `text`, as `convert_case` computes it.
pub uninterp spec fn pascal_case(text: Seq<char>) -> Seq<char>;

/// The program's name: the declared one, or the function's name in Pascal
/// case where none is declared.
pub open spec fn program_name(declared: Option<Seq<char>>, fn_name: Seq<char>) -> Seq<char> {
    match declared {
        Some(name) => name,
        None => pascal_case(fn_name),
    }
}

/// `convert_case::Casing::to_case` with `Case::Pascal`: splits the text into
/// words and joins them, each capitalised. The result depends on the text
/// alone; nothing more is claimed of it.
#[verifier::external_body]
fn to_pascal_case(text: &str) -> (out: String)
    ensures
        out@ == pascal_case(text@),
{
    text.to_case(Case::Pascal)
}

/// Builds the block with `run` on the last layer.
pub fn final_impl(last: &IntermediateStruct, callees: &Vec<String>, args: &Args) -> (out: FinalImpl)
    ensures
        out@ == final_impl_of(last@, args@.effects, views(callees@)),
{
    let generics = last.generics.clone();
    let target = TypeExpr { name: last.id.clone(), arguments: last.letters.clone() };
    let run = rewrite_func(callees, args);
    let out = FinalImpl { generics, target, run };
    assert(out@.generics =~= last@.generics);
    assert(out@.target.arguments =~= last@.letters);
    out
}

/// Generates all definitions for a named program with at least one effect.
/// `callees` holds the bare callee name of each call of the function's body.
pub fn rewrite_item_into_struct(callees: &Vec<String>, args: Args) -> (out: Program)
    requires
        args.name.is_some(),
        args.effects@.len() > 0,
    ensures
        out@ == plan(args@.name.unwrap(), args@.effects, views(callees@)),
{
    let prog_name = match &args.name {
        Some(name) => name.clone(),
        None => {
            proof {
                assert(false);
            }
            String::new()
        },
    };
    let layers = intermediate_structs(&args, prog_name.as_str());
    assert forall|i: int| 0 <= i < layers@.len() implies (#[trigger] layers@[i]).traits@.len() > 0
        && layers@[i].letters@.len() > 0 by {
        assert(views(layers@)[i] == chain(prog_name@, args@.effects)[i]);
        assert(views(layers@[i].traits@).len() == i + 1);
        assert(views(layers@[i].letters@).len() == i + 1);
    }
    let impls = impls(prog_name.as_str(), &layers);
    let last = &layers[layers.len() - 1];
    assert(last@ == chain(prog_name@, args@.effects).last()) by {
        assert(views(layers@)[layers@.len() - 1] == last@);
    }
    let final_impl = final_impl(last, callees, &args);
    Program { root: prog_name, layers, impls, final_impl }
}

/// The generated definitions by their view, or nothing for a function that
/// stays as it is.
pub open spec fn generated_view(generated: Generated) -> Option<ProgramView> {
    match generated {
        Generated::Unchanged => None,
        Generated::Rewritten(program) => Some(program@),
    }
}

/// What is generated for a function named `fn_name` with the declaration
/// `args`: nothing where no effect is declared, else the definitions of the
/// program, named as declared or after the function.
pub open spec fn generation_of(
    args: ArgsView,
    fn_name: Seq<char>,
    callees: Seq<Seq<char>>,
) -> Option<ProgramView> {
    if args.effects.len() == 0 {
        None
    } else {
        Some(plan(program_name(args.name, fn_name), args.effects, callees))
    }
}

/// Plans the generated program for a function named `fn_name`.
///
/// With no declared effect the function is passed through unchanged.
/// Otherwise the program is named as declared, or after the function where no
/// name is declared, and all its definitions are generated.
pub fn program(args: Args, fn_name: &str, callees: &Vec<String>) -> (out: Generated)
    ensures
        generated_view(out) == generation_of(args@, fn_name@, views(callees@)),
        args.effects@.len() == 0 ==> out is Unchanged,
        args.effects@.len() > 0 ==> out is Rewritten && out->Rewritten_0@ == plan(
            program_name(args@.name, fn_name@),
            args@.effects,
            views(callees@),
        ),
{
    let mut args = args;
    if args.name.is_none() {
        let i = to_pascal_case(fn_name);
        args.name = Some(i);
    }
    if args.effects.len() > 0 {
        Generated::Rewritten(rewrite_item_into_struct(callees, args))
    } else {
        Generated::Unchanged
    }
}

/// `run` needs every handler: it is defined on the composite of all
/// effects, and the composite of fewer effects is another type, the bare
/// program included.
pub proof fn lemma_run_needs_every_handler(
    prog: Seq<char>,
    effects: Seq<EffectView>,
    callees: Seq<Seq<char>>,
    attached: nat,
)
    requires
        effects.len() > 0,
    ensures
        plan(prog, effects, callees).final_impl.target == composite_type(prog, effects, effects.len()),
        attached < effects.len() ==> composite_type(prog, effects, attached) != plan(
            prog,
            effects,
            callees,
        ).final_impl.target,
{
    let target = plan(prog, effects, callees).final_impl.target;
    assert(target.arguments.len() == effects.len());
    if attached < effects.len() {
        assert(composite_type(prog, effects, attached).arguments.len() == attached);
    }
}

/// Reads a declaration from its written form and plans the generated
/// program for a function named `fn_name` that calls `callees`. A declaration
/// that cannot be read gives its error and nothing else.
pub fn generate(declaration: &str, fn_name: &str, callees: &Vec<String>) -> (out: Result<
    Generated,
    ParseError,
>)
    ensures
        (match out {
            Ok(generated) => declaration_of(declaration@) matches Ok(args) && generated_view(
                generated,
            ) == generation_of(args, fn_name@, views(callees@)),
            Err(error) => declaration_of(declaration@) == Err::<
                ArgsView,
                (MalformedDeclaration, int),
            >(error@),
        }),
{
    match Args::parse(declaration) {
        Ok(args) => Ok(program(args, fn_name, callees)),
        Err(error) => Err(error),
    }
}

/// Generation is repeatable: whatever two runs on the same declaration, the
/// same function name and the same calls return, they return the same
/// definitions, with the same layers and the same access paths.
pub proof fn lemma_generation_is_repeatable(
    args: Args,
    fn_name: &str,
    callees: &Vec<String>,
    first: Generated,
    again: Args,
    again_fn_name: &str,
    again_callees: &Vec<String>,
    second: Generated,
)
    requires
        args@ == again@,
        fn_name@ == again_fn_name@,
        views(callees@) == views(again_callees@),
        call_ensures(program, (args, fn_name, callees), first),
        call_ensures(program, (again, again_fn_name, again_callees), second),
    ensures
        generated_view(first) == generated_view(second),
{
}

/// Reading and generating is repeatable too: two runs on the same text, the
/// same function name and the same calls fail alike or succeed alike, with
/// the same definitions.
pub proof fn lemma_generating_from_text_is_repeatable(
    declaration: &str,
    fn_name: &str,
    callees: &Vec<String>,
    first: Result<Generated, ParseError>,
    again: &str,
    again_fn_name: &str,
    again_callees: &Vec<String>,
    second: Result<Generated, ParseError>,
)
    requires
        declaration@ == again@,
        fn_name@ == again_fn_name@,
        views(callees@) == views(again_callees@),
        call_ensures(generate, (declaration, fn_name, callees), first),
        call_ensures(generate, (again, again_fn_name, again_callees), second),
    ensures
        (match (first, second) {
            (Ok(one), Ok(other)) => generated_view(one) == generated_view(other),
            (Err(one), Err(other)) => one == other,
            _ => false,
        }),
{
}

} // verus!
