//! Call-site rewriting: which handler serves a call, under which qualified
//! name, and how the handler is reached inside the saturated composite.

use vstd::prelude::*;
use vstd::string::*;
use crate::lette::{label, LettersIter};
use crate::parse::{views, Args, EffectView, Path, SelfAccess};

verus! {

/// One projection out of a composite, which is a pair of the composite
/// before it and the newest handler.
#[derive(Clone, Copy, PartialEq, Eq, Structural, Debug)]
pub enum Step {
    /// Into the first slot: the composite before.
    Previous,
    /// Into the second slot: the handler.
    Handler,
}

impl Step {
    /// The slot's position in the pair.
    pub fn index(self) -> (n: usize)
        ensures
            n == (match self {
                Step::Previous => 0usize,
                Step::Handler => 1usize,
            }),
    {
        match self {
            Step::Previous => 0,
            Step::Handler => 1,
        }
    }
}

/// The receiver passed as a call's new first argument: the run operation's
/// own composite, projected along `steps`, borrowed as `mode` says.
#[derive(Debug, PartialEq, Eq)]
pub struct Receiver {
    pub mode: SelfAccess,
    pub steps: Vec<Step>,
}

pub struct ReceiverView {
    pub mode: SelfAccess,
    pub steps: Seq<Step>,
}

impl View for Receiver {
    type V = ReceiverView;

    open spec fn view(&self) -> ReceiverView {
        ReceiverView { mode: self.mode, steps: self.steps@ }
    }
}

/// What a matched call becomes: `<slot as path[..position]>::path[position]`,
/// with `receiver`, where there is one, in front of its arguments.
#[derive(Debug, PartialEq, Eq)]
pub struct CallRewrite {
    /// The label of the generic slot whose handler serves the call.
    pub slot: String,
    /// The interface's path followed by the operation's own name.
    pub path: Path,
    /// How many segments of `path` belong to the interface.
    pub position: usize,
    pub receiver: Option<Receiver>,
}

pub struct CallRewriteView {
    pub slot: Seq<char>,
    pub path: Seq<Seq<char>>,
    pub position: nat,
    pub receiver: Option<ReceiverView>,
}

impl View for CallRewrite {
    type V = CallRewriteView;

    open spec fn view(&self) -> CallRewriteView {
        CallRewriteView {
            slot: self.slot@,
            path: self.path@,
            position: self.position as nat,
            receiver: match self.receiver {
                Some(receiver) => Some(receiver@),
                None => None,
            },
        }
    }
}

/// The view of a rewrite that may be absent.
pub open spec fn outcome(rewrite: Option<CallRewrite>) -> Option<CallRewriteView> {
    match rewrite {
        Some(rewrite) => Some(rewrite@),
        None => None,
    }
}

/// The way from the composite of `total` handlers to handler `index`:
/// `total - index - 1` steps into the composite before, then one step to the
/// handler. Handlers attached earlier lie deeper.
pub open spec fn access_path(total: nat, index: nat) -> Seq<Step>
    recommends
        index < total,
{
    Seq::new(
        (total - index) as nat,
        |k: int|
            if k < total - index - 1 {
                Step::Previous
            } else {
                Step::Handler
            },
    )
}

/// Operation `f` of effect `i` is called as `callee`.
pub open spec fn is_match(effects: Seq<EffectView>, callee: Seq<char>, i: int, f: int) -> bool {
    &&& 0 <= i < effects.len()
    &&& 0 <= f < effects[i].functions.len()
    &&& effects[i].functions[f].call_name() == callee
}

/// Operation `f` of effect `i` is called as `callee`, and no operation
/// declared before it is: the first declared match wins.
pub open spec fn is_first_match(effects: Seq<EffectView>, callee: Seq<char>, i: int, f: int) -> bool {
    &&& is_match(effects, callee, i, f)
    &&& forall|i2: int, f2: int| #[trigger]
        is_match(effects, callee, i2, f2) ==> i < i2 || (i == i2 && f <= f2)
}

/// The rewrite of a call that operation `f` of effect `i` serves.
pub open spec fn rewrite_of(effects: Seq<EffectView>, i: int, f: int) -> CallRewriteView {
    let operation = effects[i].functions[f];
    CallRewriteView {
        slot: label(i as nat),
        path: effects[i].path.push(operation.ident),
        position: effects[i].path.len(),
        receiver: if operation.self_reference == SelfAccess::NoReceiver {
            None
        } else {
            Some(
                ReceiverView {
                    mode: operation.self_reference,
                    steps: access_path(effects.len(), i as nat),
                },
            )
        },
    }
}

/// What becomes of a call to `callee`: the rewrite for the first declared
/// operation called by that name, or nothing where no operation is, in which
/// case the call is an ordinary one and stays as it is.
pub open spec fn resolve(effects: Seq<EffectView>, callee: Seq<char>) -> Option<CallRewriteView> {
    if exists|p: (int, int)| is_first_match(effects, callee, p.0, p.1) {
        let p = choose|p: (int, int)| is_first_match(effects, callee, p.0, p.1);
        Some(rewrite_of(effects, p.0, p.1))
    } else {
        None
    }
}

/// A call whose first declared match is operation `f` of effect `i` is
/// rewritten for that operation.
pub proof fn lemma_resolve_first_match(effects: Seq<EffectView>, callee: Seq<char>, i: int, f: int)
    requires
        is_first_match(effects, callee, i, f),
    ensures
        resolve(effects, callee) == Some(rewrite_of(effects, i, f)),
{
    let found = (i, f);
    assert(is_first_match(effects, callee, found.0, found.1));
    let p = choose|p: (int, int)| is_first_match(effects, callee, p.0, p.1);
    assert(is_first_match(effects, callee, p.0, p.1));
    assert(is_match(effects, callee, p.0, p.1));
    assert(is_match(effects, callee, i, f));
    assert(p.0 == i && p.1 == f);
}

/// A rewritten call is served by the operation it was matched with: it is
/// qualified by that operation's interface, under the operation's own name
/// and not its alias, and by the slot of its effect; and it receives the
/// handler as the operation's access mode says, or not at all where the
/// operation takes none.
pub proof fn lemma_rewrite_serves_the_operation(
    effects: Seq<EffectView>,
    callee: Seq<char>,
    i: int,
    f: int,
)
    requires
        is_first_match(effects, callee, i, f),
    ensures
        resolve(effects, callee) == Some(rewrite_of(effects, i, f)),
        rewrite_of(effects, i, f).slot == label(i as nat),
        rewrite_of(effects, i, f).position == rewrite_of(effects, i, f).path.len() - 1,
        rewrite_of(effects, i, f).path.subrange(0, rewrite_of(effects, i, f).position as int)
            == effects[i].path,
        rewrite_of(effects, i, f).path.last() == effects[i].functions[f].ident,
        rewrite_of(effects, i, f).receiver.is_none() <==> effects[i].functions[f].self_reference
            == SelfAccess::NoReceiver,
        rewrite_of(effects, i, f).receiver matches Some(receiver) ==> receiver.mode
            == effects[i].functions[f].self_reference && receiver.steps == access_path(
            effects.len(),
            i as nat,
        ),
{
    lemma_resolve_first_match(effects, callee, i, f);
    let rewrite = rewrite_of(effects, i, f);
    assert(rewrite.path.subrange(0, rewrite.position as int) =~= effects[i].path);
}

/// A call that matches a declared operation is rewritten: among the
/// operations that it matches there is a first.
pub proof fn lemma_resolve_matched(effects: Seq<EffectView>, callee: Seq<char>, i: int, f: int)
    requires
        is_match(effects, callee, i, f),
    ensures
        resolve(effects, callee).is_some(),
    decreases i, f,
{
    if exists|p: (int, int)|
        is_match(effects, callee, p.0, p.1) && (p.0 < i || (p.0 == i && p.1 < f)) {
        let p = choose|p: (int, int)|
            is_match(effects, callee, p.0, p.1) && (p.0 < i || (p.0 == i && p.1 < f));
        lemma_resolve_matched(effects, callee, p.0, p.1);
    } else {
        assert forall|i2: int, f2: int| #[trigger]
            is_match(effects, callee, i2, f2) implies i < i2 || (i == i2 && f <= f2) by {
            let p = (i2, f2);
            assert(!(is_match(effects, callee, p.0, p.1) && (p.0 < i || (p.0 == i && p.1 < f))));
        }
        lemma_resolve_first_match(effects, callee, i, f);
    }
}

/// A call that matches no declared operation is left alone.
pub proof fn lemma_resolve_unmatched(effects: Seq<EffectView>, callee: Seq<char>)
    requires
        forall|i: int, f: int| !is_match(effects, callee, i, f),
    ensures
        resolve(effects, callee).is_none(),
{
}

/// Rewrites calls against a fixed declaration.
pub struct FuncRewriter<'a> {
    pub args: &'a Args,
}

impl<'a> FuncRewriter<'a> {
    /// Decides what becomes of one call whose callee is the bare name
    /// `callee`.
    ///
    /// Where `callee` is the call name of a declared operation, the call is
    /// qualified by that operation's interface and slot, and receives the
    /// handler as the operation's access mode says; the first declared match
    /// wins. Any other call is left as it is.
    pub fn visit_expr_call(&self, callee: &str) -> (out: Option<CallRewrite>)
        ensures
            outcome(out) == resolve(self.args@.effects, callee@),
            out.is_none() <==> forall|i: int, f: int| !is_match(self.args@.effects, callee@, i, f),
            forall|i: int, f: int| #[trigger]
                is_first_match(self.args@.effects, callee@, i, f) ==> outcome(out) == Some(
                    rewrite_of(self.args@.effects, i, f),
                ),
    {
        let ghost effects = self.args@.effects;
        let eff_len = self.args.effects.len();
        let mut letters = LettersIter::new();
        let mut i: usize = 0;
        while i < eff_len
            invariant
                i <= eff_len,
                eff_len == self.args.effects@.len(),
                effects == self.args@.effects,
                letters.position() == i,
                forall|i2: int, f2: int| 0 <= i2 < i ==> !is_match(effects, callee@, i2, f2),
            decreases eff_len - i,
        {
            let effect = &self.args.effects[i];
            assert(effect@ == effects[i as int]);
            let l = match letters.next() {
                Some(l) => l,
                None => {
                    proof {
                        assert(false);
                    }
                    return None;
                },
            };
            if let Some(f) = effect.find(callee) {
                let func = &effect.functions[f];
                assert(func@ == effects[i as int].functions[f as int]);
                let mut segments = effect.path.segments.clone();
                segments.push(func.ident.clone());
                let position = segments.len() - 1;
                let effect_path = Path { segments };
                assert(effect_path@ =~= effects[i as int].path.push(func@.ident));

                let receiver = match func.self_reference {
                    SelfAccess::NoReceiver => None,
                    mode => Some(Receiver { mode, steps: steps_to(eff_len, i) }),
                };
                let out = CallRewrite { slot: l, path: effect_path, position, receiver };
                proof {
                    assert(out@ == rewrite_of(effects, i as int, f as int));
                    assert(is_match(effects, callee@, i as int, f as int));
                    assert(is_first_match(effects, callee@, i as int, f as int));
                    lemma_resolve_first_match(effects, callee@, i as int, f as int);
                }
                return Some(out);
            }
            i += 1;
        }
        None
    }
}

/// The name of the operation that houses the rewritten body.
pub open spec fn run_name() -> Seq<char> {
    seq!['r', 'u', 'n']
}

/// The terminal operation: the annotated function under the name `run`, with
/// the composite prepended as its receiver and its calls rewritten.
#[derive(Debug, PartialEq, Eq)]
pub struct RunMethod {
    pub name: String,
    /// How `run` takes the composite: by value.
    pub receiver: SelfAccess,
    /// One entry per call of the body, in the order in which the calls were
    /// given: the rewrite, or nothing for a call that stays as it is.
    pub calls: Vec<Option<CallRewrite>>,
}

pub struct RunMethodView {
    pub name: Seq<char>,
    pub receiver: SelfAccess,
    pub calls: Seq<Option<CallRewriteView>>,
}

impl View for RunMethod {
    type V = RunMethodView;

    open spec fn view(&self) -> RunMethodView {
        RunMethodView {
            name: self.name@,
            receiver: self.receiver,
            calls: Seq::new(self.calls@.len(), |k: int| outcome(self.calls@[k])),
        }
    }
}

/// The run operation for a body whose calls have the callees `callees`.
pub open spec fn run_method(effects: Seq<EffectView>, callees: Seq<Seq<char>>) -> RunMethodView {
    RunMethodView {
        name: run_name(),
        receiver: SelfAccess::ByValue,
        calls: Seq::new(callees.len(), |k: int| resolve(effects, callees[k])),
    }
}

/// Turns the function into the run operation: renames it, prepends the
/// composite as a by-value receiver, and rewrites each of its calls.
/// `callees` holds the bare callee name of each call of the body.
pub fn rewrite_func(callees: &Vec<String>, args: &Args) -> (out: RunMethod)
    ensures
        out@ == run_method(args@.effects, views(callees@)),
{
    let rewriter = FuncRewriter { args };
    let mut calls: Vec<Option<CallRewrite>> = Vec::new();
    let mut k: usize = 0;
    while k < callees.len()
        invariant
            k <= callees@.len(),
            rewriter.args == args,
            calls@.len() == k,
            forall|j: int|
                0 <= j < k ==> outcome(#[trigger] calls@[j]) == resolve(
                    args@.effects,
                    callees@[j]@,
                ),
        decreases callees@.len() - k,
    {
        let rewrite = rewriter.visit_expr_call(callees[k].as_str());
        calls.push(rewrite);
        k += 1;
    }
    let name = String::from_str("run");
    proof {
        reveal_strlit("run");
        assert(name@ =~= run_name());
    }
    let out = RunMethod { name, receiver: SelfAccess::ByValue, calls };
    assert(out@.calls =~= run_method(args@.effects, views(callees@)).calls);
    out
}

/// Lays out the way to handler `index` among `total`.
fn steps_to(total: usize, index: usize) -> (out: Vec<Step>)
    requires
        index < total,
    ensures
        out@ == access_path(total as nat, index as nat),
{
    let idx: usize = total - (index + 1);
    let mut out: Vec<Step> = Vec::new();
    let mut k: usize = 0;
    while k < idx
        invariant
            k <= idx,
            out@.len() == k,
            forall|j: int| 0 <= j < k ==> out@[j] == Step::Previous,
        decreases idx - k,
    {
        out.push(Step::Previous);
        k += 1;
    }
    out.push(Step::Handler);
    assert(out@ =~= access_path(total as nat, index as nat));
    out
}

} // verus!
