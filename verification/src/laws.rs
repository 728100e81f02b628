use vstd::prelude::*;
use crate::interpreter::StateV;
use crate::interpreter::apply_proc_spec;
use crate::interpreter::binds_of;
use crate::interpreter::empty_app_msg;
use crate::interpreter::eval_spec;
use crate::interpreter::not_callable_msg;
use crate::interpreter::undef_msg;
use crate::native::cond_of;
use crate::interpreter::form_spec;
use crate::scope::FrameV;
use crate::scope::lemma_lookup_append;
use crate::scope::lemma_global_redefine_overrides;
use crate::scope::lemma_lookup_unrelated_update;
use crate::scope::parents_wf;
use crate::scope::lookup_in;
use crate::scope::on_chain;
use crate::value::FormV;
use crate::value::ProcV;
use crate::value::Val;
use crate::value::printed;

verus! {

/// Whether the evaluator returns a value unchanged rather than
/// dispatching on it: everything that is not an application, a special
/// form, or a symbol — among them booleans, integers, characters and
/// strings.
pub open spec fn self_evaluating(v: Val) -> bool {
    !(v is List) && !(v is Form) && !(v is Sym)
}

/// Self-evaluating values evaluate to themselves, and leave the
/// interpreter state untouched.
pub proof fn lemma_self_evaluating(st: StateV, v: Val, fuel: nat)
    requires
        fuel >= 1,
        self_evaluating(v),
    ensures
        eval_spec(st, v, fuel) == (st, v),
{
}

/// A symbol bound in the current environment chain evaluates to its
/// binding; an unbound symbol yields an undefined-identifier condition
/// whose text carries the symbol's printed form.
pub proof fn lemma_symbol_lookup(st: StateV, h: usize, fuel: nat)
    requires
        fuel >= 1,
    ensures
        lookup_in(st.frames, st.current as int, h) is Some ==> eval_spec(st, Val::Sym(h), fuel)
            == (st, lookup_in(st.frames, st.current as int, h)->0),
        lookup_in(st.frames, st.current as int, h) is None ==> eval_spec(st, Val::Sym(h), fuel)
            == (st, cond_of(undef_msg(printed(Val::Sym(h), st.syms)))),
{
}

/// Evaluating the empty application always yields the empty-application
/// condition, in every state and at every remaining depth.
pub proof fn lemma_empty_application(st: StateV, fuel: nat)
    requires
        fuel >= 1,
    ensures
        eval_spec(st, Val::List(Seq::empty()), fuel) == (st, cond_of(empty_app_msg())),
{
    assert(Seq::<Val>::empty().len() == 0);
}

/// Applying a head that evaluates to something neither native, nor a
/// closure, nor a condition yields the not-callable condition, whose
/// text is built around the printed form of the offending value.
pub proof fn lemma_not_callable(st: StateV, items: Seq<Val>, fuel: nat)
    requires
        fuel >= 1,
        items.len() > 0,
        !(eval_spec(st, items[0], (fuel - 1) as nat).1 is Native),
        !(eval_spec(st, items[0], (fuel - 1) as nat).1 is Proc),
        !(eval_spec(st, items[0], (fuel - 1) as nat).1 is Cond),
    ensures
        eval_spec(st, Val::List(items), fuel) == (
            eval_spec(st, items[0], (fuel - 1) as nat).0,
            cond_of(
                not_callable_msg(
                    printed(
                        eval_spec(st, items[0], (fuel - 1) as nat).1,
                        eval_spec(st, items[0], (fuel - 1) as nat).0.syms,
                    ),
                ),
            ),
        ),
{
}

/// A condition produced while evaluating the operator of an application
/// short-circuits the application: it propagates unchanged, and neither
/// the arguments nor any procedure body are touched.
pub proof fn lemma_head_condition_propagates(st: StateV, items: Seq<Val>, fuel: nat)
    requires
        fuel >= 1,
        items.len() > 0,
        eval_spec(st, items[0], (fuel - 1) as nat).1 is Cond,
    ensures
        eval_spec(st, Val::List(items), fuel) == eval_spec(st, items[0], (fuel - 1) as nat),
{
}

/// The not-callable condition text contains the printed form of the
/// offending value verbatim, between the fixed prefix and suffix.
pub proof fn lemma_not_callable_msg_includes(p: Seq<char>)
    ensures
        not_callable_msg(p).subrange(14, 14 + p.len() as int) == p,
        not_callable_msg(p).len() == 37 + p.len(),
{
    reveal_strlit("tried to call ");
    reveal_strlit(", which is not possible");
    assert(not_callable_msg(p).subrange(14, 14 + p.len() as int) =~= p);
}

/// The undefined-identifier condition text contains the symbol's
/// printed form verbatim after the fixed prefix.
pub proof fn lemma_undef_msg_includes(p: Seq<char>)
    ensures
        undef_msg(p).subrange(17, 17 + p.len() as int) == p,
        undef_msg(p).len() == 17 + p.len(),
{
    reveal_strlit("undefined ident: ");
    assert(undef_msg(p).subrange(17, 17 + p.len() as int) =~= p);
}

/// A definition made in the current frame is invisible to any frame
/// whose parent chain does not pass through it.  In particular, once
/// evaluation has returned from a call frame to a parent, what `define`
/// bound inside the call frame cannot be seen from the parent.
pub proof fn lemma_define_invisible_outside_chain(
    st: StateV,
    h: usize,
    v: Val,
    fuel: nat,
    f: int,
    s: usize,
)
    requires
        fuel >= 2,
        self_evaluating(v),
        !(v is Cond),
        0 <= st.current < st.frames.len(),
        0 <= f < st.frames.len(),
        !on_chain(st.frames, f, st.current as int),
    ensures
        lookup_in(
            form_spec(st, FormV::Define(h, Box::new(v)), fuel).0.frames,
            f,
            s,
        ) == lookup_in(st.frames, f, s),
{
    lemma_self_evaluating(st, v, (fuel - 1) as nat);
    let cur = st.current as int;
    let fr = st.frames[cur];
    let updated = FrameV { parent: fr.parent, binds: fr.binds.insert(h, v) };
    lemma_lookup_unrelated_update(st.frames, cur, updated, f, s);
}

/// Redefining a name at the global frame overrides what every frame
/// without a closer shadow of that name sees from then on.
pub proof fn lemma_global_define_overrides(
    st: StateV,
    h: usize,
    v: Val,
    fuel: nat,
    f: int,
)
    requires
        fuel >= 2,
        self_evaluating(v),
        !(v is Cond),
        st.current == 0,
        parents_wf(st.frames),
        0 <= f < st.frames.len(),
        forall|c: int|
            on_chain(st.frames, f, c) && c != 0 ==> !(#[trigger] st.frames[c].binds).contains_key(
                h,
            ),
    ensures
        lookup_in(form_spec(st, FormV::Define(h, Box::new(v)), fuel).0.frames, f, h) == Some(v),
{
    lemma_self_evaluating(st, v, (fuel - 1) as nat);
    lemma_global_redefine_overrides(st.frames, f, h, v);
}

/// Closures resolve their free variables against their defining
/// environment, never the call-site environment: applying a closure
/// whose body is a free symbol returns what that symbol means in the
/// frame the closure captured, whatever frame is current at the call.
pub proof fn lemma_closure_uses_captured_env(st: StateV, x: usize, env: usize, fuel: nat)
    requires
        fuel >= 2,
        env < st.frames.len(),
        st.frames.len() <= usize::MAX,
    ensures
        ({
            let p = ProcV { params: Seq::empty(), body: Box::new(Val::Sym(x)), env };
            let out = apply_proc_spec(st, p, Seq::empty(), fuel);
            match lookup_in(st.frames, env as int, x) {
                Some(v) => out == (
                    StateV {
                        syms: st.syms,
                        frames: st.frames.push(
                            FrameV { parent: Some(env), binds: Map::empty() },
                        ),
                        current: st.current,
                    },
                    v,
                ),
                None => out.1 == cond_of(undef_msg(printed(Val::Sym(x), st.syms))),
            }
        }),
{
    let p = ProcV { params: Seq::empty(), body: Box::new(Val::Sym(x)), env };
    let child = FrameV { parent: Some(env), binds: binds_of(Seq::empty(), Seq::empty()) };
    assert(binds_of(Seq::<usize>::empty(), Seq::<Val>::empty()) =~= Map::<usize, Val>::empty());
    let entered = StateV {
        syms: st.syms,
        frames: st.frames.push(child),
        current: st.frames.len() as usize,
    };
    let cur = entered.current as int;
    assert(cur == st.frames.len());
    assert(!entered.frames[cur].binds.contains_key(x));
    lemma_lookup_append(st.frames, child, env as int, x);
    assert(lookup_in(entered.frames, cur, x) == lookup_in(st.frames, env as int, x));
    assert(child == FrameV { parent: Some(env), binds: Map::<usize, Val>::empty() });
}

} // verus!
