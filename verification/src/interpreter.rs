use vstd::prelude::*;
use crate::interner::StringInterner;
use crate::native::arity_msg;
use crate::native::cond_of;
use crate::native::lemma_native_step_wf;
use crate::native::lemma_wf_cond;
use crate::native::native_step;
use crate::native::native_step_spec;
use crate::scope::FrameV;
use crate::scope::Scope;
use crate::scope::binds_wf;
use crate::scope::lemma_lookup_wf;
use crate::scope::lookup_in;
use crate::scope::parents_wf;
use crate::value::FormV;
use crate::value::NativeOp;
use crate::value::ProcV;
use crate::value::Procedure;
use crate::value::SpecialForm;
use crate::value::Val;
use crate::value::Value;
use crate::value::deep;
use crate::value::deep_form;
use crate::value::deep_seq;
use crate::value::duplicate;
use crate::value::lemma_deep_seq_index;
use crate::value::lemma_deep_seq_len;
use crate::value::lemma_wf_val_mono;
use crate::value::printed;
use crate::value::to_text;
use crate::value::wf_form;
use crate::value::wf_val;

verus! {

broadcast use {
    vstd::std_specs::vec::axiom_vec_index_decreases,
    vstd::seq::axiom_seq_index_decreases,
    vstd::seq::axiom_seq_subrange_decreases,
};

/// How deep one `evaluate` call may recurse before it gives up with a
/// condition instead of exhausting the host stack.
pub const DEFAULT_FUEL: u64 = 4096;

/// Mathematical image of the whole evaluator state: interner contents,
/// frame arena, and the current frame.
pub struct StateV {
    pub syms: Seq<Seq<char>>,
    pub frames: Seq<FrameV>,
    pub current: usize,
}

pub open spec fn state_wf(st: StateV) -> bool {
    &&& parents_wf(st.frames)
    &&& binds_wf(st.frames, st.syms.len())
    &&& st.current < st.frames.len()
}

pub open spec fn depth_msg() -> Seq<char> {
    "recursion depth exceeded"@
}

pub open spec fn empty_app_msg() -> Seq<char> {
    "tried to evaluate ()"@
}

pub open spec fn not_callable_msg(p: Seq<char>) -> Seq<char> {
    "tried to call "@ + p + ", which is not possible"@
}

pub open spec fn undef_msg(p: Seq<char>) -> Seq<char> {
    "undefined ident: "@ + p
}

/// The bindings a call frame starts with: each parameter bound to the
/// matching argument, left to right.
pub open spec fn binds_of(params: Seq<usize>, vals: Seq<Val>) -> Map<usize, Val>
    decreases params.len(),
{
    if params.len() == 0 {
        Map::empty()
    } else {
        binds_of(params.drop_last(), vals.drop_last()).insert(params.last(), vals.last())
    }
}

/// Big-step evaluation, indexed by remaining recursion depth.  This is
/// the single dispatch of the evaluator: non-empty application, empty
/// application, special form, symbol lookup, self-evaluation.
pub open spec fn eval_spec(st: StateV, v: Val, fuel: nat) -> (StateV, Val)
    decreases fuel, 2int, 0int,
{
    if fuel == 0 {
        (st, cond_of(depth_msg()))
    } else {
        match v {
            Val::List(items) => {
                if items.len() == 0 {
                    (st, cond_of(empty_app_msg()))
                } else {
                    let head_out = eval_spec(st, items[0], (fuel - 1) as nat);
                    let st1 = head_out.0;
                    let head = head_out.1;
                    if head is Cond {
                        (st1, head)
                    } else {
                        match head {
                            Val::Native(op) => apply_native_spec(
                                st1,
                                op,
                                items.subrange(1, items.len() as int),
                                (fuel - 1) as nat,
                            ),
                            Val::Proc(p) => apply_proc_spec(
                                st1,
                                p,
                                items.subrange(1, items.len() as int),
                                (fuel - 1) as nat,
                            ),
                            _ => (st1, cond_of(not_callable_msg(printed(head, st1.syms)))),
                        }
                    }
                }
            },
            Val::Form(f) => form_spec(st, f, fuel),
            Val::Sym(h) => match lookup_in(st.frames, st.current as int, h) {
                Some(b) => (st, b),
                None => (st, cond_of(undef_msg(printed(Val::Sym(h), st.syms)))),
            },
            _ => (st, v),
        }
    }
}

/// Evaluation of one special form against the current state.
pub open spec fn form_spec(st: StateV, f: FormV, fuel: nat) -> (StateV, Val)
    decreases fuel, 1int, 0int,
{
    if fuel == 0 {
        (st, cond_of(depth_msg()))
    } else {
        match f {
            FormV::Quote(e) => (st, *e),
            FormV::If(c, t, e) => {
                let c_out = eval_spec(st, *c, (fuel - 1) as nat);
                if c_out.1 is Cond {
                    c_out
                } else if c_out.1 == Val::Bool(false) {
                    eval_spec(c_out.0, *e, (fuel - 1) as nat)
                } else {
                    eval_spec(c_out.0, *t, (fuel - 1) as nat)
                }
            },
            FormV::Define(h, e) => {
                let e_out = eval_spec(st, *e, (fuel - 1) as nat);
                if e_out.1 is Cond {
                    e_out
                } else {
                    let st1 = e_out.0;
                    let fr = st1.frames[st1.current as int];
                    (
                        StateV {
                            syms: st1.syms,
                            frames: st1.frames.update(
                                st1.current as int,
                                FrameV { parent: fr.parent, binds: fr.binds.insert(h, e_out.1) },
                            ),
                            current: st1.current,
                        },
                        Val::Null,
                    )
                }
            },
            FormV::Lambda(ps, b) => (
                st,
                Val::Proc(ProcV { params: ps, body: b, env: st.current }),
            ),
        }
    }
}

/// Evaluate argument expressions left to right, stopping at the first
/// condition.
pub open spec fn eval_args_spec(st: StateV, args: Seq<Val>, fuel: nat) -> (
    StateV,
    Result<Seq<Val>, Val>,
)
    decreases fuel, 0int, args.len(),
{
    if args.len() == 0 {
        (st, Ok(Seq::empty()))
    } else if fuel == 0 {
        (st, Err(cond_of(depth_msg())))
    } else {
        let first_out = eval_spec(st, args[0], (fuel - 1) as nat);
        if first_out.1 is Cond {
            (first_out.0, Err(first_out.1))
        } else {
            let rest_out = eval_args_spec(first_out.0, args.subrange(1, args.len() as int), fuel);
            match rest_out.1 {
                Ok(vs) => (rest_out.0, Ok(seq![first_out.1] + vs)),
                Err(c) => (rest_out.0, Err(c)),
            }
        }
    }
}

/// A native procedure receives its unevaluated argument expressions,
/// evaluates them itself, and runs its host implementation.
pub open spec fn apply_native_spec(st: StateV, op: NativeOp, args: Seq<Val>, fuel: nat) -> (
    StateV,
    Val,
)
    decreases fuel, 1int, 0int,
{
    let args_out = eval_args_spec(st, args, fuel);
    match args_out.1 {
        Err(c) => (args_out.0, c),
        Ok(vs) => {
            let stepped = native_step_spec(args_out.0.syms, op, vs);
            (StateV { syms: stepped.0, frames: args_out.0.frames, current: args_out.0.current },
            stepped.1)
        },
    }
}

/// Apply a closure: evaluate the arguments, bind them in a fresh frame
/// whose parent is the closure's captured environment (never the
/// caller's), evaluate the body there, and restore the caller's frame.
pub open spec fn apply_proc_spec(st: StateV, p: ProcV, args: Seq<Val>, fuel: nat) -> (StateV, Val)
    decreases fuel, 1int, 1int,
{
    if fuel == 0 {
        (st, cond_of(depth_msg()))
    } else {
        let args_out = eval_args_spec(st, args, fuel);
        match args_out.1 {
            Err(c) => (args_out.0, c),
            Ok(vs) => {
                if p.params.len() != vs.len() {
                    (args_out.0, cond_of(arity_msg()))
                } else {
                    let st1 = args_out.0;
                    let child = FrameV { parent: Some(p.env), binds: binds_of(p.params, vs) };
                    let entered = StateV {
                        syms: st1.syms,
                        frames: st1.frames.push(child),
                        current: st1.frames.len() as usize,
                    };
                    let body_out = eval_spec(entered, *p.body, (fuel - 1) as nat);
                    (
                        StateV {
                            syms: body_out.0.syms,
                            frames: body_out.0.frames,
                            current: st1.current,
                        },
                        body_out.1,
                    )
                }
            },
        }
    }
}

/// The evaluator: a string interner for symbols, the arena of frames,
/// and the current frame of the single in-flight evaluation.
pub struct Interpreter {
    pub interner: StringInterner,
    pub scopes: Scope,
    pub current: usize,
}

impl View for Interpreter {
    type V = StateV;

    open spec fn view(&self) -> StateV {
        StateV { syms: self.interner@, frames: self.scopes@, current: self.current }
    }
}

impl Interpreter {
    pub open spec fn wf(&self) -> bool {
        state_wf(self@)
    }

    /// Install one startup binding in the global frame.
    fn add_str_to_current_scope(&mut self, s: &str, v: Value)
        requires
            old(self)@.frames.len() > 0,
        ensures
            final(self)@.syms == old(self)@.syms.push(s@),
            final(self)@.frames == old(self)@.frames.update(
                0,
                FrameV {
                    parent: old(self)@.frames[0].parent,
                    binds: old(self)@.frames[0].binds.insert(
                        old(self)@.syms.len() as usize,
                        deep(v),
                    ),
                },
            ),
            final(self)@.current == old(self)@.current,
    {
        let h = self.interner.intern_push(s);
        self.scopes.add_symbol(0, h, v);
    }

    /// A fresh interpreter whose global frame holds the fixed native
    /// procedure table.
    pub fn new() -> (r: Interpreter)
        ensures
            r.wf(),
            r@.current == 0,
            r@.frames.len() == 1,
            r@.frames[0].parent is None,
            r@.syms == init_names(),
            forall|k: int|
                0 <= k < init_names().len() ==> r@.frames[0].binds.contains_key(k as usize)
                    && r@.frames[0].binds[k as usize] == Val::Native(#[trigger] init_ops()[k]),
            forall|s: usize|
                #[trigger] r@.frames[0].binds.contains_key(s) ==> s < init_names().len(),
    {
        let mut r = Interpreter { interner: StringInterner::new(), scopes: Scope::new(), current: 0 };
        r.init();
        r
    }

    #[verifier::rlimit(100)]
    #[verifier::spinoff_prover]
    fn init(&mut self)
        requires
            old(self)@.syms.len() == 0,
            old(self)@.frames =~= seq![
                FrameV { parent: None, binds: Map::<usize, Val>::empty() },
            ],
            old(self)@.current == 0,
        ensures
            final(self).wf(),
            final(self)@.current == 0,
            final(self)@.frames.len() == 1,
            final(self)@.frames[0].parent is None,
            final(self)@.syms == init_names(),
            forall|k: int|
                0 <= k < init_names().len() ==> final(self)@.frames[0].binds.contains_key(k as usize)
                    && final(self)@.frames[0].binds[k as usize] == Val::Native(
                    #[trigger] init_ops()[k],
                ),
            forall|s: usize|
                #[trigger] final(self)@.frames[0].binds.contains_key(s) ==> s < init_names().len(),
    {
        self.add_str_to_current_scope("eq?", Value::NativeProcedure(NativeOp::PolyEq));
        self.add_str_to_current_scope("null?", Value::NativeProcedure(NativeOp::IsNull));
        self.add_str_to_current_scope("boolean?", Value::NativeProcedure(NativeOp::IsBoolean));
        self.add_str_to_current_scope("symbol?", Value::NativeProcedure(NativeOp::IsSymbol));
        self.add_str_to_current_scope("integer?", Value::NativeProcedure(NativeOp::IsInteger));
        self.add_str_to_current_scope("char?", Value::NativeProcedure(NativeOp::IsChar));
        self.add_str_to_current_scope("string?", Value::NativeProcedure(NativeOp::IsString));
        self.add_str_to_current_scope("procedure?", Value::NativeProcedure(NativeOp::IsProcedure));
        self.add_str_to_current_scope("list?", Value::NativeProcedure(NativeOp::IsList));
        self.add_str_to_current_scope("char->integer", Value::NativeProcedure(NativeOp::CharToInteger));
        self.add_str_to_current_scope("integer->char", Value::NativeProcedure(NativeOp::IntegerToChar));
        self.add_str_to_current_scope("number->string", Value::NativeProcedure(NativeOp::NumberToString));
        self.add_str_to_current_scope("string->number", Value::NativeProcedure(NativeOp::StringToNumber));
        self.add_str_to_current_scope("symbol->string", Value::NativeProcedure(NativeOp::SymbolToString));
        self.add_str_to_current_scope("string->symbol", Value::NativeProcedure(NativeOp::StringToSymbol));
        self.add_str_to_current_scope("+", Value::NativeProcedure(NativeOp::Plus));
        self.add_str_to_current_scope("-", Value::NativeProcedure(NativeOp::Minus));
        self.add_str_to_current_scope("*", Value::NativeProcedure(NativeOp::Multiply));
        self.add_str_to_current_scope("quotient", Value::NativeProcedure(NativeOp::Quotient));
        self.add_str_to_current_scope("remainder", Value::NativeProcedure(NativeOp::Remainder));
        self.add_str_to_current_scope("=", Value::NativeProcedure(NativeOp::NumEq));
        self.add_str_to_current_scope(">", Value::NativeProcedure(NativeOp::Gt));
        self.add_str_to_current_scope(">=", Value::NativeProcedure(NativeOp::Ge));
        self.add_str_to_current_scope("<", Value::NativeProcedure(NativeOp::Lt));
        self.add_str_to_current_scope("<=", Value::NativeProcedure(NativeOp::Le));
        self.add_str_to_current_scope("list", Value::NativeProcedure(NativeOp::MakeList));
        self.add_str_to_current_scope("first", Value::NativeProcedure(NativeOp::First));
        self.add_str_to_current_scope("rest", Value::NativeProcedure(NativeOp::Rest));
        self.add_str_to_current_scope("symbol-space", Value::NativeProcedure(NativeOp::SymbolSpace));
        proof {
            assert(self@.syms =~= init_names());
            assert forall|k: int|
                0 <= k < init_names().len() implies self@.frames[0].binds.contains_key(k as usize)
                && self@.frames[0].binds[k as usize] == Val::Native(#[trigger] init_ops()[k]) by {
            }
            assert forall|i: int, s: usize|
                0 <= i < self@.frames.len() && #[trigger] self@.frames[i].binds.contains_key(s)
                implies wf_val(self@.frames[i].binds[s], self@.syms.len(), self@.frames.len()) by {
            }
        }
    }
}

/// Every value a call frame starts with comes from the argument list.
proof fn lemma_binds_of_wf(params: Seq<usize>, vals: Seq<Val>, nsyms: nat, nframes: nat)
    requires
        params.len() == vals.len(),
        forall|j: int| 0 <= j < vals.len() ==> wf_val(#[trigger] vals[j], nsyms, nframes),
    ensures
        forall|s: usize|
            #[trigger] binds_of(params, vals).contains_key(s) ==> wf_val(
                binds_of(params, vals)[s],
                nsyms,
                nframes,
            ),
    decreases params.len(),
{
    if params.len() > 0 {
        let pp = params.drop_last();
        let vv = vals.drop_last();
        assert(forall|j: int| 0 <= j < vv.len() ==> #[trigger] vv[j] == vals[j]);
        lemma_binds_of_wf(pp, vv, nsyms, nframes);
        assert forall|s: usize| #[trigger] binds_of(params, vals).contains_key(s) implies wf_val(
            binds_of(params, vals)[s],
            nsyms,
            nframes,
        ) by {
            if s == params.last() {
                assert(binds_of(params, vals)[s] == vals.last());
            } else {
                assert(binds_of(params, vals)[s] == binds_of(pp, vv)[s]);
            }
        }
    }
}

impl Interpreter {
    /// Evaluate an expression tree: the single public entry point.  A
    /// failure comes back as an ordinary `Condition` value for the
    /// caller to report; it never terminates the process.
    pub fn evaluate(&mut self, value: &Value) -> (r: Value)
        requires
            old(self).wf(),
            wf_val(deep(*value), old(self)@.syms.len(), old(self)@.frames.len()),
        ensures
            final(self).wf(),
            final(self)@ == eval_spec(old(self)@, deep(*value), DEFAULT_FUEL as nat).0,
            deep(r) == eval_spec(old(self)@, deep(*value), DEFAULT_FUEL as nat).1,
            wf_val(deep(r), final(self)@.syms.len(), final(self)@.frames.len()),
    {
        self.eval_fuel(value, DEFAULT_FUEL)
    }

    fn eval_fuel(&mut self, v: &Value, fuel: u64) -> (r: Value)
        requires
            old(self).wf(),
            wf_val(deep(*v), old(self)@.syms.len(), old(self)@.frames.len()),
        ensures
            final(self).wf(),
            old(self)@.syms.len() <= final(self)@.syms.len(),
            old(self)@.frames.len() <= final(self)@.frames.len(),
            final(self)@ == eval_spec(old(self)@, deep(*v), fuel as nat).0,
            deep(r) == eval_spec(old(self)@, deep(*v), fuel as nat).1,
            wf_val(deep(r), final(self)@.syms.len(), final(self)@.frames.len()),
        decreases fuel as nat, 2int, 0int,
    {
        if fuel == 0 {
            proof {
                lemma_wf_cond(depth_msg(), self@.syms.len(), self@.frames.len());
            }
            return crate::native::cond_value("recursion depth exceeded");
        }
        match v {
            Value::List(items) => {
                proof {
                    lemma_deep_seq_len(items@);
                }
                if items.len() == 0 {
                    proof {
                        lemma_wf_cond(empty_app_msg(), self@.syms.len(), self@.frames.len());
                    }
                    crate::native::cond_value("tried to evaluate ()")
                } else {
                    proof {
                        lemma_deep_seq_index(items@, 0);
                        assert(wf_val(deep_seq(items@)[0], self@.syms.len(), self@.frames.len()));
                    }
                    let head = self.eval_fuel(&items[0], fuel - 1);
                    let ghost st1 = self@;
                    proof {
                        assert forall|j: int| 1 <= j < items@.len() implies wf_val(
                            deep(#[trigger] items@[j]),
                            st1.syms.len(),
                            st1.frames.len(),
                        ) by {
                            lemma_deep_seq_index(items@, j);
                            lemma_wf_val_mono(
                                deep_seq(items@)[j],
                                old(self)@.syms.len(),
                                old(self)@.frames.len(),
                                st1.syms.len(),
                                st1.frames.len(),
                            );
                        }
                    }
                    match head {
                        Value::Condition(_) => head,
                        Value::NativeProcedure(op) => self.apply_native_fn(op, items, 1, fuel - 1),
                        Value::Procedure(p) => self.apply_proc_fn(&p, items, 1, fuel - 1),
                        _ => {
                            let text = to_text(&head, &self.interner);
                            let mut m = String::from_str("tried to call ");
                            m.append(text.as_str());
                            m.append(", which is not possible");
                            let ghost mseq = m@;
                            let inner = Value::Str(m);
                            proof {
                                assert(deep(inner) == Val::Str(mseq));
                            }
                            let c = Value::Condition(Box::new(inner));
                            proof {
                                assert(mseq =~= not_callable_msg(printed(deep(head), st1.syms)));
                                lemma_wf_cond(
                                    not_callable_msg(printed(deep(head), st1.syms)),
                                    self@.syms.len(),
                                    self@.frames.len(),
                                );
                            }
                            c
                        },
                    }
                }
            },
            Value::SpecialForm(f) => self.eval_form(f, fuel),
            Value::Symbol(h) => {
                match self.scopes.lookup_symbol(self.current, *h) {
                    Some(b) => {
                        proof {
                            lemma_lookup_wf(
                                self@.frames,
                                self@.syms.len(),
                                self.current as int,
                                *h,
                            );
                        }
                        b
                    },
                    None => {
                        let text = to_text(v, &self.interner);
                        let mut m = String::from_str("undefined ident: ");
                        m.append(text.as_str());
                        let ghost mseq = m@;
                        let inner = Value::Str(m);
                        proof {
                            assert(deep(inner) == Val::Str(mseq));
                        }
                        let c = Value::Condition(Box::new(inner));
                        proof {
                            assert(mseq =~= undef_msg(printed(Val::Sym(*h), self@.syms)));
                            lemma_wf_cond(
                                undef_msg(printed(Val::Sym(*h), self@.syms)),
                                self@.syms.len(),
                                self@.frames.len(),
                            );
                        }
                        c
                    },
                }
            },
            _ => duplicate(v),
        }
    }

    fn eval_form(&mut self, f: &SpecialForm, fuel: u64) -> (r: Value)
        requires
            old(self).wf(),
            wf_form(deep_form(*f), old(self)@.syms.len(), old(self)@.frames.len()),
        ensures
            final(self).wf(),
            old(self)@.syms.len() <= final(self)@.syms.len(),
            old(self)@.frames.len() <= final(self)@.frames.len(),
            final(self)@ == form_spec(old(self)@, deep_form(*f), fuel as nat).0,
            deep(r) == form_spec(old(self)@, deep_form(*f), fuel as nat).1,
            wf_val(deep(r), final(self)@.syms.len(), final(self)@.frames.len()),
        decreases fuel as nat, 1int, 0int,
    {
        if fuel == 0 {
            proof {
                lemma_wf_cond(depth_msg(), self@.syms.len(), self@.frames.len());
            }
            return crate::native::cond_value("recursion depth exceeded");
        }
        match f {
            SpecialForm::Quote(e) => duplicate(e),
            SpecialForm::If(c, t, e) => {
                let cv = self.eval_fuel(c, fuel - 1);
                let ghost st1 = self@;
                match cv {
                    Value::Condition(_) => cv,
                    _ => {
                        let take_else = matches!(&cv, Value::Boolean(false));
                        proof {
                            crate::value::lemma_wf_form_mono(
                                deep_form(*f),
                                old(self)@.syms.len(),
                                old(self)@.frames.len(),
                                st1.syms.len(),
                                st1.frames.len(),
                            );
                        }
                        if take_else {
                            self.eval_fuel(e, fuel - 1)
                        } else {
                            self.eval_fuel(t, fuel - 1)
                        }
                    },
                }
            },
            SpecialForm::Define(h, e) => {
                let val = self.eval_fuel(e, fuel - 1);
                match val {
                    Value::Condition(_) => val,
                    _ => {
                        let ghost st1 = self@;
                        let ghost dv = deep(val);
                        self.scopes.add_symbol(self.current, *h, val);
                        proof {
                            let nf = self@.frames;
                            assert(parents_wf(nf)) by {
                                assert(forall|i: int|
                                    0 <= i < nf.len() ==> (#[trigger] nf[i]).parent == st1.frames[
                                        i
                                    ].parent);
                            }
                            assert(binds_wf(nf, self@.syms.len())) by {
                                assert forall|i: int, s: usize|
                                    0 <= i < nf.len() && #[trigger] nf[i].binds.contains_key(s)
                                    implies wf_val(
                                    nf[i].binds[s],
                                    self@.syms.len(),
                                    nf.len(),
                                ) by {
                                    if i == st1.current as int && s == *h {
                                        assert(nf[i].binds[s] == dv);
                                    } else {
                                        assert(nf[i].binds[s] == st1.frames[i].binds[s]);
                                    }
                                }
                            }
                        }
                        Value::Null
                    },
                }
            },
            SpecialForm::Lambda(ps, b) => {
                let params = crate::value::duplicate_params(ps);
                let body = duplicate(b);
                let r = Value::Procedure(Box::new(Procedure { params, body, env: self.current }));
                proof {
                    assert(deep(r) == form_spec(old(self)@, deep_form(*f), fuel as nat).1);
                }
                r
            },
        }
    }

    fn eval_args(&mut self, items: &Vec<Value>, start: usize, fuel: u64) -> (r: Result<
        Vec<Value>,
        Value,
    >)
        requires
            old(self).wf(),
            start <= items@.len(),
            forall|j: int|
                start <= j < items@.len() ==> wf_val(
                    deep(#[trigger] items@[j]),
                    old(self)@.syms.len(),
                    old(self)@.frames.len(),
                ),
        ensures
            final(self).wf(),
            old(self)@.syms.len() <= final(self)@.syms.len(),
            old(self)@.frames.len() <= final(self)@.frames.len(),
            final(self)@ == eval_args_spec(
                old(self)@,
                deep_seq(items@).subrange(start as int, items@.len() as int),
                fuel as nat,
            ).0,
            match r {
                Ok(vs) => {
                    &&& eval_args_spec(
                        old(self)@,
                        deep_seq(items@).subrange(start as int, items@.len() as int),
                        fuel as nat,
                    ).1 == Ok::<Seq<Val>, Val>(deep_seq(vs@))
                    &&& vs@.len() == items@.len() - start
                    &&& forall|j: int|
                        0 <= j < vs@.len() ==> wf_val(
                            deep(#[trigger] vs@[j]),
                            final(self)@.syms.len(),
                            final(self)@.frames.len(),
                        )
                },
                Err(c) => eval_args_spec(
                    old(self)@,
                    deep_seq(items@).subrange(start as int, items@.len() as int),
                    fuel as nat,
                ).1 == Err::<Seq<Val>, Val>(deep(c)) && wf_val(
                    deep(c),
                    final(self)@.syms.len(),
                    final(self)@.frames.len(),
                ),
            },
        decreases fuel as nat, 0int, items@.len() - start,
    {
        proof {
            lemma_deep_seq_len(items@);
        }
        let ghost full = deep_seq(items@);
        let ghost sub = full.subrange(start as int, items@.len() as int);
        if start == items.len() {
            let out: Vec<Value> = Vec::new();
            proof {
                assert(deep_seq(out@) =~= Seq::<Val>::empty());
                assert(sub =~= Seq::<Val>::empty());
            }
            return Ok(out);
        }
        if fuel == 0 {
            proof {
                lemma_wf_cond(depth_msg(), self@.syms.len(), self@.frames.len());
            }
            return Err(crate::native::cond_value("recursion depth exceeded"));
        }
        proof {
            lemma_deep_seq_index(items@, start as int);
            assert(sub[0] == deep(items@[start as int]));
        }
        let v0 = self.eval_fuel(&items[start], fuel - 1);
        let ghost dv0 = deep(v0);
        if matches!(&v0, Value::Condition(_)) {
            return Err(v0);
        }
        let ghost mid = self@;
        proof {
            assert forall|j: int| start + 1 <= j < items@.len() implies wf_val(
                deep(#[trigger] items@[j]),
                mid.syms.len(),
                mid.frames.len(),
            ) by {
                lemma_wf_val_mono(
                    deep(items@[j]),
                    old(self)@.syms.len(),
                    old(self)@.frames.len(),
                    mid.syms.len(),
                    mid.frames.len(),
                );
            }
            assert(sub.subrange(1, sub.len() as int) =~= full.subrange(
                start + 1,
                items@.len() as int,
            ));
        }
        let rest = self.eval_args(items, start + 1, fuel);
        match rest {
            Err(c) => Err(c),
            Ok(vs) => {
                let mut out: Vec<Value> = Vec::new();
                out.push(v0);
                let mut tail = vs;
                let ghost tail_snap = tail@;
                out.append(&mut tail);
                proof {
                    assert(deep(out@[0]) == dv0);
                    assert(out@.subrange(1, out@.len() as int) =~= tail_snap);
                    assert(deep_seq(out@) =~= seq![dv0] + deep_seq(tail_snap));
                    assert forall|j: int| 0 <= j < out@.len() implies wf_val(
                        deep(#[trigger] out@[j]),
                        self@.syms.len(),
                        self@.frames.len(),
                    ) by {
                        if j == 0 {
                            lemma_wf_val_mono(
                                dv0,
                                mid.syms.len(),
                                mid.frames.len(),
                                self@.syms.len(),
                                self@.frames.len(),
                            );
                        } else {
                            assert(out@[j] == tail_snap[j - 1]);
                        }
                    }
                }
                Ok(out)
            },
        }
    }

    fn apply_native_fn(&mut self, op: NativeOp, items: &Vec<Value>, start: usize, fuel: u64) -> (r:
        Value)
        requires
            old(self).wf(),
            start <= items@.len(),
            forall|j: int|
                start <= j < items@.len() ==> wf_val(
                    deep(#[trigger] items@[j]),
                    old(self)@.syms.len(),
                    old(self)@.frames.len(),
                ),
        ensures
            final(self).wf(),
            old(self)@.syms.len() <= final(self)@.syms.len(),
            old(self)@.frames.len() <= final(self)@.frames.len(),
            final(self)@ == apply_native_spec(
                old(self)@,
                op,
                deep_seq(items@).subrange(start as int, items@.len() as int),
                fuel as nat,
            ).0,
            deep(r) == apply_native_spec(
                old(self)@,
                op,
                deep_seq(items@).subrange(start as int, items@.len() as int),
                fuel as nat,
            ).1,
            wf_val(deep(r), final(self)@.syms.len(), final(self)@.frames.len()),
        decreases fuel as nat, 1int, 0int,
    {
        match self.eval_args(items, start, fuel) {
            Err(c) => c,
            Ok(vs) => {
                let ghost stm = self@;
                proof {
                    lemma_deep_seq_len(vs@);
                    assert forall|i: int| 0 <= i < deep_seq(vs@).len() implies wf_val(
                        #[trigger] deep_seq(vs@)[i],
                        stm.syms.len(),
                        stm.frames.len(),
                    ) by {
                        lemma_deep_seq_index(vs@, i);
                    }
                    lemma_native_step_wf(stm.syms, op, deep_seq(vs@), stm.frames.len());
                }
                let r = native_step(&mut self.interner, op, vs);
                proof {
                    assert(binds_wf(self@.frames, self@.syms.len())) by {
                        assert forall|i: int, s: usize|
                            0 <= i < self@.frames.len() && #[trigger] self@.frames[
                                i
                            ].binds.contains_key(s) implies wf_val(
                            self@.frames[i].binds[s],
                            self@.syms.len(),
                            self@.frames.len(),
                        ) by {
                            lemma_wf_val_mono(
                                self@.frames[i].binds[s],
                                stm.syms.len(),
                                stm.frames.len(),
                                self@.syms.len(),
                                self@.frames.len(),
                            );
                        }
                    }
                }
                r
            },
        }
    }

    fn apply_proc_fn(&mut self, p: &Procedure, items: &Vec<Value>, start: usize, fuel: u64) -> (r:
        Value)
        requires
            old(self).wf(),
            start <= items@.len(),
            forall|j: int|
                start <= j < items@.len() ==> wf_val(
                    deep(#[trigger] items@[j]),
                    old(self)@.syms.len(),
                    old(self)@.frames.len(),
                ),
            p.env < old(self)@.frames.len(),
            wf_val(deep(p.body), old(self)@.syms.len(), old(self)@.frames.len()),
        ensures
            final(self).wf(),
            old(self)@.syms.len() <= final(self)@.syms.len(),
            old(self)@.frames.len() <= final(self)@.frames.len(),
            final(self)@ == apply_proc_spec(
                old(self)@,
                ProcV { params: p.params@, body: Box::new(deep(p.body)), env: p.env },
                deep_seq(items@).subrange(start as int, items@.len() as int),
                fuel as nat,
            ).0,
            deep(r) == apply_proc_spec(
                old(self)@,
                ProcV { params: p.params@, body: Box::new(deep(p.body)), env: p.env },
                deep_seq(items@).subrange(start as int, items@.len() as int),
                fuel as nat,
            ).1,
            wf_val(deep(r), final(self)@.syms.len(), final(self)@.frames.len()),
        decreases fuel as nat, 1int, 1int,
    {
        if fuel == 0 {
            proof {
                lemma_wf_cond(depth_msg(), self@.syms.len(), self@.frames.len());
            }
            return crate::native::cond_value("recursion depth exceeded");
        }
        match self.eval_args(items, start, fuel) {
            Err(c) => c,
            Ok(vs) => {
                proof {
                    lemma_deep_seq_len(vs@);
                }
                if p.params.len() != vs.len() {
                    proof {
                        lemma_wf_cond(arity_msg(), self@.syms.len(), self@.frames.len());
                    }
                    crate::native::cond_value("wrong number of arguments")
                } else {
                    let ghost st1 = self@;
                    let ghost vals = deep_seq(vs@);
                    proof {
                        lemma_deep_seq_len(vs@);
                    }
                    let child = self.scopes.new_frame(p.env);
                    let n = p.params.len();
                    let mut i: usize = 0;
                    proof {
                        assert(binds_of(
                            p.params@.subrange(0, 0),
                            vals.subrange(0, 0),
                        ) =~= Map::<usize, Val>::empty());
                        assert(self@.frames =~= st1.frames.push(
                            FrameV {
                                parent: Some(p.env),
                                binds: binds_of(p.params@.subrange(0, 0), vals.subrange(0, 0)),
                            },
                        ));
                    }
                    while i < n
                        invariant
                            n == p.params@.len(),
                            n == vs@.len(),
                            vals.len() == n,
                            i <= n,
                            child == st1.frames.len(),
                            self@.syms == st1.syms,
                            self@.current == st1.current,
                            self@.frames == st1.frames.push(
                                FrameV {
                                    parent: Some(p.env),
                                    binds: binds_of(
                                        p.params@.subrange(0, i as int),
                                        vals.subrange(0, i as int),
                                    ),
                                },
                            ),
                            vals == deep_seq(vs@),
                            parents_wf(st1.frames),
                            binds_wf(st1.frames, st1.syms.len()),
                            st1.current < st1.frames.len(),
                            p.env < st1.frames.len(),
                            forall|j: int|
                                0 <= j < vs@.len() ==> wf_val(
                                    deep(#[trigger] vs@[j]),
                                    st1.syms.len(),
                                    st1.frames.len(),
                                ),
                        decreases n - i,
                    {
                        proof {
                            lemma_deep_seq_index(vs@, i as int);
                            assert(p.params@.subrange(0, i + 1).drop_last() =~= p.params@.subrange(
                                0,
                                i as int,
                            ));
                            assert(vals.subrange(0, i + 1).drop_last() =~= vals.subrange(
                                0,
                                i as int,
                            ));
                            assert(p.params@.subrange(0, i + 1).last() == p.params@[i as int]);
                            assert(vals.subrange(0, i + 1).last() == vals[i as int]);
                        }
                        let bound = duplicate(&vs[i]);
                        self.scopes.add_symbol(child, p.params[i], bound);
                        proof {
                            assert(self@.frames =~= st1.frames.push(
                                FrameV {
                                    parent: Some(p.env),
                                    binds: binds_of(
                                        p.params@.subrange(0, i + 1),
                                        vals.subrange(0, i + 1),
                                    ),
                                },
                            ));
                        }
                        i = i + 1;
                    }
                    proof {
                        assert(p.params@.subrange(0, n as int) =~= p.params@);
                        assert(vals.subrange(0, n as int) =~= vals);
                    }
                    let saved = self.current;
                    self.current = child;
                    proof {
                        assert(self@ == StateV {
                            syms: st1.syms,
                            frames: st1.frames.push(
                                FrameV { parent: Some(p.env), binds: binds_of(p.params@, vals) },
                            ),
                            current: child,
                        });
                        let nf = self@.frames;
                        assert(parents_wf(nf)) by {
                            assert(forall|i2: int|
                                0 <= i2 < st1.frames.len() ==> nf[i2] == st1.frames[i2]);
                        }
                        assert forall|j: int| 0 <= j < vals.len() implies wf_val(
                            #[trigger] vals[j],
                            st1.syms.len(),
                            st1.frames.len(),
                        ) by {
                            lemma_deep_seq_index(vs@, j);
                        }
                        lemma_binds_of_wf(p.params@, vals, st1.syms.len(), st1.frames.len());
                        assert(binds_wf(nf, self@.syms.len())) by {
                            assert forall|i2: int, s: usize|
                                0 <= i2 < nf.len() && #[trigger] nf[i2].binds.contains_key(s)
                                implies wf_val(nf[i2].binds[s], self@.syms.len(), nf.len()) by {
                                lemma_wf_val_mono(
                                    nf[i2].binds[s],
                                    st1.syms.len(),
                                    st1.frames.len(),
                                    self@.syms.len(),
                                    nf.len(),
                                );
                            }
                        }
                        lemma_wf_val_mono(
                            deep(p.body),
                            old(self)@.syms.len(),
                            old(self)@.frames.len(),
                            self@.syms.len(),
                            self@.frames.len(),
                        );
                    }
                    let ghost entered = self@;
                    let ret = self.eval_fuel(&p.body, fuel - 1);
                    let ghost after_body = self@;
                    self.current = saved;
                    proof {
                        assert(self@ == StateV {
                            syms: after_body.syms,
                            frames: after_body.frames,
                            current: st1.current,
                        });
                        assert(after_body == eval_spec(
                            entered,
                            deep(p.body),
                            (fuel - 1) as nat,
                        ).0);
                    }
                    ret
                }
            },
        }
    }
}


/// The names pre-bound in the global frame at startup, in interning
/// order: the handle of `init_names()[k]` is `k`.
pub open spec fn init_names() -> Seq<Seq<char>> {
    seq![
        "eq?"@,
        "null?"@,
        "boolean?"@,
        "symbol?"@,
        "integer?"@,
        "char?"@,
        "string?"@,
        "procedure?"@,
        "list?"@,
        "char->integer"@,
        "integer->char"@,
        "number->string"@,
        "string->number"@,
        "symbol->string"@,
        "string->symbol"@,
        "+"@,
        "-"@,
        "*"@,
        "quotient"@,
        "remainder"@,
        "="@,
        ">"@,
        ">="@,
        "<"@,
        "<="@,
        "list"@,
        "first"@,
        "rest"@,
        "symbol-space"@,
    ]
}

/// The native table, in the same order as `init_names()`.
pub open spec fn init_ops() -> Seq<NativeOp> {
    seq![
        NativeOp::PolyEq,
        NativeOp::IsNull,
        NativeOp::IsBoolean,
        NativeOp::IsSymbol,
        NativeOp::IsInteger,
        NativeOp::IsChar,
        NativeOp::IsString,
        NativeOp::IsProcedure,
        NativeOp::IsList,
        NativeOp::CharToInteger,
        NativeOp::IntegerToChar,
        NativeOp::NumberToString,
        NativeOp::StringToNumber,
        NativeOp::SymbolToString,
        NativeOp::StringToSymbol,
        NativeOp::Plus,
        NativeOp::Minus,
        NativeOp::Multiply,
        NativeOp::Quotient,
        NativeOp::Remainder,
        NativeOp::NumEq,
        NativeOp::Gt,
        NativeOp::Ge,
        NativeOp::Lt,
        NativeOp::Le,
        NativeOp::MakeList,
        NativeOp::First,
        NativeOp::Rest,
        NativeOp::SymbolSpace,
    ]
}

} // verus!
