use vstd::prelude::*;
use crate::context::{Context, TraceEvent};
use crate::http::{Response, ResponseModel, opt_response_model};
use crate::value::{StoredValue, ValueModel};

verus! {

/// The innermost continuation of a chain: what the route's bound handler
/// does with the context once every wrapper has forwarded.
pub enum Handler {
    /// Answer with this response, whatever the context holds.
    Fixed(Response),
    /// Answer 200 with the captured segment at this index as the body, or
    /// with an empty body when fewer segments were captured.
    EchoCapture(usize),
}

/// One middleware wrapper. A wrapper either forwards to its continuation
/// exactly once — possibly with work before and after — or produces a
/// terminal response itself and never forwards; re-entry cannot be
/// expressed, so invoking a continuation twice is impossible by
/// construction.
pub enum Wrapper {
    /// Record the marker on the way in, then forward: pure pre-processing.
    PreLog(u64),
    /// Record the marker on the way in and again after the continuation
    /// returns: pre- and post-processing.
    AroundLog(u64),
    /// If the request path equals the first field, set the second field as
    /// the terminal response and do not forward; otherwise forward.
    Gate(String, Response),
    /// Deposit a keyed value and the anonymous parameter for inner layers,
    /// then forward.
    Deposit(String, StoredValue, StoredValue),
    /// Forward, then take the keyed value and the anonymous parameter that
    /// inner layers left behind.
    Collect(String),
}

/// The parts of a `Context` that chain execution may change.
#[verifier::ext_equal]
pub struct ChainState {
    pub response: Option<ResponseModel>,
    pub locals: Map<Seq<char>, ValueModel>,
    pub param: Option<ValueModel>,
    pub trace: Seq<TraceEvent>,
}

/// The mutable parts of a context, gathered for the execution model.
pub open spec fn state_of(c: Context) -> ChainState {
    ChainState {
        response: opt_response_model(c.response),
        locals: c.locals_model(),
        param: match c.param {
            Some(v) => Some(v@),
            None => None,
        },
        trace: c.trace@,
    }
}

/// What the bound handler answers, given the captured segments.
pub open spec fn handler_response(h: Handler, captures: Seq<Seq<char>>) -> ResponseModel {
    match h {
        Handler::Fixed(r) => r@,
        Handler::EchoCapture(i) => ResponseModel {
            status: 200,
            body: if i < captures.len() {
                captures[i as int]
            } else {
                Seq::empty()
            },
        },
    }
}

/// Executing the chain from position `i` inward: the innermost continuation
/// is the handler; each wrapper wraps the continuation formed by the
/// wrappers after it. Pre-processing therefore happens front to back, and
/// post-processing back to front, in strict call/return nesting.
pub open spec fn run_model(
    chain: Seq<Wrapper>,
    i: int,
    h: Handler,
    path: Seq<char>,
    captures: Seq<Seq<char>>,
    st: ChainState,
) -> ChainState
    decreases chain.len() - i when 0 <= i <= chain.len()
{
    if i == chain.len() {
        ChainState {
            response: Some(handler_response(h, captures)),
            trace: st.trace.push(TraceEvent::HandlerRun),
            ..st
        }
    } else {
        match chain[i] {
            Wrapper::PreLog(id) => run_model(
                chain,
                i + 1,
                h,
                path,
                captures,
                ChainState { trace: st.trace.push(TraceEvent::Enter(id)), ..st },
            ),
            Wrapper::AroundLog(id) => {
                let mid = run_model(
                    chain,
                    i + 1,
                    h,
                    path,
                    captures,
                    ChainState { trace: st.trace.push(TraceEvent::Enter(id)), ..st },
                );
                ChainState { trace: mid.trace.push(TraceEvent::Leave(id)), ..mid }
            },
            Wrapper::Gate(p, r) => if p@ == path {
                ChainState { response: Some(r@), ..st }
            } else {
                run_model(chain, i + 1, h, path, captures, st)
            },
            Wrapper::Deposit(k, v, pv) => run_model(
                chain,
                i + 1,
                h,
                path,
                captures,
                ChainState { locals: st.locals.insert(k@, v@), param: Some(pv@), ..st },
            ),
            Wrapper::Collect(k) => {
                let mid = run_model(chain, i + 1, h, path, captures, st);
                ChainState { locals: mid.locals.remove(k@), param: None, ..mid }
            },
        }
    }
}

/// Run the bound handler on the context: it sets the response and its run
/// is recorded.
pub fn run_handler(h: &Handler, ctx: &mut Context)
    requires
        old(ctx).locals_wf(),
    ensures
        final(ctx).locals_wf(),
        final(ctx).method == old(ctx).method,
        final(ctx).path == old(ctx).path,
        final(ctx).captures == old(ctx).captures,
        state_of(*final(ctx)) == (ChainState {
            response: Some(
                handler_response(*h, crate::paths::views_of(old(ctx).captures@)),
            ),
            trace: state_of(*old(ctx)).trace.push(TraceEvent::HandlerRun),
            ..state_of(*old(ctx))
        }),
{
    match h {
        Handler::Fixed(r) => {
            ctx.response = Some(r.duplicate());
        },
        Handler::EchoCapture(i) => {
            let body: String = if *i < ctx.captures.len() {
                ctx.captures[*i].clone()
            } else {
                String::new()
            };
            proof {
                if *i < ctx.captures.len() {
                    assert(crate::paths::views_of(ctx.captures@)[*i as int] == ctx.captures@[*i
                        as int]@);
                }
            }
            ctx.response = Some(Response::text(body));
        },
    }
    ctx.record(TraceEvent::HandlerRun);
    proof {
        assert(state_of(*ctx) =~= (ChainState {
            response: Some(handler_response(*h, crate::paths::views_of(old(ctx).captures@))),
            trace: state_of(*old(ctx)).trace.push(TraceEvent::HandlerRun),
            ..state_of(*old(ctx))
        }));
    }
}

/// Execute the chain from position `i` inward on the context, exactly as
/// `run_model` describes: ownership of the context passes to each layer in
/// turn and returns when its continuation is done.
pub fn run_chain(chain: &Vec<Wrapper>, i: usize, h: &Handler, ctx: &mut Context)
    requires
        i <= chain@.len(),
        old(ctx).locals_wf(),
    ensures
        final(ctx).locals_wf(),
        final(ctx).method == old(ctx).method,
        final(ctx).path == old(ctx).path,
        final(ctx).captures == old(ctx).captures,
        state_of(*final(ctx)) == run_model(
            chain@,
            i as int,
            *h,
            old(ctx).path@,
            crate::paths::views_of(old(ctx).captures@),
            state_of(*old(ctx)),
        ),
    decreases chain@.len() - i,
{
    if i == chain.len() {
        run_handler(h, ctx);
        return ;
    }
    match &chain[i] {
        Wrapper::PreLog(id) => {
            ctx.record(TraceEvent::Enter(*id));
            proof {
                assert(state_of(*ctx) =~= (ChainState {
                    trace: state_of(*old(ctx)).trace.push(TraceEvent::Enter(*id)),
                    ..state_of(*old(ctx))
                }));
            }
            run_chain(chain, i + 1, h, ctx);
        },
        Wrapper::AroundLog(id) => {
            ctx.record(TraceEvent::Enter(*id));
            proof {
                assert(state_of(*ctx) =~= (ChainState {
                    trace: state_of(*old(ctx)).trace.push(TraceEvent::Enter(*id)),
                    ..state_of(*old(ctx))
                }));
            }
            run_chain(chain, i + 1, h, ctx);
            ctx.record(TraceEvent::Leave(*id));
        },
        Wrapper::Gate(p, r) => {
            if ctx.path == *p {
                ctx.response = Some(r.duplicate());
                proof {
                    assert(state_of(*ctx) =~= (ChainState {
                        response: Some(chain@[i as int]->Gate_1@),
                        ..state_of(*old(ctx))
                    }));
                }
            } else {
                run_chain(chain, i + 1, h, ctx);
            }
        },
        Wrapper::Deposit(k, v, pv) => {
            ctx.set_local(k.clone(), v.duplicate());
            ctx.set_param(pv.duplicate());
            proof {
                assert(state_of(*ctx) =~= (ChainState {
                    locals: state_of(*old(ctx)).locals.insert(
                        chain@[i as int]->Deposit_0@,
                        chain@[i as int]->Deposit_1@,
                    ),
                    param: Some(chain@[i as int]->Deposit_2@),
                    ..state_of(*old(ctx))
                }));
            }
            run_chain(chain, i + 1, h, ctx);
        },
        Wrapper::Collect(k) => {
            run_chain(chain, i + 1, h, ctx);
            let ghost mid = state_of(*ctx);
            let _ = ctx.take_local(k);
            let _ = ctx.take_param();
            proof {
                if !mid.locals.contains_key(k@) {
                    assert(mid.locals.remove(k@) =~= mid.locals);
                }
                assert(state_of(*ctx) =~= (ChainState {
                    locals: mid.locals.remove(chain@[i as int]->Collect_0@),
                    param: None,
                    ..mid
                }));
            }
        },
    }
}

/// A chain of wrappers that each log on the way in and on the way out.
pub open spec fn around_chain(ids: Seq<u64>) -> Seq<Wrapper> {
    Seq::new(ids.len(), |i: int| Wrapper::AroundLog(ids[i]))
}

/// The markers of `ids`, entered in order.
pub open spec fn enters_of(ids: Seq<u64>) -> Seq<TraceEvent> {
    Seq::new(ids.len(), |i: int| TraceEvent::Enter(ids[i]))
}

/// The markers of `ids`, left in reverse order.
pub open spec fn leaves_rev(ids: Seq<u64>) -> Seq<TraceEvent> {
    Seq::new(ids.len(), |i: int| TraceEvent::Leave(ids[ids.len() - 1 - i]))
}

proof fn lemma_nesting(
    ids: Seq<u64>,
    i: int,
    h: Handler,
    path: Seq<char>,
    captures: Seq<Seq<char>>,
    st: ChainState,
)
    requires
        0 <= i <= ids.len(),
    ensures
        run_model(around_chain(ids), i, h, path, captures, st).trace == st.trace + enters_of(
            ids.skip(i),
        ) + seq![TraceEvent::HandlerRun] + leaves_rev(ids.skip(i)),
    decreases ids.len() - i,
{
    let chain = around_chain(ids);
    if i == ids.len() {
        assert(st.trace + enters_of(ids.skip(i)) + seq![TraceEvent::HandlerRun] + leaves_rev(
            ids.skip(i),
        ) =~= st.trace.push(TraceEvent::HandlerRun));
    } else {
        let id = ids[i];
        let st1 = ChainState { trace: st.trace.push(TraceEvent::Enter(id)), ..st };
        lemma_nesting(ids, i + 1, h, path, captures, st1);
        let mid = run_model(chain, i + 1, h, path, captures, st1);
        assert(run_model(chain, i, h, path, captures, st).trace == mid.trace.push(
            TraceEvent::Leave(id),
        ));
        assert(mid.trace.push(TraceEvent::Leave(id)) =~= st.trace + enters_of(ids.skip(i))
            + seq![TraceEvent::HandlerRun] + leaves_rev(ids.skip(i))) by {
            assert(ids.skip(i)[0] == id);
            assert(ids.skip(i + 1) =~= ids.skip(i).skip(1));
            assert(st1.trace + enters_of(ids.skip(i + 1)) =~= st.trace + enters_of(ids.skip(i)));
            assert(leaves_rev(ids.skip(i + 1)).push(TraceEvent::Leave(id)) =~= leaves_rev(
                ids.skip(i),
            ));
        }
    }
}

/// Law: wrappers appended in a given order pre-process front to back, then
/// the handler runs, then they post-process back to front — strict
/// call/return nesting. Stated for a chain of logging wrappers, whose trace
/// makes the order observable.
pub proof fn law_nesting_order(
    ids: Seq<u64>,
    h: Handler,
    path: Seq<char>,
    captures: Seq<Seq<char>>,
    st: ChainState,
)
    ensures
        run_model(around_chain(ids), 0, h, path, captures, st).trace == st.trace + enters_of(ids)
            + seq![TraceEvent::HandlerRun] + leaves_rev(ids),
{
    lemma_nesting(ids, 0, h, path, captures, st);
    assert(ids.skip(0) =~= ids);
}

/// Law: chain execution always ends with a terminal response in place —
/// from the handler, or from a short-circuiting wrapper; post-processing
/// never clears it. Extracting the final response is therefore total.
pub proof fn law_chain_always_answers(
    chain: Seq<Wrapper>,
    i: int,
    h: Handler,
    path: Seq<char>,
    captures: Seq<Seq<char>>,
    st: ChainState,
)
    requires
        0 <= i <= chain.len(),
    ensures
        run_model(chain, i, h, path, captures, st).response is Some,
    decreases chain.len() - i,
{
    if i < chain.len() {
        match chain[i] {
            Wrapper::PreLog(id) => {
                law_chain_always_answers(
                    chain,
                    i + 1,
                    h,
                    path,
                    captures,
                    ChainState { trace: st.trace.push(TraceEvent::Enter(id)), ..st },
                );
            },
            Wrapper::AroundLog(id) => {
                law_chain_always_answers(
                    chain,
                    i + 1,
                    h,
                    path,
                    captures,
                    ChainState { trace: st.trace.push(TraceEvent::Enter(id)), ..st },
                );
            },
            Wrapper::Gate(p, _) => {
                if p@ != path {
                    law_chain_always_answers(chain, i + 1, h, path, captures, st);
                }
            },
            Wrapper::Deposit(k, v, pv) => {
                law_chain_always_answers(
                    chain,
                    i + 1,
                    h,
                    path,
                    captures,
                    ChainState { locals: st.locals.insert(k@, v@), param: Some(pv@), ..st },
                );
            },
            Wrapper::Collect(_) => {
                law_chain_always_answers(chain, i + 1, h, path, captures, st);
            },
        }
    }
}

/// Whether this wrapper is a gate that short-circuits on this path.
pub open spec fn gate_fires(w: Wrapper, path: Seq<char>) -> bool {
    match w {
        Wrapper::Gate(p, _) => p@ == path,
        _ => false,
    }
}

/// The response a gate short-circuits with.
pub open spec fn gate_response(w: Wrapper) -> ResponseModel {
    match w {
        Wrapper::Gate(_, r) => r@,
        _ => arbitrary(),
    }
}

proof fn lemma_gate_cuts(
    chain1: Seq<Wrapper>,
    chain2: Seq<Wrapper>,
    h1: Handler,
    h2: Handler,
    caps1: Seq<Seq<char>>,
    caps2: Seq<Seq<char>>,
    k: int,
    i: int,
    path: Seq<char>,
    st: ChainState,
)
    requires
        0 <= i <= k < chain1.len(),
        k < chain2.len(),
        chain1.take(k + 1) == chain2.take(k + 1),
        gate_fires(chain1[k], path),
        forall|j: int| 0 <= j < k ==> !gate_fires(chain1[j], path),
    ensures
        run_model(chain1, i, h1, path, caps1, st) == run_model(chain2, i, h2, path, caps2, st),
        run_model(chain1, i, h1, path, caps1, st).response == Some(gate_response(chain1[k])),
    decreases k - i,
{
    assert(chain1.take(k + 1)[i] == chain1[i]);
    assert(chain2.take(k + 1)[i] == chain2[i]);
    assert(chain1[i] == chain2[i]);
    if i == k {
    } else {
        match chain1[i] {
            Wrapper::PreLog(id) => {
                lemma_gate_cuts(
                    chain1,
                    chain2,
                    h1,
                    h2,
                    caps1,
                    caps2,
                    k,
                    i + 1,
                    path,
                    ChainState { trace: st.trace.push(TraceEvent::Enter(id)), ..st },
                );
            },
            Wrapper::AroundLog(id) => {
                lemma_gate_cuts(
                    chain1,
                    chain2,
                    h1,
                    h2,
                    caps1,
                    caps2,
                    k,
                    i + 1,
                    path,
                    ChainState { trace: st.trace.push(TraceEvent::Enter(id)), ..st },
                );
            },
            Wrapper::Gate(p, r) => {
                assert(!gate_fires(chain1[i], path));
                lemma_gate_cuts(chain1, chain2, h1, h2, caps1, caps2, k, i + 1, path, st);
            },
            Wrapper::Deposit(kk, v, pv) => {
                lemma_gate_cuts(
                    chain1,
                    chain2,
                    h1,
                    h2,
                    caps1,
                    caps2,
                    k,
                    i + 1,
                    path,
                    ChainState { locals: st.locals.insert(kk@, v@), param: Some(pv@), ..st },
                );
            },
            Wrapper::Collect(kk) => {
                lemma_gate_cuts(chain1, chain2, h1, h2, caps1, caps2, k, i + 1, path, st);
            },
        }
    }
}

/// Law: a short-circuiting wrapper prevents the handler and every inner
/// wrapper from executing. If the first firing gate stands at position `k`,
/// the outcome of the whole chain is the same whatever stands after `k` and
/// whatever the handler is, and the response is the one the firing wrapper carries.
pub proof fn law_short_circuit(
    chain1: Seq<Wrapper>,
    chain2: Seq<Wrapper>,
    h1: Handler,
    h2: Handler,
    caps1: Seq<Seq<char>>,
    caps2: Seq<Seq<char>>,
    k: int,
    path: Seq<char>,
    st: ChainState,
)
    requires
        0 <= k < chain1.len(),
        k < chain2.len(),
        chain1.take(k + 1) == chain2.take(k + 1),
        gate_fires(chain1[k], path),
        forall|j: int| 0 <= j < k ==> !gate_fires(chain1[j], path),
    ensures
        run_model(chain1, 0, h1, path, caps1, st) == run_model(chain2, 0, h2, path, caps2, st),
        run_model(chain1, 0, h1, path, caps1, st).response == Some(gate_response(chain1[k])),
{
    lemma_gate_cuts(chain1, chain2, h1, h2, caps1, caps2, k, 0, path, st);
}

} // verus!
