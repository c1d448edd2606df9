use vstd::prelude::*;
use crate::chain::{Wrapper, run_chain, run_model, state_of, ChainState};
use crate::context::Context;
use crate::http::{Method, Response, ResponseModel, opt_response_model};
use crate::paths::{split_path, path_segments, views_of};
use crate::pattern::{
    Node, NodeModel, SegPattern, RouteEntry, node_model, ins_model, resolve_model, insert_route,
    resolve_from, fresh_model,
};

verus! {

/// The application: the route tree and the global middleware chain. Both
/// are built once at startup and only read while requests are served.
pub struct App {
    pub root: Node,
    pub chain: Vec<Wrapper>,
}

/// Whether a route's method list admits a method; an empty list admits
/// every method.
pub open spec fn method_allowed(methods: Seq<Method>, m: Method) -> bool {
    methods.len() == 0 || exists|i: int| 0 <= i < methods.len() && methods[i] == m
}

/// Decide `method_allowed` at run time.
pub fn method_allowed_exec(methods: &Vec<Method>, m: Method) -> (r: bool)
    ensures
        r == method_allowed(methods@, m),
{
    let n = methods.len();
    if n == 0 {
        return true;
    }
    let mut i: usize = 0;
    while i < n
        invariant
            n == methods@.len(),
            i <= n,
            forall|k: int| 0 <= k < i ==> methods@[k] != m,
        decreases n - i,
    {
        if methods[i] == m {
            return true;
        }
        i = i + 1;
    }
    false
}

/// The chain that serves a resolved route: the route's replacement chain
/// if it declared one, otherwise the application chain.
pub open spec fn effective_chain(app_chain: Seq<Wrapper>, e: RouteEntry) -> Seq<Wrapper> {
    match e.override_chain {
        Some(oc) => oc@,
        None => app_chain,
    }
}

/// The state of a context no layer has touched yet.
pub open spec fn initial_state() -> ChainState {
    ChainState {
        response: None,
        locals: Map::empty(),
        param: None,
        trace: Seq::empty(),
    }
}

impl App {
    /// An application with no routes and no middleware.
    pub fn new() -> (a: App)
        ensures
            node_model(a.root) == fresh_model(SegPattern::Any),
            a.chain@ == Seq::<Wrapper>::empty(),
    {
        let a = App {
            root: Node { pat: SegPattern::Any, children: Vec::new(), route: None },
            chain: Vec::new(),
        };
        proof {
            assert(crate::pattern::models_of(a.root.children@) =~= Seq::<NodeModel>::empty());
            assert(node_model(a.root) =~= fresh_model(SegPattern::Any));
            assert(a.chain@ =~= Seq::<Wrapper>::empty());
        }
        a
    }

    /// Register a route: walk the tree along the pattern segments, create
    /// nodes as needed, and bind the entry at the end. Registering the same
    /// path again replaces the entry: the last registration wins.
    pub fn register(&mut self, pats: Vec<SegPattern>, entry: RouteEntry)
        ensures
            node_model(final(self).root) == ins_model(node_model(old(self).root), pats@, entry),
            final(self).chain == old(self).chain,
    {
        insert_route(&mut self.root, pats, entry);
    }

    /// Append a wrapper at the inner end of the application chain: it will
    /// run after (inside) every wrapper appended before it.
    pub fn append_middleware(&mut self, w: Wrapper)
        ensures
            final(self).chain@ == old(self).chain@.push(w),
            final(self).root == old(self).root,
    {
        self.chain.push(w);
    }

    /// Resolve already-split path segments against the route tree.
    pub fn resolve<'a>(&'a self, segs: &Vec<String>) -> (r: Option<(&'a RouteEntry, Vec<String>)>)
        ensures
            match r {
                Some(pair) => resolve_model(node_model(self.root), views_of(segs@)) == Some(
                    (*pair.0, views_of(pair.1@)),
                ),
                None => resolve_model(node_model(self.root), views_of(segs@)) is None,
            },
    {
        let r = resolve_from(&self.root, segs, 0);
        proof {
            assert(views_of(segs@).skip(0) =~= views_of(segs@));
        }
        r
    }

    /// Serve one request: split the path, resolve it, and on a match run
    /// the effective chain on a fresh context. No route gives the
    /// 404-equivalent, a route that does not allow the method gives the
    /// 405-equivalent; both are terminal responses and leave the
    /// application ready for further requests.
    pub fn dispatch(&self, method: Method, path: &str) -> (out: Context)
        ensures
            out.method == method,
            out.path@ == path@,
            out.response is Some,
            match resolve_model(node_model(self.root), path_segments(path@)) {
                None => {
                    &&& opt_response_model(out.response) == Some(
                        ResponseModel { status: 404, body: Seq::<char>::empty() },
                    )
                    &&& out.captures@.len() == 0
                    &&& out.trace@ == Seq::<crate::context::TraceEvent>::empty()
                },
                Some(pair) => {
                    &&& views_of(out.captures@) == pair.1
                    &&& if !method_allowed(pair.0.allowed_methods@, method) {
                        &&& opt_response_model(out.response) == Some(
                            ResponseModel { status: 405, body: Seq::<char>::empty() },
                        )
                        &&& out.trace@ == Seq::<crate::context::TraceEvent>::empty()
                    } else {
                        state_of(out) == run_model(
                            effective_chain(self.chain@, pair.0),
                            0,
                            pair.0.handler,
                            path@,
                            pair.1,
                            initial_state(),
                        )
                    }
                },
            },
    {
        let segs = split_path(path);
        match self.resolve(&segs) {
            None => {
                let mut c = Context::new(method, path.to_owned(), Vec::new());
                proof {
                    assert(views_of(Seq::<String>::empty()) =~= Seq::<Seq<char>>::empty());
                }
                c.response = Some(Response::not_found());
                c
            },
            Some((entry, caps)) => {
                if !method_allowed_exec(&entry.allowed_methods, method) {
                    let mut c = Context::new(method, path.to_owned(), caps);
                    c.response = Some(Response::method_not_allowed());
                    c
                } else {
                    let mut c = Context::new(method, path.to_owned(), caps);
                    proof {
                        assert(state_of(c) =~= initial_state());
                    }
                    let ghost caps0 = views_of(c.captures@);
                    match &entry.override_chain {
                        Some(oc) => {
                            run_chain(oc, 0, &entry.handler, &mut c);
                            proof {
                                crate::chain::law_chain_always_answers(
                                    oc@,
                                    0,
                                    entry.handler,
                                    path@,
                                    caps0,
                                    initial_state(),
                                );
                            }
                        },
                        None => {
                            run_chain(&self.chain, 0, &entry.handler, &mut c);
                            proof {
                                crate::chain::law_chain_always_answers(
                                    self.chain@,
                                    0,
                                    entry.handler,
                                    path@,
                                    caps0,
                                    initial_state(),
                                );
                            }
                        },
                    }
                    c
                }
            },
        }
    }
}

} // verus!
