use vstd::prelude::*;
use crate::chain::{Handler, Wrapper};
use crate::http::Method;
use crate::rx::regex_match;
use crate::paths::views_of;

verus! {

/// One matchable path segment, classified at registration time.
pub enum SegPattern {
    /// Matches exactly this segment text.
    Literal(String),
    /// Matches a segment the regular expression matches.
    Regex(String),
    /// Matches the whole remaining path, one or more segments; tried last.
    Any,
}

/// What a resolved route binds: the handler, the methods it allows (an
/// empty list allows every method), and an optional chain that replaces the
/// application-level one for this route alone.
pub struct RouteEntry {
    pub handler: Handler,
    pub allowed_methods: Vec<Method>,
    pub override_chain: Option<Vec<Wrapper>>,
}

impl RouteEntry {
    /// An entry that allows every method and uses the application chain.
    pub fn new(handler: Handler) -> (e: RouteEntry)
        ensures
            e.handler == handler,
            e.allowed_methods@ == Seq::<Method>::empty(),
            e.override_chain is None,
    {
        let e = RouteEntry { handler, allowed_methods: Vec::new(), override_chain: None };
        proof {
            assert(e.allowed_methods@ =~= Seq::<Method>::empty());
        }
        e
    }

    /// The same entry, restricted to the given methods.
    pub fn with_methods(self, methods: Vec<Method>) -> (e: RouteEntry)
        ensures
            e.handler == self.handler,
            e.allowed_methods == methods,
            e.override_chain == self.override_chain,
    {
        RouteEntry { allowed_methods: methods, ..self }
    }

    /// The same entry, with a chain that replaces the application one.
    pub fn with_override(self, chain: Vec<Wrapper>) -> (e: RouteEntry)
        ensures
            e.handler == self.handler,
            e.allowed_methods == self.allowed_methods,
            e.override_chain == Some(chain),
    {
        RouteEntry { override_chain: Some(chain), ..self }
    }
}

/// A node of the route tree: its own pattern, its children in registration
/// order, and the entry bound here if some registered path ends here.
pub struct Node {
    pub pat: SegPattern,
    pub children: Vec<Node>,
    pub route: Option<RouteEntry>,
}

/// Mathematical image of a tree node.
#[verifier::ext_equal]
pub struct NodeModel {
    pub pat: SegPattern,
    pub children: Seq<NodeModel>,
    pub route: Option<RouteEntry>,
}

/// The images of a sequence of nodes.
pub open spec fn models_of(cs: Seq<Node>) -> Seq<NodeModel>
    decreases cs,
{
    if cs.len() == 0 {
        Seq::<NodeModel>::empty()
    } else {
        seq![node_model(cs[0])] + models_of(cs.skip(1))
    }
}

/// The image of a node sequence is the sequence of the images.
pub proof fn lemma_models_of(cs: Seq<Node>)
    ensures
        models_of(cs).len() == cs.len(),
        forall|i: int| 0 <= i < cs.len() ==> models_of(cs)[i] == node_model(cs[i]),
    decreases cs,
{
    if cs.len() > 0 {
        lemma_models_of(cs.skip(1));
        assert(forall|i: int| 1 <= i < cs.len() ==> cs.skip(1)[i - 1] == cs[i]);
    }
}

/// The image of a node.
pub open spec fn node_model(n: Node) -> NodeModel
    decreases n,
{
    NodeModel { pat: n.pat, children: models_of(n.children@), route: n.route }
}

/// Whether two registration patterns are the same pattern, so that
/// registering through one walks into the node made for the other.
pub open spec fn pat_same(a: SegPattern, b: SegPattern) -> bool {
    match (a, b) {
        (SegPattern::Literal(x), SegPattern::Literal(y)) => x@ == y@,
        (SegPattern::Regex(x), SegPattern::Regex(y)) => x@ == y@,
        (SegPattern::Any, SegPattern::Any) => true,
        _ => false,
    }
}

/// The first child whose pattern is the same as `p`, if any.
pub open spec fn find_same(cs: Seq<NodeModel>, p: SegPattern) -> Option<int>
    decreases cs.len(),
{
    if cs.len() == 0 {
        None
    } else if pat_same(cs[0].pat, p) {
        Some(0int)
    } else {
        match find_same(cs.skip(1), p) {
            Some(j) => Some(j + 1),
            None => None,
        }
    }
}

/// A node just created for a pattern: no children, no route yet.
pub open spec fn fresh_model(p: SegPattern) -> NodeModel {
    NodeModel { pat: p, children: Seq::empty(), route: None }
}

/// Registration: walk the tree along the patterns, reusing the first child
/// with the same pattern and creating nodes as needed; the entry is bound
/// at the end. Re-registering a path overwrites the entry bound there: the
/// last registration wins.
pub open spec fn ins_model(n: NodeModel, pats: Seq<SegPattern>, e: RouteEntry) -> NodeModel
    decreases pats.len(),
{
    if pats.len() == 0 {
        NodeModel { route: Some(e), ..n }
    } else {
        match find_same(n.children, pats[0]) {
            Some(j) => NodeModel {
                children: n.children.update(j, ins_model(n.children[j], pats.skip(1), e)),
                ..n
            },
            None => NodeModel {
                children: n.children.push(ins_model(fresh_model(pats[0]), pats.skip(1), e)),
                ..n
            },
        }
    }
}

/// The three ways a child can match a segment at resolution time; they are
/// tried in this order: exact literal, then regex in registration order,
/// then the wildcard as last resort.
pub enum MatchClass {
    LitClass,
    RxClass,
    AnyClass,
}

/// Whether a pattern matches a segment under the given class.
pub open spec fn class_matches(c: MatchClass, p: SegPattern, seg: Seq<char>) -> bool {
    match c {
        MatchClass::LitClass => match p {
            SegPattern::Literal(s) => s@ == seg,
            _ => false,
        },
        MatchClass::RxClass => match p {
            SegPattern::Regex(r) => regex_match(r@, seg),
            _ => false,
        },
        MatchClass::AnyClass => match p {
            SegPattern::Any => true,
            _ => false,
        },
    }
}

/// The first child matching the segment under the given class, if any.
pub open spec fn first_of(cs: Seq<NodeModel>, c: MatchClass, seg: Seq<char>) -> Option<int>
    decreases cs.len(),
{
    if cs.len() == 0 {
        None
    } else if class_matches(c, cs[0].pat, seg) {
        Some(0int)
    } else {
        match first_of(cs.skip(1), c, seg) {
            Some(j) => Some(j + 1),
            None => None,
        }
    }
}

/// Resolution: with no segment left, the entry bound at this node decides;
/// otherwise the first literal child matching the next segment is walked,
/// else the first matching regex child (capturing the segment), else the
/// wildcard child ends the walk, bound entry and all remaining segments as
/// captures. A committed walk: a failure deeper in the tree is final, it
/// does not fall back to a less specific sibling.
pub open spec fn resolve_model(n: NodeModel, segs: Seq<Seq<char>>) -> Option<
    (RouteEntry, Seq<Seq<char>>),
>
    decreases segs.len(),
{
    if segs.len() == 0 {
        match n.route {
            Some(e) => Some((e, Seq::<Seq<char>>::empty())),
            None => None,
        }
    } else {
        let seg = segs[0];
        match first_of(n.children, MatchClass::LitClass, seg) {
            Some(j) => resolve_model(n.children[j], segs.skip(1)),
            None => match first_of(n.children, MatchClass::RxClass, seg) {
                Some(j) => match resolve_model(n.children[j], segs.skip(1)) {
                    Some(r) => Some((r.0, seq![seg] + r.1)),
                    None => None,
                },
                None => match first_of(n.children, MatchClass::AnyClass, seg) {
                    Some(j) => match n.children[j].route {
                        Some(e) => Some((e, segs)),
                        None => None,
                    },
                    None => None,
                },
            },
        }
    }
}

/// Whether two patterns are the same, decided at run time.
pub fn pattern_same_exec(a: &SegPattern, b: &SegPattern) -> (r: bool)
    ensures
        r == pat_same(*a, *b),
{
    match (a, b) {
        (SegPattern::Literal(x), SegPattern::Literal(y)) => *x == *y,
        (SegPattern::Regex(x), SegPattern::Regex(y)) => *x == *y,
        (SegPattern::Any, SegPattern::Any) => true,
        _ => false,
    }
}

/// Walk the tree along `pats` from this node, creating nodes as needed, and
/// bind `e` where the patterns end, exactly as `ins_model` describes.
pub fn insert_route(n: &mut Node, pats: Vec<SegPattern>, e: RouteEntry)
    ensures
        node_model(*final(n)) == ins_model(node_model(*old(n)), pats@, e),
    decreases pats@.len(),
{
    let ghost m0 = node_model(*old(n));
    let ghost gpats = pats@;
    let mut pats = pats;
    if pats.len() == 0 {
        n.route = Some(e);
        proof {
            assert(node_model(*n) =~= (NodeModel { route: Some(e), ..m0 }));
        }
        return ;
    }
    let p = pats.remove(0);
    let ghost gp = p;
    proof {
        assert(pats@ =~= gpats.skip(1));
    }
    match find_same_child(&n.children, &p) {
        Some(j) => {
            let mut c = n.children.remove(j);
            let ghost c0 = c;
            insert_route(&mut c, pats, e);
            n.children.insert(j, c);
            proof {
                assert(c0 == old(n).children@[j as int]);
                assert(n.children@ =~= old(n).children@.update(j as int, c));
                lemma_models_of(n.children@);
                lemma_models_of(old(n).children@);
                assert(models_of(n.children@) =~= m0.children.update(j as int, node_model(c)));
                assert(node_model(c) == ins_model(m0.children[j as int], gpats.skip(1), e));
                assert(node_model(*n) =~= ins_model(m0, gpats, e));
            }
        },
        None => {
            let mut fresh = Node { pat: p, children: Vec::new(), route: None };
            proof {
                assert(fresh.children@ =~= Seq::<Node>::empty());
                assert(models_of(fresh.children@) =~= Seq::<NodeModel>::empty());
                assert(node_model(fresh) =~= fresh_model(gp));
            }
            insert_route(&mut fresh, pats, e);
            n.children.push(fresh);
            proof {
                assert(n.children@ =~= old(n).children@.push(fresh));
                lemma_models_of(n.children@);
                lemma_models_of(old(n).children@);
                assert(models_of(n.children@) =~= m0.children.push(node_model(fresh)));
                assert(node_model(fresh) == ins_model(fresh_model(gp), gpats.skip(1), e));
                assert(node_model(*n) =~= ins_model(m0, gpats, e));
            }
        },
    }
}

/// The first child with the same pattern, if any.
fn find_same_child(children: &Vec<Node>, p: &SegPattern) -> (r: Option<usize>)
    ensures
        match r {
            Some(j) => j < children@.len() && find_same(models_of(children@), *p) == Some(
                j as int,
            ),
            None => find_same(models_of(children@), *p) is None,
        },
{
    let n = children.len();
    let mut j: usize = 0;
    while j < n
        invariant
            n == children@.len(),
            j <= n,
            forall|k: int| 0 <= k < j ==> !pat_same(children@[k].pat, *p),
        decreases n - j,
    {
        if pattern_same_exec(&children[j].pat, p) {
            proof {
                lemma_models_of(children@);
                assert(forall|k: int|
                    0 <= k < n ==> models_of(children@)[k].pat == children@[k].pat);
                lemma_find_same_some(models_of(children@), *p, j as int);
            }
            return Some(j);
        }
        j = j + 1;
    }
    proof {
        lemma_models_of(children@);
        assert(forall|k: int| 0 <= k < n ==> models_of(children@)[k].pat == children@[k].pat);
        lemma_find_same_none(models_of(children@), *p);
    }
    None
}

/// The first child whose literal pattern equals the segment, if any.
fn find_lit_child(children: &Vec<Node>, seg: &String) -> (r: Option<usize>)
    ensures
        match r {
            Some(j) => j < children@.len() && first_of(
                models_of(children@),
                MatchClass::LitClass,
                seg@,
            ) == Some(j as int),
            None => first_of(models_of(children@), MatchClass::LitClass, seg@) is None,
        },
{
    let n = children.len();
    let mut j: usize = 0;
    while j < n
        invariant
            n == children@.len(),
            j <= n,
            forall|k: int|
                0 <= k < j ==> !class_matches(MatchClass::LitClass, children@[k].pat, seg@),
        decreases n - j,
    {
        let hit = match &children[j].pat {
            SegPattern::Literal(s) => *s == *seg,
            _ => false,
        };
        proof {
            assert(hit == class_matches(MatchClass::LitClass, children@[j as int].pat, seg@));
        }
        if hit {
            proof {
                lemma_models_of(children@);
                assert(forall|k: int|
                    0 <= k < n ==> models_of(children@)[k].pat == children@[k].pat);
                lemma_first_of_some(models_of(children@), MatchClass::LitClass, seg@, j as int);
            }
            return Some(j);
        }
        j = j + 1;
    }
    proof {
        lemma_models_of(children@);
        assert(forall|k: int| 0 <= k < n ==> models_of(children@)[k].pat == children@[k].pat);
        lemma_first_of_none(models_of(children@), MatchClass::LitClass, seg@);
    }
    None
}

/// The first child whose regex pattern matches the segment, if any.
fn find_rx_child(children: &Vec<Node>, seg: &String) -> (r: Option<usize>)
    ensures
        match r {
            Some(j) => j < children@.len() && first_of(
                models_of(children@),
                MatchClass::RxClass,
                seg@,
            ) == Some(j as int),
            None => first_of(models_of(children@), MatchClass::RxClass, seg@) is None,
        },
{
    let n = children.len();
    let mut j: usize = 0;
    while j < n
        invariant
            n == children@.len(),
            j <= n,
            forall|k: int|
                0 <= k < j ==> !class_matches(MatchClass::RxClass, children@[k].pat, seg@),
        decreases n - j,
    {
        let hit = match &children[j].pat {
            SegPattern::Regex(r) => crate::rx::regex_segment_match(r.as_str(), seg.as_str()),
            _ => false,
        };
        proof {
            assert(hit == class_matches(MatchClass::RxClass, children@[j as int].pat, seg@));
        }
        if hit {
            proof {
                lemma_models_of(children@);
                assert(forall|k: int|
                    0 <= k < n ==> models_of(children@)[k].pat == children@[k].pat);
                lemma_first_of_some(models_of(children@), MatchClass::RxClass, seg@, j as int);
            }
            return Some(j);
        }
        j = j + 1;
    }
    proof {
        lemma_models_of(children@);
        assert(forall|k: int| 0 <= k < n ==> models_of(children@)[k].pat == children@[k].pat);
        lemma_first_of_none(models_of(children@), MatchClass::RxClass, seg@);
    }
    None
}

/// The first wildcard child, if any. The segment does not matter: the
/// wildcard matches whatever remains.
fn find_any_child(children: &Vec<Node>, Ghost(seg): Ghost<Seq<char>>) -> (r: Option<usize>)
    ensures
        match r {
            Some(j) => j < children@.len() && first_of(
                models_of(children@),
                MatchClass::AnyClass,
                seg,
            ) == Some(j as int),
            None => first_of(models_of(children@), MatchClass::AnyClass, seg) is None,
        },
{
    let n = children.len();
    let mut j: usize = 0;
    while j < n
        invariant
            n == children@.len(),
            j <= n,
            forall|k: int|
                0 <= k < j ==> !class_matches(MatchClass::AnyClass, children@[k].pat, seg),
        decreases n - j,
    {
        let hit = match &children[j].pat {
            SegPattern::Any => true,
            _ => false,
        };
        proof {
            assert(hit == class_matches(MatchClass::AnyClass, children@[j as int].pat, seg));
        }
        if hit {
            proof {
                lemma_models_of(children@);
                assert(forall|k: int|
                    0 <= k < n ==> models_of(children@)[k].pat == children@[k].pat);
                lemma_first_of_some(models_of(children@), MatchClass::AnyClass, seg, j as int);
            }
            return Some(j);
        }
        j = j + 1;
    }
    proof {
        lemma_models_of(children@);
        assert(forall|k: int| 0 <= k < n ==> models_of(children@)[k].pat == children@[k].pat);
        lemma_first_of_none(models_of(children@), MatchClass::AnyClass, seg);
    }
    None
}

/// Resolve the segments from position `i` against the subtree at this
/// node, exactly as `resolve_model` describes; on success the bound entry
/// and the captured segments come back.
pub fn resolve_from<'a>(n: &'a Node, segs: &Vec<String>, i: usize) -> (r: Option<
    (&'a RouteEntry, Vec<String>),
>)
    requires
        i <= segs@.len(),
    ensures
        match r {
            Some(pair) => resolve_model(node_model(*n), views_of(segs@).skip(i as int)) == Some(
                (*pair.0, views_of(pair.1@)),
            ),
            None => resolve_model(node_model(*n), views_of(segs@).skip(i as int)) is None,
        },
    decreases segs@.len() - i,
{
    let ghost rest = views_of(segs@).skip(i as int);
    if i == segs.len() {
        proof {
            assert(rest =~= Seq::<Seq<char>>::empty());
        }
        match &n.route {
            Some(e) => {
                let caps: Vec<String> = Vec::new();
                proof {
                    assert(views_of(caps@) =~= Seq::<Seq<char>>::empty());
                }
                return Some((e, caps));
            },
            None => {
                return None;
            },
        }
    }
    let seg = &segs[i];
    proof {
        assert(rest[0] == segs@[i as int]@);
        assert(rest.skip(1) =~= views_of(segs@).skip(i + 1));
        lemma_models_of(n.children@);
    }
    if let Some(j) = find_lit_child(&n.children, seg) {
        let r = resolve_from(&n.children[j], segs, i + 1);
        proof {
            assert(models_of(n.children@)[j as int] == node_model(n.children@[j as int]));
        }
        return r;
    }
    if let Some(j) = find_rx_child(&n.children, seg) {
        proof {
            assert(models_of(n.children@)[j as int] == node_model(n.children@[j as int]));
        }
        match resolve_from(&n.children[j], segs, i + 1) {
            Some((e, caps)) => {
                let mut caps = caps;
                let mut out: Vec<String> = Vec::new();
                out.push(seg.clone());
                let ghost inner = views_of(caps@);
                out.append(&mut caps);
                proof {
                    assert(views_of(out@) =~= seq![rest[0]] + inner);
                }
                return Some((e, out));
            },
            None => {
                return None;
            },
        }
    }
    if let Some(j) = find_any_child(&n.children, Ghost(segs@[i as int]@)) {
        proof {
            assert(models_of(n.children@)[j as int] == node_model(n.children@[j as int]));
        }
        match &n.children[j].route {
            Some(e) => {
                let total = segs.len();
                let mut out: Vec<String> = Vec::new();
                let mut k: usize = i;
                proof {
                    assert(views_of(out@) =~= views_of(segs@).subrange(i as int, i as int));
                }
                while k < total
                    invariant
                        i <= k <= total,
                        total == segs@.len(),
                        views_of(out@) == views_of(segs@).subrange(i as int, k as int),
                    decreases total - k,
                {
                    let ghost pre = views_of(out@);
                    out.push(segs[k].clone());
                    proof {
                        assert(views_of(out@) =~= pre.push(segs@[k as int]@));
                        assert(views_of(segs@).subrange(i as int, k + 1) =~= views_of(
                            segs@,
                        ).subrange(i as int, k as int).push(segs@[k as int]@));
                    }
                    k = k + 1;
                }
                proof {
                    assert(views_of(segs@).subrange(i as int, total as int) =~= rest);
                }
                return Some((e, out));
            },
            None => {
                return None;
            },
        }
    }
    None
}

proof fn lemma_first_of_some(cs: Seq<NodeModel>, c: MatchClass, seg: Seq<char>, j: int)
    requires
        0 <= j < cs.len(),
        class_matches(c, cs[j].pat, seg),
        forall|k: int| 0 <= k < j ==> !class_matches(c, cs[k].pat, seg),
    ensures
        first_of(cs, c, seg) == Some(j),
    decreases cs.len(),
{
    if j > 0 {
        assert(forall|k: int|
            0 <= k < j - 1 ==> cs.skip(1)[k] == cs[k + 1] && !class_matches(
                c,
                cs.skip(1)[k].pat,
                seg,
            ));
        assert(cs.skip(1)[j - 1] == cs[j]);
        lemma_first_of_some(cs.skip(1), c, seg, j - 1);
    }
}

proof fn lemma_first_of_none(cs: Seq<NodeModel>, c: MatchClass, seg: Seq<char>)
    requires
        forall|k: int| 0 <= k < cs.len() ==> !class_matches(c, cs[k].pat, seg),
    ensures
        first_of(cs, c, seg) is None,
    decreases cs.len(),
{
    if cs.len() > 0 {
        assert(forall|k: int|
            0 <= k < cs.skip(1).len() ==> cs.skip(1)[k] == cs[k + 1] && !class_matches(
                c,
                cs.skip(1)[k].pat,
                seg,
            ));
        lemma_first_of_none(cs.skip(1), c, seg);
    }
}

proof fn lemma_find_same_some(cs: Seq<NodeModel>, p: SegPattern, j: int)
    requires
        0 <= j < cs.len(),
        pat_same(cs[j].pat, p),
        forall|k: int| 0 <= k < j ==> !pat_same(cs[k].pat, p),
    ensures
        find_same(cs, p) == Some(j),
    decreases cs.len(),
{
    if j > 0 {
        assert(forall|k: int|
            0 <= k < j - 1 ==> cs.skip(1)[k] == cs[k + 1] && !pat_same(cs.skip(1)[k].pat, p));
        assert(cs.skip(1)[j - 1] == cs[j]);
        lemma_find_same_some(cs.skip(1), p, j - 1);
    }
}

proof fn lemma_find_same_none(cs: Seq<NodeModel>, p: SegPattern)
    requires
        forall|k: int| 0 <= k < cs.len() ==> !pat_same(cs[k].pat, p),
    ensures
        find_same(cs, p) is None,
    decreases cs.len(),
{
    if cs.len() > 0 {
        assert(forall|k: int|
            0 <= k < cs.skip(1).len() ==> cs.skip(1)[k] == cs[k + 1] && !pat_same(
                cs.skip(1)[k].pat,
                p,
            ));
        lemma_find_same_none(cs.skip(1), p);
    }
}

proof fn lemma_ins_pat(n: NodeModel, pats: Seq<SegPattern>, e: RouteEntry)
    ensures
        ins_model(n, pats, e).pat == n.pat,
{
    if pats.len() != 0 {
        match find_same(n.children, pats[0]) {
            Some(_) => {
            },
            None => {
            },
        }
    }
}

proof fn lemma_find_same_props(cs: Seq<NodeModel>, p: SegPattern)
    ensures
        match find_same(cs, p) {
            Some(j) => 0 <= j < cs.len() && pat_same(cs[j].pat, p) && forall|k: int|
                0 <= k < j ==> !pat_same(cs[k].pat, p),
            None => forall|k: int| 0 <= k < cs.len() ==> !pat_same(cs[k].pat, p),
        },
    decreases cs.len(),
{
    if cs.len() > 0 && !pat_same(cs[0].pat, p) {
        lemma_find_same_props(cs.skip(1), p);
        assert(forall|k: int| 1 <= k < cs.len() ==> cs.skip(1)[k - 1] == cs[k]);
    }
}

/// Whether every pattern in the list is a literal.
pub open spec fn all_literal(pats: Seq<SegPattern>) -> bool {
    forall|i: int| 0 <= i < pats.len() ==> pats[i] is Literal
}

/// The text a pattern was registered with.
pub open spec fn pat_text(p: SegPattern) -> Seq<char> {
    match p {
        SegPattern::Literal(s) => s@,
        SegPattern::Regex(s) => s@,
        SegPattern::Any => Seq::empty(),
    }
}

/// The texts of a pattern list.
pub open spec fn pat_texts(pats: Seq<SegPattern>) -> Seq<Seq<char>> {
    Seq::new(pats.len(), |i: int| pat_text(pats[i]))
}

/// Law: a registered literal path always resolves, to exactly the entry
/// registered for it and with no captures — whatever tree the registration
/// extended, so in particular the entry of the latest of several
/// registrations of the same path is the one returned.
pub proof fn law_literal_route(n: NodeModel, pats: Seq<SegPattern>, e: RouteEntry)
    requires
        all_literal(pats),
    ensures
        resolve_model(ins_model(n, pats, e), pat_texts(pats)) == Some(
            (e, Seq::<Seq<char>>::empty()),
        ),
    decreases pats.len(),
{
    let n2 = ins_model(n, pats, e);
    let texts = pat_texts(pats);
    if pats.len() == 0 {
        assert(texts =~= Seq::<Seq<char>>::empty());
    } else {
        let p = pats[0];
        let s = texts[0];
        let rest = pats.skip(1);
        lemma_find_same_props(n.children, p);
        assert(forall|i: int| 0 <= i < rest.len() ==> rest[i] == pats[i + 1]);
        assert(pat_texts(rest) =~= texts.skip(1));
        match find_same(n.children, p) {
            Some(j) => {
                let c2 = ins_model(n.children[j], rest, e);
                lemma_ins_pat(n.children[j], rest, e);
                assert(n2.children == n.children.update(j, c2));
                assert(class_matches(MatchClass::LitClass, n2.children[j].pat, s));
                assert forall|k: int| 0 <= k < j implies !class_matches(
                    MatchClass::LitClass,
                    n2.children[k].pat,
                    s,
                ) by {
                    assert(n2.children[k] == n.children[k]);
                    assert(!pat_same(n.children[k].pat, p));
                }
                lemma_first_of_some(n2.children, MatchClass::LitClass, s, j);
                law_literal_route(n.children[j], rest, e);
            },
            None => {
                let j = n.children.len() as int;
                let c2 = ins_model(fresh_model(p), rest, e);
                lemma_ins_pat(fresh_model(p), rest, e);
                assert(n2.children == n.children.push(c2));
                assert(n2.children[j] == c2);
                assert(class_matches(MatchClass::LitClass, n2.children[j].pat, s));
                assert forall|k: int| 0 <= k < j implies !class_matches(
                    MatchClass::LitClass,
                    n2.children[k].pat,
                    s,
                ) by {
                    assert(n2.children[k] == n.children[k]);
                    assert(!pat_same(n.children[k].pat, p));
                }
                lemma_first_of_some(n2.children, MatchClass::LitClass, s, j);
                law_literal_route(fresh_model(p), rest, e);
            },
        }
    }
}

/// Law: registering the same literal path twice is allowed and the second
/// registration replaces the first: the path resolves to the later entry.
pub proof fn law_last_registration_wins(
    n: NodeModel,
    pats: Seq<SegPattern>,
    e1: RouteEntry,
    e2: RouteEntry,
)
    requires
        all_literal(pats),
    ensures
        resolve_model(ins_model(ins_model(n, pats, e1), pats, e2), pat_texts(pats)) == Some(
            (e2, Seq::<Seq<char>>::empty()),
        ),
{
    law_literal_route(ins_model(n, pats, e1), pats, e2);
}

/// Whether a request segment satisfies a registered pattern.
pub open spec fn seg_matches_pat(p: SegPattern, s: Seq<char>) -> bool {
    match p {
        SegPattern::Literal(t) => t@ == s,
        SegPattern::Regex(r) => regex_match(r@, s),
        SegPattern::Any => true,
    }
}

/// The captures a matching walk accumulates: the request segments at the
/// non-literal positions, in order.
pub open spec fn captures_expected(pats: Seq<SegPattern>, segs: Seq<Seq<char>>) -> Seq<Seq<char>>
    decreases pats.len(),
{
    if pats.len() == 0 {
        Seq::<Seq<char>>::empty()
    } else {
        let rest = captures_expected(pats.skip(1), segs.skip(1));
        if pats[0] is Literal {
            rest
        } else {
            seq![segs[0]] + rest
        }
    }
}

/// Law: a path registered into an empty subtree — literal and regex
/// segments, no wildcard — resolves every request path whose segments
/// match position by position, to that entry, capturing exactly the
/// segments the regex positions matched, in order of traversal.
pub proof fn law_match_captures(
    n: NodeModel,
    pats: Seq<SegPattern>,
    e: RouteEntry,
    segs: Seq<Seq<char>>,
)
    requires
        n.children.len() == 0,
        segs.len() == pats.len(),
        forall|i: int| 0 <= i < pats.len() ==> !(pats[i] is Any),
        forall|i: int| 0 <= i < pats.len() ==> seg_matches_pat(pats[i], segs[i]),
    ensures
        resolve_model(ins_model(n, pats, e), segs) == Some((e, captures_expected(pats, segs))),
    decreases pats.len(),
{
    let n2 = ins_model(n, pats, e);
    if pats.len() == 0 {
        assert(captures_expected(pats, segs) =~= Seq::<Seq<char>>::empty());
    } else {
        let p = pats[0];
        let s = segs[0];
        let rest = pats.skip(1);
        let rsegs = segs.skip(1);
        assert(forall|i: int| 0 <= i < rest.len() ==> rest[i] == pats[i + 1]);
        assert(forall|i: int| 0 <= i < rsegs.len() ==> rsegs[i] == segs[i + 1]);
        let c2 = ins_model(fresh_model(p), rest, e);
        lemma_ins_pat(fresh_model(p), rest, e);
        assert(n2.children == n.children.push(c2));
        assert(n2.children[0] == c2);
        assert(n2.children.len() == 1);
        law_match_captures(fresh_model(p), rest, e, rsegs);
        match p {
            SegPattern::Literal(t) => {
                lemma_first_of_some(n2.children, MatchClass::LitClass, s, 0);
                assert(resolve_model(n2, segs) == resolve_model(c2, rsegs));
                assert(captures_expected(pats, segs) == captures_expected(rest, rsegs));
            },
            SegPattern::Regex(r) => {
                assert(!class_matches(MatchClass::LitClass, c2.pat, s));
                lemma_first_of_none(n2.children, MatchClass::LitClass, s);
                lemma_first_of_some(n2.children, MatchClass::RxClass, s, 0);
                assert(captures_expected(pats, segs) == seq![s] + captures_expected(
                    rest,
                    rsegs,
                ));
            },
            SegPattern::Any => {
                assert(false);
            },
        }
    }
}

/// Law: a literal child matching the next segment always wins the level:
/// resolution walks it, never a regex or wildcard sibling.
pub proof fn law_literal_first(n: NodeModel, segs: Seq<Seq<char>>, j: int)
    requires
        segs.len() > 0,
        first_of(n.children, MatchClass::LitClass, segs[0]) == Some(j),
    ensures
        resolve_model(n, segs) == resolve_model(n.children[j], segs.skip(1)),
{
}

/// Law: with no literal match at the level, the first matching regex child
/// wins, capturing the segment — still never the wildcard sibling.
pub proof fn law_regex_before_wildcard(n: NodeModel, segs: Seq<Seq<char>>, j: int)
    requires
        segs.len() > 0,
        first_of(n.children, MatchClass::LitClass, segs[0]) is None,
        first_of(n.children, MatchClass::RxClass, segs[0]) == Some(j),
    ensures
        resolve_model(n, segs) == (match resolve_model(n.children[j], segs.skip(1)) {
            Some(r) => Some((r.0, seq![segs[0]] + r.1)),
            None => None::<(RouteEntry, Seq<Seq<char>>)>,
        }),
{
}

/// Law: the wildcard child is the last resort: it serves exactly when no
/// literal and no regex child matches the next segment, and then takes the
/// whole remaining path as captures.
pub proof fn law_wildcard_last(n: NodeModel, segs: Seq<Seq<char>>, j: int)
    requires
        segs.len() > 0,
        first_of(n.children, MatchClass::LitClass, segs[0]) is None,
        first_of(n.children, MatchClass::RxClass, segs[0]) is None,
        first_of(n.children, MatchClass::AnyClass, segs[0]) == Some(j),
    ensures
        resolve_model(n, segs) == (match n.children[j].route {
            Some(e) => Some((e, segs)),
            None => None::<(RouteEntry, Seq<Seq<char>>)>,
        }),
{
}

} // verus!
