//! The depth-first, condition-gated walk of a built graph.
use vstd::prelude::*;
use crate::env::Env;
use crate::error::{ErrorKind, ExecError};
use crate::eval::{
    arith_op_of, cmp_op_of, compute, compute_spec, evaluate, evaluate_spec, parse_arith_op,
    parse_cmp_op, resolve, resolve_spec,
};
use crate::graph::{
    built_from, parse, single_root, well_formed, ActionType, Condition, Dag,
    DagNode, Node, NodeData, ZapType,
};
use crate::value::{Value, ValueModel};

verus! {

/// The bindings of an environment, oldest first.
pub type EnvModel = Seq<(Seq<char>, ValueModel)>;

/// An action to hand to the executor, with its parameters resolved.
#[derive(Debug)]
pub struct ActionRequest {
    pub node: u32,
    pub action_type: ActionType,
    pub from_address: String,
    pub to_address: String,
    pub amount: u64,
}

pub ghost struct ActionModel {
    pub node: u32,
    pub action_type: ActionType,
    pub from_address: Seq<char>,
    pub to_address: Seq<char>,
    pub amount: u64,
}

impl View for ActionRequest {
    type V = ActionModel;

    open spec fn view(&self) -> ActionModel {
        ActionModel {
            node: self.node,
            action_type: self.action_type,
            from_address: self.from_address@,
            to_address: self.to_address@,
            amount: self.amount,
        }
    }
}

/// A node entered by the walk: its id, the environment of its branch once
/// the node has run, and the action it handed out, if any.
#[derive(Debug)]
pub struct Visit {
    pub node: u32,
    pub env: Env,
    pub action: Option<ActionRequest>,
}

pub ghost struct VisitModel {
    pub node: u32,
    pub env: EnvModel,
    pub action: Option<ActionModel>,
}

impl View for Visit {
    type V = VisitModel;

    open spec fn view(&self) -> VisitModel {
        VisitModel {
            node: self.node,
            env: self.env@,
            action: match self.action {
                Some(a) => Some(a@),
                None => None,
            },
        }
    }
}

/// The models of a list of visits.
pub open spec fn visits_view(v: Seq<Visit>) -> Seq<VisitModel> {
    v.map_values(|x: Visit| x@)
}

pub open spec fn fail(kind: ErrorKind, node: u32) -> ExecError {
    ExecError { kind, node: Some(node) }
}

/// Whether an edge may be taken: always without a condition; else both
/// operands must resolve and the operator be known.
pub open spec fn guard_spec(cond: Option<Condition>, env: EnvModel, child: u32) -> Result<
    bool,
    ExecError,
> {
    match cond {
        None => Ok(true),
        Some(c) => match (resolve_spec(c.left@, env), resolve_spec(c.right@, env)) {
            (Some(a), Some(b)) => match cmp_op_of(c.operator@) {
                Some(op) => Ok(evaluate_spec(a, b, op)),
                None => Err(fail(ErrorKind::UnknownOperator, child)),
            },
            _ => Err(fail(ErrorKind::UnresolvedVariable, child)),
        },
    }
}

/// The amount of an action: a non-negative integer.
pub open spec fn amount_of(v: ValueModel) -> Option<u64> {
    match v {
        ValueModel::Int(x) => if x >= 0 {
            Some(x as u64)
        } else {
            None
        },
        ValueModel::UInt(x) => Some(x),
        _ => None,
    }
}

/// What running an arithmetic node does to the environment of its branch:
/// the operands are read in the parent's environment and the result is bound
/// after it.
pub open spec fn arithmetic_spec(d: NodeData, env: EnvModel, id: u32) -> Result<
    (EnvModel, Option<ActionModel>),
    ExecError,
> {
    if d.left.is_none() || d.right.is_none() || d.operator.is_none() || d.result.is_none() {
        Err(fail(ErrorKind::MissingField, id))
    } else {
        match (resolve_spec(d.left.unwrap()@, env), resolve_spec(d.right.unwrap()@, env)) {
            (Some(a), Some(b)) => match arith_op_of(d.operator.unwrap()@) {
                Some(op) => match compute_spec(a, b, op) {
                    Ok(v) => Ok((env.push((d.result.unwrap()@, v)), None)),
                    Err(k) => Err(fail(k, id)),
                },
                None => Err(fail(ErrorKind::UnknownOperator, id)),
            },
            _ => Err(fail(ErrorKind::UnresolvedVariable, id)),
        }
    }
}

/// What running an action node hands out; the environment is unchanged.
pub open spec fn action_spec(d: NodeData, env: EnvModel, id: u32) -> Result<
    (EnvModel, Option<ActionModel>),
    ExecError,
> {
    if d.action_type.is_none() || d.token_from_address.is_none() || d.token_to_address.is_none()
        || d.token_from_amount.is_none() {
        Err(fail(ErrorKind::MissingField, id))
    } else {
        match resolve_spec(d.token_from_amount.unwrap()@, env) {
            None => Err(fail(ErrorKind::UnresolvedVariable, id)),
            Some(v) => match amount_of(v) {
                None => Err(fail(ErrorKind::InvalidAmount, id)),
                Some(amount) => Ok(
                    (
                        env,
                        Some(
                            ActionModel {
                                node: id,
                                action_type: d.action_type.unwrap(),
                                from_address: d.token_from_address.unwrap()@,
                                to_address: d.token_to_address.unwrap()@,
                                amount,
                            },
                        ),
                    ),
                ),
            },
        }
    }
}

/// What entering a node does, given the environment of its parent.
pub open spec fn enter_spec(node: DagNode, env: EnvModel) -> Result<
    (EnvModel, Option<ActionModel>),
    ExecError,
> {
    match node.zap_type {
        ZapType::Root => Ok((env, None)),
        ZapType::Arithmetic => match node.data {
            Some(d) => arithmetic_spec(d, env, node.id),
            None => Err(fail(ErrorKind::MissingField, node.id)),
        },
        ZapType::Action => match node.data {
            Some(d) => action_spec(d, env, node.id),
            None => Err(fail(ErrorKind::MissingField, node.id)),
        },
    }
}

/// `first` followed by what `rest` gives, or the first failure.
pub open spec fn then(first: Result<Seq<VisitModel>, ExecError>, rest: Result<Seq<VisitModel>, ExecError>) -> Result<Seq<VisitModel>, ExecError> {
    match first {
        Err(e) => Err(e),
        Ok(a) => match rest {
            Err(e) => Err(e),
            Ok(b) => Ok(a + b),
        },
    }
}

/// The visits of a walk below node `u`, from its edge `j` on, where `env`
/// is the environment of `u`'s branch. Each taken edge enters its child with
/// a copy of `env`, walks below the child, and then goes on with the next
/// edge in `env` again; the first failure ends the whole walk.
pub open spec fn walk_spec(g: Dag, u: int, env: EnvModel, j: int) -> Result<
    Seq<VisitModel>,
    ExecError,
>
    decreases g.nodes@.len() - g.rank@[u], g.nodes@[u].edges@.len() - j,
{
    if !(g.wf() && 0 <= u < g.nodes@.len() && 0 <= j) {
        Ok(Seq::empty())
    } else if j >= g.nodes@[u].edges@.len() {
        Ok(Seq::empty())
    } else {
        let e = g.nodes@[u].edges@[j];
        let child = g.nodes@[e.target as int];
        match guard_spec(e.condition, env, child.id) {
            Err(x) => Err(x),
            Ok(taken) => if !taken {
                walk_spec(g, u, env, j + 1)
            } else {
                match enter_spec(child, env) {
                    Err(x) => Err(x),
                    Ok((env2, act)) => then(
                        then(
                            Ok(seq![VisitModel { node: child.id, env: env2, action: act }]),
                            walk_spec(g, e.target as int, env2, 0),
                        ),
                        walk_spec(g, u, env, j + 1),
                    ),
                }
            },
        }
    }
}

/// The visits of a walk below node `u` from its edge `j` on, up to the first
/// failure, with that failure if there is one. A node whose entry succeeded
/// is visited, and its action handed out, even where the walk below it fails
/// later.
pub open spec fn trace_spec(g: Dag, u: int, env: EnvModel, j: int) -> (
    Seq<VisitModel>,
    Option<ExecError>,
)
    decreases g.nodes@.len() - g.rank@[u], g.nodes@[u].edges@.len() - j,
{
    if !(g.wf() && 0 <= u < g.nodes@.len() && 0 <= j) {
        (Seq::empty(), None)
    } else if j >= g.nodes@[u].edges@.len() {
        (Seq::empty(), None)
    } else {
        let e = g.nodes@[u].edges@[j];
        let child = g.nodes@[e.target as int];
        match guard_spec(e.condition, env, child.id) {
            Err(x) => (Seq::empty(), Some(x)),
            Ok(taken) => if !taken {
                trace_spec(g, u, env, j + 1)
            } else {
                match enter_spec(child, env) {
                    Err(x) => (Seq::empty(), Some(x)),
                    Ok((env2, act)) => {
                        let here = seq![VisitModel { node: child.id, env: env2, action: act }];
                        let below = trace_spec(g, e.target as int, env2, 0);
                        if below.1.is_some() {
                            (here + below.0, below.1)
                        } else {
                            let rest = trace_spec(g, u, env, j + 1);
                            (here + below.0 + rest.0, rest.1)
                        }
                    },
                }
            },
        }
    }
}

/// The outcome of a walk as a result: its visits, or its failure.
pub open spec fn trace_result(t: (Seq<VisitModel>, Option<ExecError>)) -> Result<
    Seq<VisitModel>,
    ExecError,
> {
    match t.1 {
        None => Ok(t.0),
        Some(e) => Err(e),
    }
}

/// A walk succeeds with exactly the visits of its trace, or fails with the
/// failure that ends the trace.
pub proof fn lemma_trace_result(g: Dag, u: int, env: EnvModel, j: int)
    ensures
        walk_spec(g, u, env, j) == trace_result(trace_spec(g, u, env, j)),
    decreases g.nodes@.len() - g.rank@[u], g.nodes@[u].edges@.len() - j,
{
    if g.wf() && 0 <= u < g.nodes@.len() && 0 <= j < g.nodes@[u].edges@.len() {
        let e = g.nodes@[u].edges@[j];
        let child = g.nodes@[e.target as int];
        lemma_trace_result(g, u, env, j + 1);
        if let Ok((env2, act)) = enter_spec(child, env) {
            lemma_trace_result(g, e.target as int, env2, 0);
            let here = seq![VisitModel { node: child.id, env: env2, action: act }];
            let below = trace_spec(g, e.target as int, env2, 0);
            let rest = trace_spec(g, u, env, j + 1);
            assert(here + below.0 + rest.0 =~= here + (below.0 + rest.0));
        }
    }
}

/// The model of the outcome of a walk.
pub open spec fn outcome_view(r: Result<Vec<Visit>, ExecError>) -> Result<Seq<VisitModel>, ExecError> {
    match r {
        Ok(v) => Ok(visits_view(v@)),
        Err(e) => Err(e),
    }
}

/// The model of an optional action.
pub open spec fn action_view(a: Option<ActionRequest>) -> Option<ActionModel> {
    match a {
        Some(x) => Some(x@),
        None => None,
    }
}

fn error_at(kind: ErrorKind, node: u32) -> (e: ExecError)
    ensures
        e == fail(kind, node),
{
    ExecError { kind, node: Some(node) }
}

/// Decides whether an edge into the node `child` is taken.
fn check_guard(cond: &Option<Condition>, env: &Env, child: u32) -> (r: Result<bool, ExecError>)
    ensures
        r == guard_spec(*cond, env@, child),
{
    match cond {
        None => Ok(true),
        Some(c) => {
            let a = resolve(&c.left, env);
            let b = resolve(&c.right, env);
            match (a, b) {
                (Some(a), Some(b)) => match parse_cmp_op(c.operator.as_str()) {
                    Some(op) => Ok(evaluate(&a, &b, op)),
                    None => Err(error_at(ErrorKind::UnknownOperator, child)),
                },
                _ => Err(error_at(ErrorKind::UnresolvedVariable, child)),
            }
        },
    }
}

fn amount(v: &Value) -> (r: Option<u64>)
    ensures
        r == amount_of(v@),
{
    match v {
        Value::Int(x) => if *x >= 0 {
            Some(*x as u64)
        } else {
            None
        },
        Value::UInt(x) => Some(*x),
        _ => None,
    }
}

fn run_arithmetic(d: &NodeData, env: &Env, id: u32) -> (r: Result<(Env, Option<ActionRequest>), ExecError>)
    ensures
        match r {
            Ok((e2, act)) => arithmetic_spec(*d, env@, id) == Ok::<(EnvModel, Option<ActionModel>), ExecError>((e2@, action_view(act))),
            Err(x) => arithmetic_spec(*d, env@, id) == Err::<(EnvModel, Option<ActionModel>), ExecError>(x),
        },
{
    match (&d.left, &d.right, &d.operator, &d.result) {
        (Some(l), Some(rt), Some(op), Some(res)) => {
            let a = resolve(l, env);
            let b = resolve(rt, env);
            match (a, b) {
                (Some(a), Some(b)) => match parse_arith_op(op.as_str()) {
                    Some(op) => match compute(&a, &b, op) {
                        Ok(v) => {
                            let mut e2 = env.copy();
                            e2.insert(res.clone(), v);
                            Ok((e2, None))
                        },
                        Err(k) => Err(error_at(k, id)),
                    },
                    None => Err(error_at(ErrorKind::UnknownOperator, id)),
                },
                _ => Err(error_at(ErrorKind::UnresolvedVariable, id)),
            }
        },
        _ => Err(error_at(ErrorKind::MissingField, id)),
    }
}

fn run_action(d: &NodeData, env: &Env, id: u32) -> (r: Result<(Env, Option<ActionRequest>), ExecError>)
    ensures
        match r {
            Ok((e2, act)) => action_spec(*d, env@, id) == Ok::<(EnvModel, Option<ActionModel>), ExecError>((e2@, action_view(act))),
            Err(x) => action_spec(*d, env@, id) == Err::<(EnvModel, Option<ActionModel>), ExecError>(x),
        },
{
    match (&d.action_type, &d.token_from_address, &d.token_to_address, &d.token_from_amount) {
        (Some(kind), Some(from), Some(to), Some(amt)) => match resolve(amt, env) {
            None => Err(error_at(ErrorKind::UnresolvedVariable, id)),
            Some(v) => match amount(&v) {
                None => Err(error_at(ErrorKind::InvalidAmount, id)),
                Some(a) => {
                    let req = ActionRequest {
                        node: id,
                        action_type: *kind,
                        from_address: from.clone(),
                        to_address: to.clone(),
                        amount: a,
                    };
                    Ok((env.copy(), Some(req)))
                },
            },
        },
        _ => Err(error_at(ErrorKind::MissingField, id)),
    }
}

/// Runs a node on entry, given the environment of its parent: returns the
/// environment of the node's own branch and the action it hands out.
pub fn enter(node: &DagNode, env: &Env) -> (r: Result<(Env, Option<ActionRequest>), ExecError>)
    ensures
        match r {
            Ok((e2, act)) => enter_spec(*node, env@) == Ok::<(EnvModel, Option<ActionModel>), ExecError>((e2@, action_view(act))),
            Err(x) => enter_spec(*node, env@) == Err::<(EnvModel, Option<ActionModel>), ExecError>(x),
        },
{
    match node.zap_type {
        ZapType::Root => Ok((env.copy(), None)),
        ZapType::Arithmetic => match &node.data {
            Some(d) => run_arithmetic(d, env, node.id),
            None => Err(error_at(ErrorKind::MissingField, node.id)),
        },
        ZapType::Action => match &node.data {
            Some(d) => run_action(d, env, node.id),
            None => Err(error_at(ErrorKind::MissingField, node.id)),
        },
    }
}

/// Walks the graph below node `u`, whose branch has the environment `env`,
/// and appends every visit to `out` in depth-first order until the first
/// failure, which it returns.
pub fn walk_traced(dag: &Dag, u: usize, env: &Env, out: &mut Vec<Visit>) -> (r: Option<ExecError>)
    requires
        dag.wf(),
        u < dag.nodes@.len(),
    ensures
        visits_view(final(out)@) == visits_view(old(out)@) + trace_spec(*dag, u as int, env@, 0).0,
        r == trace_spec(*dag, u as int, env@, 0).1,
    decreases dag.nodes@.len() - dag.rank@[u as int],
{
    let edges = &dag.nodes[u].edges;
    let ghost base = visits_view(out@);
    let ghost mut acc: Seq<VisitModel> = Seq::empty();
    let mut j: usize = 0;
    assert(acc + trace_spec(*dag, u as int, env@, 0).0 =~= trace_spec(*dag, u as int, env@, 0).0);
    assert(visits_view(out@) =~= base + acc);
    while j < edges.len()
        invariant
            dag.wf(),
            u < dag.nodes@.len(),
            edges@ == dag.nodes@[u as int].edges@,
            j <= edges@.len(),
            base == visits_view(old(out)@),
            visits_view(out@) == base + acc,
            trace_spec(*dag, u as int, env@, 0) == (
            acc + trace_spec(*dag, u as int, env@, j as int).0,
            trace_spec(*dag, u as int, env@, j as int).1,
            ),
        decreases edges@.len() - j,
    {
        let e = &edges[j];
        let t = e.target;
        let child = &dag.nodes[t];
        let taken = match check_guard(&e.condition, env, child.id) {
            Ok(b) => b,
            Err(x) => {
                assert(acc + Seq::<VisitModel>::empty() =~= acc);
                return Some(x);
            },
        };
        if taken {
            let (env2, act) = match enter(child, env) {
                Ok(p) => p,
                Err(x) => {
                    assert(acc + Seq::<VisitModel>::empty() =~= acc);
                    return Some(x);
                },
            };
            let mut sub: Vec<Visit> = Vec::new();
            let below = walk_traced(dag, t, &env2, &mut sub);
            let ghost sub_view = visits_view(sub@);
            let visit = Visit { node: child.id, env: env2, action: act };
            let ghost vm = visit@;
            let ghost before = visits_view(out@);
            out.push(visit);
            out.append(&mut sub);
            assert(visits_view(out@) =~= before + seq![vm] + sub_view) by {
                assert(sub_view =~= Seq::<VisitModel>::empty() + sub_view);
            }
            let ghost old_acc = acc;
            proof {
                acc = acc + seq![vm] + sub_view;
                assert(visits_view(out@) =~= base + acc);
                assert(old_acc + (seq![vm] + sub_view) =~= acc);
                let rest = trace_spec(*dag, u as int, env@, j + 1);
                assert(old_acc + (seq![vm] + sub_view + rest.0) =~= acc + rest.0);
            }
            if below.is_some() {
                assert(acc + Seq::<VisitModel>::empty() =~= acc);
                return below;
            }
        }
        j = j + 1;
    }
    assert(acc + Seq::<VisitModel>::empty() =~= acc);
    None
}

/// Walks the graph below node `u`, whose branch has the environment `env`:
/// every visit in depth-first order, or the first failure.
pub fn walk(dag: &Dag, u: usize, env: &Env) -> (r: Result<Vec<Visit>, ExecError>)
    requires
        dag.wf(),
        u < dag.nodes@.len(),
    ensures
        walk_spec(*dag, u as int, env@, 0) == outcome_view(r),
{
    let mut out: Vec<Visit> = Vec::new();
    let failure = walk_traced(dag, u, env, &mut out);
    proof {
        lemma_trace_result(*dag, u as int, env@, 0);
        assert(visits_view(out@) =~= trace_spec(*dag, u as int, env@, 0).0);
    }
    match failure {
        None => Ok(out),
        Some(e) => Err(e),
    }
}

/// Runs a workflow document: builds its graph and walks it from the root
/// with an empty environment. On success, every node entered, in depth-first
/// order; else the first failure.
pub fn execute(dag_data: Vec<Node>) -> (r: Result<Vec<Visit>, ExecError>)
    ensures
        !well_formed(dag_data@) <==> (r matches Err(e) && e.kind == ErrorKind::MalformedDocument),
        well_formed(dag_data@) ==> exists|g: Dag, root: int|
            #![trigger built_from(g, dag_data@), single_root(dag_data@, root)]
            g.wf() && built_from(g, dag_data@) && single_root(dag_data@, root) && walk_spec(
                g,
                root,
                Seq::empty(),
                0,
            ) == outcome_view(r),
{
    let ghost doc = dag_data@;
    let (g, root) = match parse(dag_data) {
        Ok(x) => x,
        Err(e) => return Err(e),
    };
    let env = Env::new();
    let r = walk(&g, root, &env);
    proof {
        lemma_walk_not_malformed(g, root as int, env@, 0);
        assert(built_from(g, doc) && single_root(doc, root as int));
    }
    r
}

/// Runs a workflow document as [`execute`] does, but keeps the visits made
/// before a failure beside it, so that the actions they handed out are not
/// lost.
pub fn execute_traced(dag_data: Vec<Node>) -> (r: (Vec<Visit>, Option<ExecError>))
    ensures
        !well_formed(dag_data@) <==> (r.1 matches Some(e) && e.kind
            == ErrorKind::MalformedDocument),
        !well_formed(dag_data@) ==> r.0@.len() == 0,
        well_formed(dag_data@) ==> exists|g: Dag, root: int|
            #![trigger built_from(g, dag_data@), single_root(dag_data@, root)]
            g.wf() && built_from(g, dag_data@) && single_root(dag_data@, root) && trace_spec(
                g,
                root,
                Seq::empty(),
                0,
            ) == (visits_view(r.0@), r.1),
{
    let ghost doc = dag_data@;
    let mut out: Vec<Visit> = Vec::new();
    let (g, root) = match parse(dag_data) {
        Ok(x) => x,
        Err(e) => return (out, Some(e)),
    };
    let env = Env::new();
    let failure = walk_traced(&g, root, &env, &mut out);
    proof {
        lemma_trace_result(g, root as int, env@, 0);
        lemma_walk_not_malformed(g, root as int, env@, 0);
        assert(visits_view(out@) =~= trace_spec(g, root as int, env@, 0).0);
        assert(built_from(g, doc) && single_root(doc, root as int));
    }
    (out, failure)
}

/// A walk fails only at run time: never with `MalformedDocument`.
pub proof fn lemma_walk_not_malformed(g: Dag, u: int, env: EnvModel, j: int)
    ensures
        walk_spec(g, u, env, j) matches Err(e) ==> e.kind != ErrorKind::MalformedDocument,
    decreases g.nodes@.len() - g.rank@[u], g.nodes@[u].edges@.len() - j,
{
    if g.wf() && 0 <= u < g.nodes@.len() && 0 <= j < g.nodes@[u].edges@.len() {
        let e = g.nodes@[u].edges@[j];
        let child = g.nodes@[e.target as int];
        lemma_walk_not_malformed(g, u, env, j + 1);
        if let Ok((env2, act)) = enter_spec(child, env) {
            lemma_walk_not_malformed(g, e.target as int, env2, 0);
        }
    }
}

/// `g2` is `g` with edge `j` of node `u` taken out, and nothing else changed.
pub open spec fn without_edge(g: Dag, g2: Dag, u: int, j: int) -> bool {
    &&& 0 <= u < g.nodes@.len()
    &&& 0 <= j < g.nodes@[u].edges@.len()
    &&& g2.nodes@.len() == g.nodes@.len()
    &&& g2.rank@ == g.rank@
    &&& forall|k: int| 0 <= k < g.nodes@.len() && k != u ==> #[trigger] g2.nodes@[k] == g.nodes@[k]
    &&& g2.nodes@[u].id == g.nodes@[u].id
    &&& g2.nodes@[u].zap_type == g.nodes@[u].zap_type
    &&& g2.nodes@[u].data == g.nodes@[u].data
    &&& g2.nodes@[u].edges@ == g.nodes@[u].edges@.remove(j)
}

proof fn lemma_without_edge_wf(g: Dag, g2: Dag, u: int, j: int)
    requires
        g.wf(),
        without_edge(g, g2, u, j),
    ensures
        g2.wf(),
{
    assert forall|a: int, k: int|
        0 <= a < g2.nodes@.len() && 0 <= k < g2.nodes@[a].edges@.len() implies {
        let t = (#[trigger] g2.nodes@[a].edges@[k]).target as int;
        t < g2.nodes@.len() && g2.rank@[a] < g2.rank@[t]
    } by {
        if a == u {
            if k < j {
                assert(g2.nodes@[a].edges@[k] == g.nodes@[u].edges@[k]);
            } else {
                assert(g2.nodes@[a].edges@[k] == g.nodes@[u].edges@[k + 1]);
            }
        } else {
            assert(g2.nodes@[a] == g.nodes@[a]);
        }
    }
    assert forall|a: int| 0 <= a < g2.nodes@.len() implies g2.rank@[a] <= g2.nodes@.len() by {
        assert(g.rank@[a] <= g.nodes@.len());
    }
}

/// Below a node ranked above `u`, taking out an edge of `u` changes nothing.
proof fn lemma_same_below(g: Dag, g2: Dag, u: int, j: int, v: int, env: EnvModel, k: int)
    requires
        g.wf(),
        without_edge(g, g2, u, j),
        0 <= v < g.nodes@.len(),
        g.rank@[v] > g.rank@[u],
    ensures
        walk_spec(g, v, env, k) == walk_spec(g2, v, env, k),
    decreases g.nodes@.len() - g.rank@[v], g.nodes@[v].edges@.len() - k,
{
    lemma_without_edge_wf(g, g2, u, j);
    assert(g2.nodes@[v] == g.nodes@[v]);
    if 0 <= k < g.nodes@[v].edges@.len() {
        let e = g.nodes@[v].edges@[k];
        let t = e.target as int;
        assert(g2.nodes@[t] == g.nodes@[t]);
        lemma_same_below(g, g2, u, j, v, env, k + 1);
        if let Ok((env2, act)) = enter_spec(g.nodes@[t], env) {
            lemma_same_below(g, g2, u, j, t, env2, 0);
        }
    }
}

/// The edges of `u` after edge `j` walk in `g` as the same edges, one place
/// earlier, walk in `g2`.
proof fn lemma_shifted(g: Dag, g2: Dag, u: int, j: int, env: EnvModel, k: int)
    requires
        g.wf(),
        without_edge(g, g2, u, j),
        j <= k,
    ensures
        walk_spec(g, u, env, k + 1) == walk_spec(g2, u, env, k),
    decreases g.nodes@[u].edges@.len() - k,
{
    lemma_without_edge_wf(g, g2, u, j);
    if k + 1 < g.nodes@[u].edges@.len() {
        let e = g.nodes@[u].edges@[k + 1];
        assert(g2.nodes@[u].edges@[k] == e);
        let t = e.target as int;
        assert(g2.nodes@[t] == g.nodes@[t]);
        lemma_shifted(g, g2, u, j, env, k + 1);
        if let Ok((env2, act)) = enter_spec(g.nodes@[t], env) {
            lemma_same_below(g, g2, u, j, t, env2, 0);
        }
    }
}

/// Branch isolation: the walk of the siblings after the child of edge `j`
/// is the same as in the graph without that edge. Where the edge is taken
/// and the walk below its child succeeds, the walk is that child's visits
/// followed by exactly the walk of `g2`; where the edge is not taken, the
/// two walks are equal. So no binding that the child makes reaches a
/// sibling, nor anything below one.
pub proof fn lemma_sibling_independent(
    g: Dag,
    g2: Dag,
    u: int,
    j: int,
    env: EnvModel,
    env2: EnvModel,
    act: Option<ActionModel>,
    below: Seq<VisitModel>,
)
    requires
        g.wf(),
        without_edge(g, g2, u, j),
    ensures
        ({
            let e = g.nodes@[u].edges@[j];
            let child = g.nodes@[e.target as int];
            &&& guard_spec(e.condition, env, child.id) == Ok::<bool, ExecError>(false)
                ==> walk_spec(g, u, env, j) == walk_spec(g2, u, env, j)
            &&& guard_spec(e.condition, env, child.id) == Ok::<bool, ExecError>(true)
                && enter_spec(child, env) == Ok::<(EnvModel, Option<ActionModel>), ExecError>(
                (env2, act),
            ) && walk_spec(g, e.target as int, env2, 0) == Ok::<Seq<VisitModel>, ExecError>(
                below,
            ) ==> walk_spec(g, u, env, j) == then(
                Ok(seq![VisitModel { node: child.id, env: env2, action: act }] + below),
                walk_spec(g2, u, env, j),
            )
        }),
{
    lemma_shifted(g, g2, u, j, env, j);
    let e = g.nodes@[u].edges@[j];
    let child = g.nodes@[e.target as int];
    if guard_spec(e.condition, env, child.id) == Ok::<bool, ExecError>(true) && enter_spec(
        child,
        env,
    ) == Ok::<(EnvModel, Option<ActionModel>), ExecError>((env2, act)) && walk_spec(
        g,
        e.target as int,
        env2,
        0,
    ) == Ok::<Seq<VisitModel>, ExecError>(below) {
        lemma_branch_isolation(g, u, env, j, env2, act, below);
    }
}

/// Siblings do not see each other's bindings: after the child of edge `j`
/// and everything below it, the walk goes on with edge `j + 1` in the
/// parent's environment `env`, not in the environment `env2` that the child
/// made.
pub proof fn lemma_branch_isolation(
    g: Dag,
    u: int,
    env: EnvModel,
    j: int,
    env2: EnvModel,
    act: Option<ActionModel>,
    below: Seq<VisitModel>,
)
    requires
        g.wf(),
        0 <= u < g.nodes@.len(),
        0 <= j < g.nodes@[u].edges@.len(),
        guard_spec(
            g.nodes@[u].edges@[j].condition,
            env,
            g.nodes@[g.nodes@[u].edges@[j].target as int].id,
        ) == Ok::<bool, ExecError>(true),
        enter_spec(g.nodes@[g.nodes@[u].edges@[j].target as int], env) == Ok::<
            (EnvModel, Option<ActionModel>),
            ExecError,
        >((env2, act)),
        walk_spec(g, g.nodes@[u].edges@[j].target as int, env2, 0) == Ok::<
            Seq<VisitModel>,
            ExecError,
        >(below),
    ensures
        walk_spec(g, u, env, j) == then(
            Ok(
                seq![
                    VisitModel {
                        node: g.nodes@[g.nodes@[u].edges@[j].target as int].id,
                        env: env2,
                        action: act,
                    },
                ] + below,
            ),
            walk_spec(g, u, env, j + 1),
        ),
{
}

} // verus!
