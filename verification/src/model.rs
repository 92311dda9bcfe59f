//! The mathematical model of constraint building.  Every function here is
//! specification-only and mirrors one pass of the builder; `build_spec` is
//! the composition, and `build_constraints` promises to return exactly its
//! value.  The model walks the board in scan order (outer axis `x`, inner
//! axis `y`), which fixes variable ids, equation ids, and component order.

use vstd::prelude::*;

use crate::constraints::{
    AnalysisConfig, BuildOutputModel, ComponentModel, ConstraintStats, ConstraintVariable,
    Contradiction, EquationKind, EquationModel, ProblemModel,
};
use crate::dsu::{DsuModel, dsu_init, dsu_wf, find_at, lemma_find_at_bound, union_spec};
use crate::grid::GridModel;
use crate::observation::ObservationModel;
use crate::types::{CellCount, Coord, Coord2, neighbor_seq};

verus! {

/// Position `(a, b)` comes strictly before `(x, y)` in board scan order.
pub open spec fn scan_lt(a: int, b: int, x: int, y: int) -> bool {
    a < x || (a == x && b < y)
}

// ------------------------------------------------------------------
// Variable enumeration
// ------------------------------------------------------------------

/// Extends the variable list with the cell at `(x, y)`: hidden cells become
/// variables with the next dense id, revealed cells contribute nothing.
pub open spec fn var_step(
    obs: ObservationModel,
    vs: Seq<ConstraintVariable>,
    x: int,
    y: int,
) -> Seq<ConstraintVariable> {
    if obs.hidden(x, y) {
        vs.push(
            ConstraintVariable {
                id: vs.len() as usize,
                coords: (x as Coord, y as Coord),
                flagged: obs.flags.at(x, y),
            },
        )
    } else {
        vs
    }
}

/// The variables of all cells strictly before `(x, y)` in scan order
/// (for `0 <= y <= size_y`; `(x, 0)` and `(x - 1, size_y)` describe the
/// same prefix).
pub open spec fn vars_before(obs: ObservationModel, x: int, y: int) -> Seq<ConstraintVariable>
    decreases x, y,
{
    if y > 0 {
        var_step(obs, vars_before(obs, x, y - 1), x, y - 1)
    } else if x > 0 {
        vars_before(obs, x - 1, obs.sy)
    } else {
        Seq::empty()
    }
}

/// All variables of the board, in scan order.
pub open spec fn vars_full(obs: ObservationModel) -> Seq<ConstraintVariable> {
    vars_before(obs, obs.sx, 0)
}

/// The variable id of the hidden cell at `(x, y)`: the number of hidden
/// cells that precede it in scan order.
pub open spec fn var_id(obs: ObservationModel, x: int, y: int) -> usize {
    vars_before(obs, x, y).len() as usize
}

/// What the id-lookup grid holds once enumeration passed `(x, y)`.
pub open spec fn expected_lookup(obs: ObservationModel, a: int, b: int) -> Option<usize> {
    if obs.hidden(a, b) {
        Some(var_id(obs, a, b))
    } else {
        None
    }
}

/// The id-lookup grid agrees with `expected_lookup` on every position
/// strictly before `(x, y)` and is still empty past it.
pub open spec fn lookup_filled_to(
    obs: ObservationModel,
    lk: GridModel<Option<usize>>,
    x: int,
    y: int,
) -> bool {
    forall|a: int, b: int|
        obs.in_bounds(a, b) ==> (#[trigger] lk.at(a, b)) == if scan_lt(a, b, x, y) {
            expected_lookup(obs, a, b)
        } else {
            None::<usize>
        }
}

// ------------------------------------------------------------------
// Local clue equations
// ------------------------------------------------------------------

/// Folds one clue's first `j` neighbors into `(subtracted, included ids)`:
/// revealed neighbors are skipped; under strict semantics a flagged hidden
/// neighbor is counted as a known mine (subtracted) instead of included.
pub open spec fn clue_scan(
    obs: ObservationModel,
    cfg: AnalysisConfig,
    ns: Seq<Coord2>,
    j: int,
) -> (int, Seq<usize>)
    decreases j,
{
    if j <= 0 {
        (0, Seq::empty())
    } else {
        let prev = clue_scan(obs, cfg, ns, j - 1);
        let px = ns[j - 1].0 as int;
        let py = ns[j - 1].1 as int;
        if !obs.hidden(px, py) {
            prev
        } else if cfg.flag_semantics is Strict && obs.flags.at(px, py) {
            (prev.0 + 1, prev.1)
        } else {
            (prev.0, prev.1.push(var_id(obs, px, py)))
        }
    }
}

/// Folds the cell at `(x, y)` into the local-equation state: a revealed
/// cell yields either an equation (next dense id) or, when its adjusted
/// target is impossible, a `LocalClueImpossible` contradiction.
pub open spec fn local_step(
    obs: ObservationModel,
    cfg: AnalysisConfig,
    st: (Seq<EquationModel>, Seq<Contradiction>),
    x: int,
    y: int,
) -> (Seq<EquationModel>, Seq<Contradiction>) {
    match obs.revealed.at(x, y) {
        Option::None => st,
        Option::Some(m) => {
            let ns = neighbor_seq((x as Coord, y as Coord), (obs.sx as Coord, obs.sy as Coord));
            let scanned = clue_scan(obs, cfg, ns, ns.len() as int);
            let target = m - scanned.0;
            if target < 0 || target > scanned.1.len() {
                (
                    st.0,
                    st.1.push(
                        Contradiction::LocalClueImpossible {
                            clue: (x as Coord, y as Coord),
                            target_mines: target as i16,
                            available_variables: scanned.1.len() as usize,
                        },
                    ),
                )
            } else {
                (
                    st.0.push(
                        EquationModel {
                            id: st.0.len() as usize,
                            kind: EquationKind::LocalClue { clue: (x as Coord, y as Coord) },
                            variable_ids: scanned.1,
                            target_mines: target as CellCount,
                        },
                    ),
                    st.1,
                )
            }
        },
    }
}

/// Local equations and contradictions of all cells strictly before
/// `(x, y)` in scan order.
pub open spec fn locals_before(obs: ObservationModel, cfg: AnalysisConfig, x: int, y: int) -> (
    Seq<EquationModel>,
    Seq<Contradiction>,
)
    decreases x, y,
{
    if y > 0 {
        local_step(obs, cfg, locals_before(obs, cfg, x, y - 1), x, y - 1)
    } else if x > 0 {
        locals_before(obs, cfg, x - 1, obs.sy)
    } else {
        (Seq::empty(), Seq::empty())
    }
}

/// All local equations and local contradictions of the board.
pub open spec fn locals_full(obs: ObservationModel, cfg: AnalysisConfig) -> (
    Seq<EquationModel>,
    Seq<Contradiction>,
) {
    locals_before(obs, cfg, obs.sx, 0)
}

// ------------------------------------------------------------------
// Global mine-count equation
// ------------------------------------------------------------------

/// Folds the first `i` variables into `(subtracted, included ids)` for the
/// global equation, by the same strict-flag rule as `clue_scan`.
pub open spec fn global_scan(
    vars: Seq<ConstraintVariable>,
    cfg: AnalysisConfig,
    i: int,
) -> (int, Seq<usize>)
    decreases i,
{
    if i <= 0 {
        (0, Seq::empty())
    } else {
        let prev = global_scan(vars, cfg, i - 1);
        if cfg.flag_semantics is Strict && vars[i - 1].flagged {
            (prev.0 + 1, prev.1)
        } else {
            (prev.0, prev.1.push(vars[i - 1].id))
        }
    }
}

/// Appends the global mine-count equation when configuration and knowledge
/// allow it; an impossible target becomes a `GlobalMineCountImpossible`
/// contradiction instead.  The third component counts appended global
/// equations (0 or 1).
pub open spec fn with_global(
    obs: ObservationModel,
    cfg: AnalysisConfig,
    vars: Seq<ConstraintVariable>,
    st: (Seq<EquationModel>, Seq<Contradiction>),
) -> (Seq<EquationModel>, Seq<Contradiction>, int) {
    if cfg.mine_count_usage is UseIfKnown {
        match obs.mine_count {
            Option::Some(total) => {
                let scanned = global_scan(vars, cfg, vars.len() as int);
                let target = total - scanned.0;
                if target < 0 || target > scanned.1.len() {
                    (
                        st.0,
                        st.1.push(
                            Contradiction::GlobalMineCountImpossible {
                                target_mines: target as i32,
                                available_variables: scanned.1.len() as usize,
                            },
                        ),
                        0,
                    )
                } else {
                    (
                        st.0.push(
                            EquationModel {
                                id: st.0.len() as usize,
                                kind: EquationKind::GlobalMineCount,
                                variable_ids: scanned.1,
                                target_mines: target as CellCount,
                            },
                        ),
                        st.1,
                        1,
                    )
                }
            },
            Option::None => (st.0, st.1, 0),
        }
    } else {
        (st.0, st.1, 0)
    }
}

// ------------------------------------------------------------------
// Componentization
// ------------------------------------------------------------------

/// Marks the first `j` listed variables as touched.
pub open spec fn touch_list(t: Seq<bool>, vids: Seq<usize>, j: int) -> Seq<bool>
    decreases j,
{
    if j <= 0 {
        t
    } else {
        touch_list(t, vids, j - 1).update(vids[j - 1] as int, true)
    }
}

/// Unions the equation's first variable with each of the next `j - 1`.
pub open spec fn union_list(d: DsuModel, first: usize, vids: Seq<usize>, j: int) -> DsuModel
    decreases j,
{
    if j <= 1 {
        d
    } else {
        union_spec(union_list(d, first, vids, j - 1), first, vids[j - 1])
    }
}

/// Folds one equation into the union-find state: only local-clue equations
/// union their variables and mark them touched; the global equation is
/// excluded so it cannot collapse all components into one.
pub open spec fn dsu_step(st: (DsuModel, Seq<bool>), e: EquationModel) -> (DsuModel, Seq<bool>) {
    if e.kind is LocalClue && e.variable_ids.len() > 0 {
        (
            union_list(st.0, e.variable_ids[0], e.variable_ids, e.variable_ids.len() as int),
            touch_list(st.1, e.variable_ids, e.variable_ids.len() as int),
        )
    } else {
        st
    }
}

/// Union-find state and touched marks after the first `i` equations.
pub open spec fn dsu_fold(n: int, eqs: Seq<EquationModel>, i: int) -> (DsuModel, Seq<bool>)
    decreases i,
{
    if i <= 0 {
        (dsu_init(n), Seq::new(n as nat, |k: int| false))
    } else {
        dsu_step(dsu_fold(n, eqs, i - 1), eqs[i - 1])
    }
}

/// Assigns variable `v` to the component of its root, creating the
/// component on first sight of that root.  The state is the component list
/// so far plus the root-to-component-index map.
pub open spec fn group_step(
    d: DsuModel,
    touched: Seq<bool>,
    st: (Seq<ComponentModel>, Seq<Option<usize>>),
    v: int,
) -> (Seq<ComponentModel>, Seq<Option<usize>>) {
    if touched[v] {
        let root = find_at(d, v as usize, d.parent.len() as int);
        match st.1[root as int] {
            Option::Some(ci) => (
                st.0.update(
                    ci as int,
                    ComponentModel {
                        variable_ids: st.0[ci as int].variable_ids.push(v as usize),
                        equation_ids: st.0[ci as int].equation_ids,
                    },
                ),
                st.1,
            ),
            Option::None => (
                st.0.push(
                    ComponentModel { variable_ids: seq![v as usize], equation_ids: Seq::empty() },
                ),
                st.1.update(root as int, Some(st.0.len() as usize)),
            ),
        }
    } else {
        st
    }
}

/// Components and root map after grouping the first `v` variables.
pub open spec fn groups_up_to(d: DsuModel, touched: Seq<bool>, n: int, v: int) -> (
    Seq<ComponentModel>,
    Seq<Option<usize>>,
)
    decreases v,
{
    if v <= 0 {
        (Seq::empty(), Seq::new(n as nat, |k: int| None))
    } else {
        group_step(d, touched, groups_up_to(d, touched, n, v - 1), v - 1)
    }
}

/// Which roots the equation's first `j` variables resolve to.
pub open spec fn seen_roots(
    d: DsuModel,
    touched: Seq<bool>,
    vids: Seq<usize>,
    j: int,
    n: int,
) -> Seq<bool>
    decreases j,
{
    if j <= 0 {
        Seq::new(n as nat, |k: int| false)
    } else {
        let prev = seen_roots(d, touched, vids, j - 1, n);
        let v = vids[j - 1];
        if touched[v as int] {
            prev.update(find_at(d, v, d.parent.len() as int) as int, true)
        } else {
            prev
        }
    }
}

/// Attaches `eqid` to the component of every seen root among `0..r`,
/// in ascending root order.
pub open spec fn attach_sweep(
    comps: Seq<ComponentModel>,
    rmap: Seq<Option<usize>>,
    seen: Seq<bool>,
    eqid: usize,
    r: int,
) -> Seq<ComponentModel>
    decreases r,
{
    if r <= 0 {
        comps
    } else {
        let prev = attach_sweep(comps, rmap, seen, eqid, r - 1);
        if seen[r - 1] {
            match rmap[r - 1] {
                Option::Some(ci) => prev.update(
                    ci as int,
                    ComponentModel {
                        variable_ids: prev[ci as int].variable_ids,
                        equation_ids: prev[ci as int].equation_ids.push(eqid),
                    },
                ),
                Option::None => prev,
            }
        } else {
            prev
        }
    }
}

/// Attaches the ids of the first `i` local-clue equations to the
/// components their variables resolve to.
pub open spec fn attach_fold(
    d: DsuModel,
    touched: Seq<bool>,
    rmap: Seq<Option<usize>>,
    n: int,
    eqs: Seq<EquationModel>,
    comps: Seq<ComponentModel>,
    i: int,
) -> Seq<ComponentModel>
    decreases i,
{
    if i <= 0 {
        comps
    } else {
        let prev = attach_fold(d, touched, rmap, n, eqs, comps, i - 1);
        let e = eqs[i - 1];
        if e.kind is LocalClue {
            attach_sweep(
                prev,
                rmap,
                seen_roots(d, touched, e.variable_ids, e.variable_ids.len() as int, n),
                e.id,
                n,
            )
        } else {
            prev
        }
    }
}

/// The untouched variables among `0..v`, ascending.
pub open spec fn untouched_up_to(touched: Seq<bool>, v: int) -> Seq<usize>
    decreases v,
{
    if v <= 0 {
        Seq::empty()
    } else {
        let prev = untouched_up_to(touched, v - 1);
        if !touched[v - 1] {
            prev.push((v - 1) as usize)
        } else {
            prev
        }
    }
}

/// The whole componentization pass: union variables through local
/// equations, group the touched ones by root, attach equation ids, and
/// collect the untouched variables.
pub open spec fn components_spec(n: int, eqs: Seq<EquationModel>) -> (
    Seq<ComponentModel>,
    Seq<usize>,
) {
    let folded = dsu_fold(n, eqs, eqs.len() as int);
    let grouped = groups_up_to(folded.0, folded.1, n, n);
    let comps = attach_fold(folded.0, folded.1, grouped.1, n, eqs, grouped.0, eqs.len() as int);
    (comps, untouched_up_to(folded.1, n))
}

/// The largest variable count among the first `i` components (0 if none).
pub open spec fn max_comp_vars(comps: Seq<ComponentModel>, i: int) -> int
    decreases i,
{
    if i <= 0 {
        0
    } else {
        let prev = max_comp_vars(comps, i - 1);
        if comps[i - 1].variable_ids.len() > prev {
            comps[i - 1].variable_ids.len() as int
        } else {
            prev
        }
    }
}

// ------------------------------------------------------------------
// Assembly
// ------------------------------------------------------------------

/// The degenerate result of a fatal precondition violation: an entirely
/// empty problem carrying only the given contradictions.
pub open spec fn empty_output_spec(contras: Seq<Contradiction>) -> BuildOutputModel {
    BuildOutputModel {
        problem: ProblemModel {
            variables: Seq::empty(),
            equations: Seq::empty(),
            components: Seq::empty(),
            unconstrained_variable_ids: Seq::empty(),
        },
        contradictions: contras,
        stats: ConstraintStats {
            variable_count: 0,
            local_equation_count: 0,
            global_equation_count: 0,
            component_count: 0,
            max_component_variables: 0,
            contradiction_count: contras.len() as usize,
        },
    }
}

/// The result of a build on a structurally valid observation.
pub open spec fn build_valid(obs: ObservationModel, cfg: AnalysisConfig) -> BuildOutputModel {
    let vars = vars_full(obs);
    let locals = locals_full(obs, cfg);
    let globaled = with_global(obs, cfg, vars, locals);
    let n = vars.len() as int;
    let parted = components_spec(n, globaled.0);
    BuildOutputModel {
        problem: ProblemModel {
            variables: vars,
            equations: globaled.0,
            components: parted.0,
            unconstrained_variable_ids: parted.1,
        },
        contradictions: globaled.1,
        stats: ConstraintStats {
            variable_count: vars.len() as usize,
            local_equation_count: locals.0.len() as usize,
            global_equation_count: globaled.2 as usize,
            component_count: parted.0.len() as usize,
            max_component_variables: max_comp_vars(parted.0, parted.0.len() as int) as usize,
            contradiction_count: globaled.1.len() as usize,
        },
    }
}

/// What a build returns, for every observation and configuration: fatal
/// shape problems yield an empty problem with one contradiction; otherwise
/// the full pipeline runs.
pub open spec fn build_spec(obs: ObservationModel, cfg: AnalysisConfig) -> BuildOutputModel {
    if !obs.shape_ok() {
        empty_output_spec(seq![Contradiction::InvalidObservationShape])
    } else {
        match obs.mine_count {
            Option::Some(mc) => {
                if mc > obs.total_cells() {
                    empty_output_spec(
                        seq![
                            Contradiction::InvalidMineCount {
                                mine_count: mc,
                                max_cells: obs.total_cells() as CellCount,
                            },
                        ],
                    )
                } else {
                    build_valid(obs, cfg)
                }
            },
            Option::None => build_valid(obs, cfg),
        }
    }
}

// ------------------------------------------------------------------
// Well-formedness facts the builder leans on
// ------------------------------------------------------------------

/// Every variable id of the equation is below `n`.
pub open spec fn eq_vars_bounded(e: EquationModel, n: int) -> bool {
    forall|j: int| 0 <= j < e.variable_ids.len() ==> (#[trigger] e.variable_ids[j]) < n
}

/// Every variable id of every equation is below `n`.
pub open spec fn eqs_vars_bounded(eqs: Seq<EquationModel>, n: int) -> bool {
    forall|i: int| 0 <= i < eqs.len() ==> eq_vars_bounded(#[trigger] eqs[i], n)
}

/// Every root-map entry points at an existing component.
pub open spec fn rmap_wf(comps: Seq<ComponentModel>, rmap: Seq<Option<usize>>, n: int) -> bool {
    &&& rmap.len() == n
    &&& forall|r: int|
        0 <= r < n && (#[trigger] rmap[r]) is Some ==> rmap[r]->0 < comps.len()
}

/// The union/touch pass keeps the union-find well-formed and the touched
/// list at length `n`.
pub proof fn lemma_dsu_fold_wf(n: int, eqs: Seq<EquationModel>, i: int)
    requires
        0 <= n,
        eqs_vars_bounded(eqs, n),
        0 <= i <= eqs.len(),
    ensures
        dsu_wf(dsu_fold(n, eqs, i).0, n),
        dsu_fold(n, eqs, i).1.len() == n,
    decreases i,
{
    if i > 0 {
        lemma_dsu_fold_wf(n, eqs, i - 1);
        let st = dsu_fold(n, eqs, i - 1);
        let e = eqs[i - 1];
        assert(eq_vars_bounded(e, n));
        if e.kind is LocalClue && e.variable_ids.len() > 0 {
            assert(e.variable_ids[0] < n);
            lemma_union_list_wf(st.0, n, e.variable_ids[0], e.variable_ids,
                e.variable_ids.len() as int);
            lemma_touch_list_len(st.1, e.variable_ids, e.variable_ids.len() as int);
        }
    }
}

pub proof fn lemma_union_list_wf(d: DsuModel, n: int, first: usize, vids: Seq<usize>, j: int)
    requires
        dsu_wf(d, n),
        first < n,
        forall|k: int| 0 <= k < vids.len() ==> (#[trigger] vids[k]) < n,
        j <= vids.len(),
    ensures
        dsu_wf(union_list(d, first, vids, j), n),
    decreases j,
{
    if j > 1 {
        lemma_union_list_wf(d, n, first, vids, j - 1);
        crate::dsu::lemma_union_spec_wf(union_list(d, first, vids, j - 1), n, first, vids[j - 1]);
    }
}

pub proof fn lemma_touch_list_len(t: Seq<bool>, vids: Seq<usize>, j: int)
    requires
        j <= vids.len(),
        forall|k: int| 0 <= k < vids.len() ==> (#[trigger] vids[k]) < t.len(),
    ensures
        touch_list(t, vids, j).len() == t.len(),
    decreases j,
{
    if j > 0 {
        lemma_touch_list_len(t, vids, j - 1);
    }
}

/// Grouping keeps the root map consistent: entries point below the current
/// component count, and the component list only ever grows.
pub proof fn lemma_groups_up_to_wf(d: DsuModel, touched: Seq<bool>, n: int, v: int)
    requires
        dsu_wf(d, n),
        0 <= v <= n,
        touched.len() == n,
    ensures
        rmap_wf(groups_up_to(d, touched, n, v).0, groups_up_to(d, touched, n, v).1, n),
    decreases v,
{
    if v > 0 {
        lemma_groups_up_to_wf(d, touched, n, v - 1);
        let st = groups_up_to(d, touched, n, v - 1);
        if touched[v - 1] {
            lemma_find_at_bound(d, n, (v - 1) as usize, d.parent.len() as int);
        }
    }
}

/// The attach sweep never changes how many components exist, nor any
/// component's variable list.
pub proof fn lemma_attach_sweep_shape(
    comps: Seq<ComponentModel>,
    rmap: Seq<Option<usize>>,
    seen: Seq<bool>,
    eqid: usize,
    r: int,
    n: int,
)
    requires
        rmap_wf(comps, rmap, n),
        r <= n,
    ensures
        attach_sweep(comps, rmap, seen, eqid, r).len() == comps.len(),
        forall|c: int|
            0 <= c < comps.len() ==> (#[trigger] attach_sweep(
                comps,
                rmap,
                seen,
                eqid,
                r,
            )[c]).variable_ids == comps[c].variable_ids,
        rmap_wf(attach_sweep(comps, rmap, seen, eqid, r), rmap, n),
    decreases r,
{
    if r > 0 {
        lemma_attach_sweep_shape(comps, rmap, seen, eqid, r - 1, n);
    }
}

/// The attach pass as a whole keeps the component count and every
/// variable list unchanged.
pub proof fn lemma_attach_fold_shape(
    d: DsuModel,
    touched: Seq<bool>,
    rmap: Seq<Option<usize>>,
    n: int,
    eqs: Seq<EquationModel>,
    comps: Seq<ComponentModel>,
    i: int,
)
    requires
        rmap_wf(comps, rmap, n),
    ensures
        attach_fold(d, touched, rmap, n, eqs, comps, i).len() == comps.len(),
        forall|c: int|
            0 <= c < comps.len() ==> (#[trigger] attach_fold(
                d,
                touched,
                rmap,
                n,
                eqs,
                comps,
                i,
            )[c]).variable_ids == comps[c].variable_ids,
        rmap_wf(attach_fold(d, touched, rmap, n, eqs, comps, i), rmap, n),
    decreases i,
{
    if i > 0 {
        lemma_attach_fold_shape(d, touched, rmap, n, eqs, comps, i - 1);
        let prev = attach_fold(d, touched, rmap, n, eqs, comps, i - 1);
        let e = eqs[i - 1];
        if e.kind is LocalClue {
            lemma_attach_sweep_shape(
                prev,
                rmap,
                seen_roots(d, touched, e.variable_ids, e.variable_ids.len() as int, n),
                e.id,
                n,
                n,
            );
        }
    }
}

/// Enumeration never produces more variables than scanned cells.
pub proof fn lemma_vars_before_len(obs: ObservationModel, x: int, y: int)
    requires
        0 <= x,
        0 <= y <= obs.sy,
        0 <= obs.sy,
    ensures
        vars_before(obs, x, y).len() <= x * obs.sy + y,
    decreases x, y,
{
    if y > 0 {
        lemma_vars_before_len(obs, x, y - 1);
    } else if x > 0 {
        lemma_vars_before_len(obs, x - 1, obs.sy);
        assert(x * obs.sy == (x - 1) * obs.sy + obs.sy) by (nonlinear_arith);
    }
}

/// Variable ids are dense: the variable at index `i` carries id `i`.
pub proof fn lemma_vars_ids_dense(obs: ObservationModel, x: int, y: int)
    requires
        0 <= x <= 255,
        0 <= y <= obs.sy,
        0 <= obs.sy <= 255,
    ensures
        forall|i: int|
            0 <= i < vars_before(obs, x, y).len() ==> (#[trigger] vars_before(obs, x, y)[i]).id
                == i,
    decreases x, y,
{
    if y > 0 {
        lemma_vars_ids_dense(obs, x, y - 1);
        lemma_vars_before_len(obs, x, y - 1);
        let prev = vars_before(obs, x, y - 1);
        let cur = vars_before(obs, x, y);
        assert(x * obs.sy <= 255 * 255) by (nonlinear_arith)
            requires
                0 <= x <= 255,
                0 <= obs.sy <= 255,
        ;
        assert(prev.len() <= 255 * 255 + 255);
        assert forall|i: int| 0 <= i < cur.len() implies (#[trigger] cur[i]).id == i by {
            if obs.hidden(x, y - 1) && i == prev.len() {
                assert(cur[i].id == prev.len() as usize);
            } else {
                assert(cur[i] == prev[i]);
            }
        }
    } else if x > 0 {
        lemma_vars_ids_dense(obs, x - 1, obs.sy);
        assert(vars_before(obs, x, y) == vars_before(obs, x - 1, obs.sy));
    }
}

/// The clue fold subtracts at most one mine per neighbor and includes at
/// most one variable per neighbor.
pub proof fn lemma_clue_scan_range(obs: ObservationModel, cfg: AnalysisConfig, ns: Seq<Coord2>, j: int)
    requires
        0 <= j,
    ensures
        0 <= clue_scan(obs, cfg, ns, j).0 <= j,
        clue_scan(obs, cfg, ns, j).1.len() <= j,
    decreases j,
{
    if j > 0 {
        lemma_clue_scan_range(obs, cfg, ns, j - 1);
    }
}

/// The global fold subtracts at most one mine per variable and includes at
/// most one id per variable.
pub proof fn lemma_global_scan_range(vars: Seq<ConstraintVariable>, cfg: AnalysisConfig, i: int)
    requires
        0 <= i,
    ensures
        0 <= global_scan(vars, cfg, i).0 <= i,
        global_scan(vars, cfg, i).1.len() <= i,
    decreases i,
{
    if i > 0 {
        lemma_global_scan_range(vars, cfg, i - 1);
    }
}

/// Every id the global fold includes is an id of one of the variables.
pub proof fn lemma_global_scan_ids(vars: Seq<ConstraintVariable>, cfg: AnalysisConfig, i: int)
    requires
        0 <= i <= vars.len(),
    ensures
        forall|k: int|
            0 <= k < global_scan(vars, cfg, i).1.len() ==> exists|v: int|
                0 <= v < i && (#[trigger] global_scan(vars, cfg, i).1[k]) == vars[v].id,
    decreases i,
{
    if i > 0 {
        lemma_global_scan_ids(vars, cfg, i - 1);
        let prev = global_scan(vars, cfg, i - 1);
        let cur = global_scan(vars, cfg, i);
        assert forall|k: int| 0 <= k < cur.1.len() implies exists|v: int|
            0 <= v < i && (#[trigger] cur.1[k]) == vars[v].id by {
            if k < prev.1.len() {
                assert(cur.1[k] == prev.1[k]);
                let v0 = choose|v: int| 0 <= v < i - 1 && prev.1[k] == vars[v].id;
                assert(0 <= v0 < i && cur.1[k] == vars[v0].id);
            } else {
                assert(cur.1[k] == vars[i - 1].id);
            }
        }
    }
}

/// The finished id-lookup grid: every in-bounds cell agrees with
/// `expected_lookup`.
pub open spec fn lookup_done(obs: ObservationModel, lk: GridModel<Option<usize>>) -> bool {
    forall|a: int, b: int|
        obs.in_bounds(a, b) ==> (#[trigger] lk.at(a, b)) == expected_lookup(obs, a, b)
}

/// Every id the lookup grid holds is below `n`.
pub open spec fn lookup_bounded(obs: ObservationModel, lk: GridModel<Option<usize>>, n: int) -> bool {
    forall|a: int, b: int|
        obs.in_bounds(a, b) && (#[trigger] lk.at(a, b)) is Some ==> lk.at(a, b)->0 < n
}

/// The number of hidden cells strictly before `(x, y)` in scan order.
pub open spec fn hidden_before(obs: ObservationModel, x: int, y: int) -> int
    decreases x, y,
{
    if y > 0 {
        hidden_before(obs, x, y - 1) + if obs.hidden(x, y - 1) {
            1int
        } else {
            0int
        }
    } else if x > 0 {
        hidden_before(obs, x - 1, obs.sy)
    } else {
        0
    }
}

/// The number of hidden cells on the whole board.
pub open spec fn hidden_count(obs: ObservationModel) -> int {
    hidden_before(obs, obs.sx, 0)
}

/// The variable a hidden cell at `(a, b)` gives rise to.
pub open spec fn var_entry(obs: ObservationModel, a: int, b: int) -> ConstraintVariable {
    ConstraintVariable {
        id: var_id(obs, a, b),
        coords: (a as Coord, b as Coord),
        flagged: obs.flags.at(a, b),
    }
}

} // verus!
