//! The constraint builder: turns an [`Observation`] into boolean-variable
//! linear equations, reports contradictions, and partitions the variables
//! into independent components.  The whole result is pinned down by the
//! mathematical model in [`crate::model`]: `build_constraints` returns
//! exactly `build_spec` of its inputs.

use vstd::prelude::*;

use crate::dsu::Dsu;
use crate::grid::{lemma_flat_index_bound, Grid};
use crate::model::{
    attach_fold, attach_sweep, build_spec, build_valid, clue_scan, components_spec, dsu_fold,
    dsu_step, empty_output_spec, eq_vars_bounded, eqs_vars_bounded, expected_lookup, global_scan,
    group_step, groups_up_to, lemma_clue_scan_range, lemma_dsu_fold_wf,
    lemma_global_scan_range, lemma_groups_up_to_wf, lemma_vars_before_len, lemma_vars_ids_dense,
    local_step, locals_before, locals_full, lookup_bounded, lookup_done, lookup_filled_to,
    max_comp_vars, rmap_wf, scan_lt, seen_roots, touch_list, union_list, untouched_up_to,
    var_id, var_step, vars_before, vars_full, with_global,
};
use crate::observation::{Observation, ObservationModel};
use crate::types::{lemma_neighbors_in_bounds, lemma_neighbors_len, mult, neighbor_list,
    neighbor_seq, CellCount, Coord, Coord2};

verus! {

/// How a player's flags are interpreted while building equations.
#[derive(Copy, Clone, Debug, PartialEq, Eq, Structural)]
pub enum FlagSemantics {
    /// Flags are hints: flagged hidden cells stay ordinary variables.
    Soft,
    /// Flags are trusted: flagged hidden cells count as known mines.
    Strict,
}

impl Default for FlagSemantics {
    fn default() -> (r: Self)
        ensures
            r is Soft,
    {
        FlagSemantics::Soft
    }
}

/// Whether a known total mine count contributes a global equation.
#[derive(Copy, Clone, Debug, PartialEq, Eq, Structural)]
pub enum MineCountUsage {
    UseIfKnown,
    Ignore,
}

impl Default for MineCountUsage {
    fn default() -> (r: Self)
        ensures
            r is UseIfKnown,
    {
        MineCountUsage::UseIfKnown
    }
}

/// The two independent options that configure a build.
#[derive(Copy, Clone, Debug, PartialEq, Eq, Structural)]
pub struct AnalysisConfig {
    pub flag_semantics: FlagSemantics,
    pub mine_count_usage: MineCountUsage,
}

impl Default for AnalysisConfig {
    fn default() -> (r: Self)
        ensures
            r.flag_semantics is Soft,
            r.mine_count_usage is UseIfKnown,
    {
        AnalysisConfig { flag_semantics: FlagSemantics::Soft, mine_count_usage: MineCountUsage::UseIfKnown }
    }
}

/// One boolean unknown: a hidden cell that may or may not hold a mine.
#[derive(Copy, Clone, Debug)]
pub struct ConstraintVariable {
    /// Dense id assigned in board scan order.
    pub id: usize,
    pub coords: Coord2,
    /// Whether the player had flagged the cell.
    pub flagged: bool,
}

impl PartialEq for ConstraintVariable {
    fn eq(&self, other: &Self) -> (r: bool) {
        self.id == other.id && self.coords.0 == other.coords.0 && self.coords.1 == other.coords.1
            && self.flagged == other.flagged
    }
}

impl vstd::std_specs::cmp::PartialEqSpecImpl for ConstraintVariable {
    open spec fn obeys_eq_spec() -> bool {
        true
    }

    open spec fn eq_spec(&self, other: &Self) -> bool {
        self == other
    }
}

/// Where an equation comes from.
#[derive(Copy, Clone, Debug)]
pub enum EquationKind {
    /// One revealed cell's adjacent-mine clue.
    LocalClue { clue: Coord2 },
    /// The board's known total mine count.
    GlobalMineCount,
}

impl PartialEq for EquationKind {
    fn eq(&self, other: &Self) -> (r: bool) {
        match (self, other) {
            (EquationKind::LocalClue { clue: a }, EquationKind::LocalClue { clue: b }) => a.0
                == b.0 && a.1 == b.1,
            (EquationKind::GlobalMineCount, EquationKind::GlobalMineCount) => true,
            _ => false,
        }
    }
}

impl vstd::std_specs::cmp::PartialEqSpecImpl for EquationKind {
    open spec fn obeys_eq_spec() -> bool {
        true
    }

    open spec fn eq_spec(&self, other: &Self) -> bool {
        self == other
    }
}

/// A linear constraint: the listed variables sum to `target_mines`.
#[derive(Clone, Debug, PartialEq)]
pub struct ConstraintEquation {
    /// Dense id in generation order: local clues first, then the global
    /// equation if present.
    pub id: usize,
    pub kind: EquationKind,
    /// Participating variables, in neighbor enumeration order.
    pub variable_ids: Vec<usize>,
    pub target_mines: CellCount,
}

/// Mathematical model of a [`ConstraintEquation`].
#[verifier::ext_equal]
pub struct EquationModel {
    pub id: usize,
    pub kind: EquationKind,
    pub variable_ids: Seq<usize>,
    pub target_mines: CellCount,
}

impl View for ConstraintEquation {
    type V = EquationModel;

    open spec fn view(&self) -> EquationModel {
        EquationModel {
            id: self.id,
            kind: self.kind,
            variable_ids: self.variable_ids@,
            target_mines: self.target_mines,
        }
    }
}

/// A maximal set of variables linked through shared local equations, with
/// the ids of the equations that touch it.
#[derive(Clone, Debug, PartialEq)]
pub struct ConstraintComponent {
    pub variable_ids: Vec<usize>,
    pub equation_ids: Vec<usize>,
}

/// Mathematical model of a [`ConstraintComponent`].
#[verifier::ext_equal]
pub struct ComponentModel {
    pub variable_ids: Seq<usize>,
    pub equation_ids: Seq<usize>,
}

impl View for ConstraintComponent {
    type V = ComponentModel;

    open spec fn view(&self) -> ComponentModel {
        ComponentModel { variable_ids: self.variable_ids@, equation_ids: self.equation_ids@ }
    }
}

/// The assembled problem: everything a downstream solver needs.
#[derive(Clone, Debug, PartialEq)]
pub struct ConstraintProblem {
    pub variables: Vec<ConstraintVariable>,
    pub equations: Vec<ConstraintEquation>,
    pub components: Vec<ConstraintComponent>,
    /// Variables no local equation mentions, ascending.
    pub unconstrained_variable_ids: Vec<usize>,
}

/// Mathematical model of a [`ConstraintProblem`].
#[verifier::ext_equal]
pub struct ProblemModel {
    pub variables: Seq<ConstraintVariable>,
    pub equations: Seq<EquationModel>,
    pub components: Seq<ComponentModel>,
    pub unconstrained_variable_ids: Seq<usize>,
}

impl View for ConstraintProblem {
    type V = ProblemModel;

    open spec fn view(&self) -> ProblemModel {
        ProblemModel {
            variables: self.variables@,
            equations: self.equations@.map_values(|e: ConstraintEquation| e@),
            components: self.components@.map_values(|c: ConstraintComponent| c@),
            unconstrained_variable_ids: self.unconstrained_variable_ids@,
        }
    }
}

/// A detected infeasibility.  The first two variants are fatal shape
/// problems; the last two record a board state that admits no mine
/// assignment under the chosen semantics.
#[derive(Copy, Clone, Debug)]
pub enum Contradiction {
    /// A grid's dimensions do not match the observation's declared size.
    InvalidObservationShape,
    /// The declared mine count exceeds the cell count.
    InvalidMineCount { mine_count: CellCount, max_cells: CellCount },
    /// One clue demands an impossible number of mines among its hidden
    /// neighbors.
    LocalClueImpossible { clue: Coord2, target_mines: i16, available_variables: usize },
    /// The global mine count demands an impossible number of mines.
    GlobalMineCountImpossible { target_mines: i32, available_variables: usize },
}

impl PartialEq for Contradiction {
    fn eq(&self, other: &Self) -> (r: bool) {
        match (self, other) {
            (Contradiction::InvalidObservationShape, Contradiction::InvalidObservationShape) => true,
            (
                Contradiction::InvalidMineCount { mine_count: a1, max_cells: a2 },
                Contradiction::InvalidMineCount { mine_count: b1, max_cells: b2 },
            ) => a1 == b1 && a2 == b2,
            (
                Contradiction::LocalClueImpossible {
                    clue: c1,
                    target_mines: t1,
                    available_variables: v1,
                },
                Contradiction::LocalClueImpossible {
                    clue: c2,
                    target_mines: t2,
                    available_variables: v2,
                },
            ) => c1.0 == c2.0 && c1.1 == c2.1 && t1 == t2 && v1 == v2,
            (
                Contradiction::GlobalMineCountImpossible { target_mines: t1, available_variables: v1 },
                Contradiction::GlobalMineCountImpossible { target_mines: t2, available_variables: v2 },
            ) => t1 == t2 && v1 == v2,
            _ => false,
        }
    }
}

impl vstd::std_specs::cmp::PartialEqSpecImpl for Contradiction {
    open spec fn obeys_eq_spec() -> bool {
        true
    }

    open spec fn eq_spec(&self, other: &Self) -> bool {
        self == other
    }
}

/// Read-only counters summarizing a build; recomputable from the problem.
#[derive(Clone, Debug, PartialEq, Eq, Structural)]
pub struct ConstraintStats {
    pub variable_count: usize,
    pub local_equation_count: usize,
    pub global_equation_count: usize,
    pub component_count: usize,
    pub max_component_variables: usize,
    pub contradiction_count: usize,
}

/// Everything a build returns: the problem, the contradictions found, and
/// summary statistics.
#[derive(Clone, Debug, PartialEq)]
pub struct ConstraintBuildOutput {
    pub problem: ConstraintProblem,
    pub contradictions: Vec<Contradiction>,
    pub stats: ConstraintStats,
}

/// Mathematical model of a [`ConstraintBuildOutput`].
#[verifier::ext_equal]
pub struct BuildOutputModel {
    pub problem: ProblemModel,
    pub contradictions: Seq<Contradiction>,
    pub stats: ConstraintStats,
}

impl View for ConstraintBuildOutput {
    type V = BuildOutputModel;

    open spec fn view(&self) -> BuildOutputModel {
        BuildOutputModel {
            problem: self.problem@,
            contradictions: self.contradictions@,
            stats: self.stats,
        }
    }
}

/// The model image of a list of equations.
pub open spec fn eqs_view(s: Seq<ConstraintEquation>) -> Seq<EquationModel> {
    s.map_values(|e: ConstraintEquation| e@)
}

/// The model image of a list of components.
pub open spec fn comps_view(s: Seq<ConstraintComponent>) -> Seq<ComponentModel> {
    s.map_values(|c: ConstraintComponent| c@)
}

/// A vector of `n` copies of `v`.
fn filled_row<T: Copy>(n: usize, v: T) -> (r: Vec<T>)
    ensures
        r@ == Seq::new(n as nat, |k: int| v),
{
    let mut out: Vec<T> = Vec::new();
    let mut i: usize = 0;
    while i < n
        invariant
            i <= n,
            out@.len() == i,
            forall|k: int| 0 <= k < i ==> out@[k] == v,
        decreases n - i,
    {
        out.push(v);
        i = i + 1;
    }
    proof {
        assert(out@ =~= Seq::new(n as nat, |k: int| v));
    }
    out
}

/// Groups the touched variables into components by union-find root,
/// attaches each local equation's id to the component its variables
/// resolve to, and collects the untouched variables.
fn build_components(variable_count: usize, equations: &Vec<ConstraintEquation>) -> (r: (
    Vec<ConstraintComponent>,
    Vec<usize>,
))
    requires
        eqs_vars_bounded(eqs_view(equations@), variable_count as int),
    ensures
        comps_view(r.0@) == components_spec(variable_count as int, eqs_view(equations@)).0,
        r.1@ == components_spec(variable_count as int, eqs_view(equations@)).1,
{
    let n = variable_count;
    let ghost eqs_m = eqs_view(equations@);
    let ghost n_i = n as int;

    let mut dsu = Dsu::new(n);
    let mut touched: Vec<bool> = filled_row(n, false);
    proof {
        assert(touched@ =~= dsu_fold(n_i, eqs_m, 0).1);
    }

    let mut i: usize = 0;
    while i < equations.len()
        invariant
            n_i == n as int,
            eqs_m == eqs_view(equations@),
            eqs_vars_bounded(eqs_m, n_i),
            i <= equations.len(),
            equations@.len() == eqs_m.len(),
            dsu@ == dsu_fold(n_i, eqs_m, i as int).0,
            touched@ == dsu_fold(n_i, eqs_m, i as int).1,
            dsu.wf(),
            dsu.universe() == n_i,
            touched@.len() == n,
        decreases equations.len() - i,
    {
        proof {
            lemma_dsu_fold_wf(n_i, eqs_m, i as int);
            assert(eqs_m[i as int] == equations@[i as int]@);
        }
        let eq = &equations[i];
        if matches!(eq.kind, EquationKind::LocalClue { .. }) && eq.variable_ids.len() > 0 {
            let ghost d0 = dsu@;
            let ghost t_prev = touched@;
            let ghost vids = eq@.variable_ids;
            proof {
                assert(eq_vars_bounded(eqs_m[i as int], n_i));
                assert(vids[0] < n_i);
            }
            let first = eq.variable_ids[0];
            touched.set(first, true);
            proof {
                assert(touch_list(t_prev, vids, 0) == t_prev);
                assert(touched@ == touch_list(t_prev, vids, 1));
            }
            let mut j: usize = 1;
            while j < eq.variable_ids.len()
                invariant
                    1 <= j <= eq.variable_ids.len(),
                    eq == &equations@[i as int],
                    i < equations@.len(),
                    eqs_m == eqs_view(equations@),
                    eq_vars_bounded(eqs_m[i as int], n_i),
                    eqs_m[i as int] == eq@,
                    vids == eq@.variable_ids,
                    first == vids[0],
                    first < n,
                    n_i == n as int,
                    dsu@ == union_list(d0, first, vids, j as int),
                    touched@ == touch_list(t_prev, vids, j as int),
                    dsu.wf(),
                    dsu.universe() == n_i,
                    touched@.len() == n,
                decreases eq.variable_ids.len() - j,
            {
                proof {
                    assert(vids[j as int] < n_i);
                }
                let var = eq.variable_ids[j];
                touched.set(var, true);
                dsu.union(first, var);
                j = j + 1;
            }
            proof {
                assert(dsu_fold(n_i, eqs_m, i as int + 1) == dsu_step(
                    dsu_fold(n_i, eqs_m, i as int),
                    eqs_m[i as int],
                ));
                assert(dsu@ == dsu_fold(n_i, eqs_m, i as int + 1).0);
                assert(touched@ == dsu_fold(n_i, eqs_m, i as int + 1).1);
            }
        } else {
            proof {
                assert(dsu_fold(n_i, eqs_m, i as int + 1) == dsu_step(
                    dsu_fold(n_i, eqs_m, i as int),
                    eqs_m[i as int],
                ));
            }
        }
        i = i + 1;
    }

    let ghost d = dsu@;
    let ghost tch = touched@;

    let mut comps: Vec<ConstraintComponent> = Vec::new();
    let mut rmap: Vec<Option<usize>> = filled_row(n, None::<usize>);
    proof {
        assert(rmap@ =~= groups_up_to(d, tch, n_i, 0).1);
        assert(comps_view(comps@) =~= groups_up_to(d, tch, n_i, 0).0);
    }

    let mut v: usize = 0;
    while v < n
        invariant
            v <= n,
            n_i == n as int,
            comps_view(comps@) == groups_up_to(d, tch, n_i, v as int).0,
            rmap@ == groups_up_to(d, tch, n_i, v as int).1,
            dsu@ == d,
            touched@ == tch,
            dsu.wf(),
            dsu.universe() == n_i,
            tch.len() == n,
        decreases n - v,
    {
        proof {
            lemma_groups_up_to_wf(d, tch, n_i, v as int);
        }
        let ghost st = groups_up_to(d, tch, n_i, v as int);
        if touched[v] {
            let root = dsu.find(v);
            let rv = rmap[root];
            match rv {
                Some(ci) => {
                    let mut entry = comps.remove(ci);
                    entry.variable_ids.push(v);
                    comps.insert(ci, entry);
                    proof {
                        let nxt = group_step(d, tch, st, v as int);
                        assert(comps_view(comps@) =~= nxt.0);
                        assert(rmap@ == nxt.1);
                    }
                },
                None => {
                    let idx = comps.len();
                    let mut fresh_vars: Vec<usize> = Vec::new();
                    fresh_vars.push(v);
                    comps.push(
                        ConstraintComponent { variable_ids: fresh_vars, equation_ids: Vec::new() },
                    );
                    rmap.set(root, Some(idx));
                    proof {
                        let nxt = group_step(d, tch, st, v as int);
                        assert(comps@[idx as int]@.variable_ids =~= seq![v]);
                        assert(comps@[idx as int]@.equation_ids =~= Seq::<usize>::empty());
                        assert(comps_view(comps@) =~= nxt.0);
                        assert(rmap@ =~= nxt.1);
                    }
                },
            }
        }
        v = v + 1;
    }

    proof {
        lemma_groups_up_to_wf(d, tch, n_i, n_i);
    }
    let ghost comps0 = comps_view(comps@);
    let ghost rm = rmap@;

    let mut i2: usize = 0;
    while i2 < equations.len()
        invariant
            i2 <= equations.len(),
            n_i == n as int,
            eqs_m == eqs_view(equations@),
            eqs_vars_bounded(eqs_m, n_i),
            equations@.len() == eqs_m.len(),
            comps_view(comps@) == attach_fold(d, tch, rm, n_i, eqs_m, comps0, i2 as int),
            rmap@ == rm,
            rmap_wf(comps0, rm, n_i),
            dsu@ == d,
            touched@ == tch,
            dsu.wf(),
            dsu.universe() == n_i,
            tch.len() == n,
        decreases equations.len() - i2,
    {
        proof {
            assert(eqs_m[i2 as int] == equations@[i2 as int]@);
        }
        let eq = &equations[i2];
        if matches!(eq.kind, EquationKind::LocalClue { .. }) {
            let ghost vids = eq@.variable_ids;
            let mut seen: Vec<bool> = filled_row(n, false);
            proof {
                assert(seen@ =~= seen_roots(d, tch, vids, 0, n_i));
            }
            let mut j: usize = 0;
            while j < eq.variable_ids.len()
                invariant
                    j <= eq.variable_ids.len(),
                    eq == &equations@[i2 as int],
                    i2 < equations@.len(),
                    eqs_m == eqs_view(equations@),
                    eq_vars_bounded(eqs_m[i2 as int], n_i),
                    eqs_m[i2 as int] == eq@,
                    vids == eq@.variable_ids,
                    n_i == n as int,
                    seen@ == seen_roots(d, tch, vids, j as int, n_i),
                    seen@.len() == n,
                    dsu@ == d,
                    touched@ == tch,
                    dsu.wf(),
                    dsu.universe() == n_i,
                    tch.len() == n,
                decreases eq.variable_ids.len() - j,
            {
                proof {
                    assert(vids[j as int] < n_i);
                }
                let var = eq.variable_ids[j];
                if touched[var] {
                    let rt = dsu.find(var);
                    seen.set(rt, true);
                }
                j = j + 1;
            }
            let ghost sn = seen@;
            let ghost cprev = comps_view(comps@);
            proof {
                crate::model::lemma_attach_fold_shape(d, tch, rm, n_i, eqs_m, comps0, i2 as int);
            }
            let eq_id = eq.id;
            let mut root: usize = 0;
            while root < n
                invariant
                    root <= n,
                    n_i == n as int,
                    sn == seen@,
                    sn.len() == n,
                    rmap@ == rm,
                    rmap_wf(comps0, rm, n_i),
                    cprev.len() == comps0.len(),
                    comps_view(comps@) == attach_sweep(cprev, rm, sn, eq_id, root as int),
                decreases n - root,
            {
                proof {
                    crate::model::lemma_attach_sweep_shape(cprev, rm, sn, eq_id, root as int, n_i);
                }
                if seen[root] {
                    let rv = rmap[root];
                    match rv {
                        Some(ci) => {
                            let mut entry = comps.remove(ci);
                            entry.equation_ids.push(eq_id);
                            comps.insert(ci, entry);
                            proof {
                                assert(comps_view(comps@) =~= attach_sweep(
                                    cprev,
                                    rm,
                                    sn,
                                    eq_id,
                                    root as int + 1,
                                ));
                            }
                        },
                        None => {},
                    }
                }
                root = root + 1;
            }
            proof {
                assert(sn =~= seen_roots(d, tch, vids, vids.len() as int, n_i));
                assert(comps_view(comps@) == attach_fold(
                    d,
                    tch,
                    rm,
                    n_i,
                    eqs_m,
                    comps0,
                    i2 as int + 1,
                ));
            }
        }
        i2 = i2 + 1;
    }

    let mut unconstrained: Vec<usize> = Vec::new();
    let mut v2: usize = 0;
    while v2 < n
        invariant
            v2 <= n,
            n_i == n as int,
            touched@ == tch,
            tch.len() == n,
            unconstrained@ == untouched_up_to(tch, v2 as int),
        decreases n - v2,
    {
        if !touched[v2] {
            unconstrained.push(v2);
        }
        v2 = v2 + 1;
    }

    (comps, unconstrained)
}

/// The degenerate result of a fatal precondition violation.
fn empty_output(contradictions: Vec<Contradiction>) -> (out: ConstraintBuildOutput)
    ensures
        out@ == empty_output_spec(contradictions@),
{
    let contradiction_count = contradictions.len();
    let out = ConstraintBuildOutput {
        problem: ConstraintProblem {
            variables: Vec::new(),
            equations: Vec::new(),
            components: Vec::new(),
            unconstrained_variable_ids: Vec::new(),
        },
        contradictions,
        stats: ConstraintStats {
            variable_count: 0,
            local_equation_count: 0,
            global_equation_count: 0,
            component_count: 0,
            max_component_variables: 0,
            contradiction_count,
        },
    };
    proof {
        assert(out@.problem =~~= empty_output_spec(out.contradictions@).problem);
    }
    out
}

/// Builds the constraint system for one observation: validates its shape,
/// enumerates hidden cells as variables, derives a local equation per
/// revealed clue and optionally the global mine-count equation, records
/// contradictions for infeasible targets, and partitions the variables
/// into components.  The result is exactly the model's `build_spec`, so it
/// is deterministic and total: no observation makes it panic.
pub fn build_constraints(obs: &Observation, cfg: AnalysisConfig) -> (out: ConstraintBuildOutput)
    ensures
        out@ == build_spec(obs@, cfg),
{
    let ghost om = obs@;
    let mut contradictions: Vec<Contradiction> = Vec::new();

    proof {
        use_type_invariant(&obs.revealed);
        use_type_invariant(&obs.flags);
    }

    let rsize = obs.revealed.size();
    let fsize = obs.flags.size();
    if rsize.0 != obs.size.0 || rsize.1 != obs.size.1 || fsize.0 != obs.size.0 || fsize.1
        != obs.size.1 {
        contradictions.push(Contradiction::InvalidObservationShape);
        proof {
            assert(contradictions@ =~= seq![Contradiction::InvalidObservationShape]);
            assert(!om.shape_ok());
        }
        return empty_output(contradictions);
    }

    if let Some(mine_count) = obs.mine_count {
        let max_cells = mult(obs.size.0, obs.size.1);
        if mine_count > max_cells {
            contradictions.push(
                Contradiction::InvalidMineCount { mine_count, max_cells },
            );
            proof {
                assert(max_cells == om.total_cells() as CellCount);
                assert(contradictions@ =~= seq![
                    Contradiction::InvalidMineCount {
                        mine_count,
                        max_cells: om.total_cells() as CellCount,
                    },
                ]);
            }
            return empty_output(contradictions);
        }
    }

    let x_end = obs.size.0;
    let y_end = obs.size.1;
    proof {
        assert(om.shape_ok());
        assert(om.sx as Coord == x_end);
        assert(om.sy as Coord == y_end);
    }

    // Variable enumeration: every hidden cell, in scan order.
    let mut variables: Vec<ConstraintVariable> = Vec::new();
    let mut variable_ids: Grid<Option<usize>> = Grid::from_elem(obs.size, None);
    proof {
        assert forall|a: int, b: int| om.in_bounds(a, b) implies #[trigger] variable_ids@.at(a, b)
            == None::<usize> by {
            lemma_flat_index_bound(a, b, om.sx, om.sy);
        }
    }

    let mut x: Coord = 0;
    while x < x_end
        invariant
            x <= x_end,
            om == obs@,
            om.shape_ok(),
            om.revealed.wf(),
            om.flags.wf(),
            x_end == om.sx,
            y_end == om.sy,
            variables@ == vars_before(om, x as int, 0),
            variable_ids@.sx == om.sx,
            variable_ids@.sy == om.sy,
            lookup_filled_to(om, variable_ids@, x as int, 0),
            lookup_bounded(om, variable_ids@, variables@.len() as int),
        decreases x_end - x,
    {
        let mut y: Coord = 0;
        while y < y_end
            invariant
                x < x_end,
                y <= y_end,
                om == obs@,
                om.shape_ok(),
                om.revealed.wf(),
                om.flags.wf(),
                x_end == om.sx,
                y_end == om.sy,
                variables@ == vars_before(om, x as int, y as int),
                variable_ids@.sx == om.sx,
                variable_ids@.sy == om.sy,
                lookup_filled_to(om, variable_ids@, x as int, y as int),
                lookup_bounded(om, variable_ids@, variables@.len() as int),
            decreases y_end - y,
        {
            let coords = (x, y);
            let ghost vs_prev = variables@;
            let ghost lk_prev = variable_ids@;
            let rv = obs.revealed.get(coords);
            if rv.is_none() {
                let id = variables.len();
                proof {
                    assert(id == var_id(om, x as int, y as int));
                }
                let flagged = obs.flags.get(coords);
                variables.push(ConstraintVariable { id, coords, flagged });
                variable_ids.set(coords, Some(id));
            }
            proof {
                assert(variables@ == var_step(om, vs_prev, x as int, y as int));
                assert(variables@ == vars_before(om, x as int, y as int + 1));
                assert forall|a: int, b: int| om.in_bounds(a, b) implies (
                #[trigger] variable_ids@.at(a, b)) == if scan_lt(a, b, x as int, y as int + 1) {
                    expected_lookup(om, a, b)
                } else {
                    None::<usize>
                } by {
                    if a == x as int && b == y as int {
                    } else {
                        assert(variable_ids@.at(a, b) == lk_prev.at(a, b));
                    }
                }
                assert(lookup_bounded(om, variable_ids@, variables@.len() as int));
            }
            y = y + 1;
        }
        proof {
            assert(vars_before(om, x as int + 1, 0) == vars_before(om, x as int, om.sy));
            assert forall|a: int, b: int| om.in_bounds(a, b) implies (
            #[trigger] variable_ids@.at(a, b)) == if scan_lt(a, b, x as int + 1, 0) {
                expected_lookup(om, a, b)
            } else {
                None::<usize>
            } by {
                assert(scan_lt(a, b, x as int + 1, 0) == scan_lt(a, b, x as int, om.sy));
            }
        }
        x = x + 1;
    }

    proof {
        assert(variables@ == vars_full(om));
        assert forall|a: int, b: int| om.in_bounds(a, b) implies (
        #[trigger] variable_ids@.at(a, b)) == expected_lookup(om, a, b) by {
            assert(scan_lt(a, b, om.sx, 0));
        }
        assert(lookup_done(om, variable_ids@));
    }
    let ghost n_vars = variables@.len() as int;

    // Local equations: one candidate per revealed clue.
    let mut equations: Vec<ConstraintEquation> = Vec::new();
    let mut local_equation_count: usize = 0;

    let mut x2: Coord = 0;
    while x2 < x_end
        invariant
            x2 <= x_end,
            om == obs@,
            om.shape_ok(),
            om.revealed.wf(),
            om.flags.wf(),
            x_end == om.sx,
            y_end == om.sy,
            variables@ == vars_full(om),
            n_vars == variables@.len() as int,
            lookup_done(om, variable_ids@),
            lookup_bounded(om, variable_ids@, n_vars),
            variable_ids@.sx == om.sx,
            variable_ids@.sy == om.sy,
            eqs_view(equations@) == locals_before(om, cfg, x2 as int, 0).0,
            contradictions@ == locals_before(om, cfg, x2 as int, 0).1,
            local_equation_count == equations@.len(),
            eqs_vars_bounded(eqs_view(equations@), n_vars),
        decreases x_end - x2,
    {
        let mut y2: Coord = 0;
        while y2 < y_end
            invariant
                x2 < x_end,
                y2 <= y_end,
                om == obs@,
                om.shape_ok(),
                om.revealed.wf(),
                om.flags.wf(),
                x_end == om.sx,
                y_end == om.sy,
                variables@ == vars_full(om),
                n_vars == variables@.len() as int,
                lookup_done(om, variable_ids@),
                lookup_bounded(om, variable_ids@, n_vars),
                variable_ids@.sx == om.sx,
                variable_ids@.sy == om.sy,
                eqs_view(equations@) == locals_before(om, cfg, x2 as int, y2 as int).0,
                contradictions@ == locals_before(om, cfg, x2 as int, y2 as int).1,
                local_equation_count == equations@.len(),
                eqs_vars_bounded(eqs_view(equations@), n_vars),
            decreases y_end - y2,
        {
            let clue = (x2, y2);
            let ghost st_prev = (eqs_view(equations@), contradictions@);
            let ghost nxt = local_step(om, cfg, st_prev, x2 as int, y2 as int);
            let rv = obs.revealed.get(clue);
            match rv {
                None => {
                    proof {
                        assert(nxt == st_prev);
                    }
                },
                Some(clue_mines) => {
                    let ns = neighbor_list(clue, obs.size);
                    proof {
                        lemma_neighbors_len(clue, obs.size, 8);
                        lemma_neighbors_in_bounds(clue, obs.size, 8);
                        assert((om.sx as Coord, om.sy as Coord) == obs.size);
                        assert(ns@ == neighbor_seq(
                            (x2 as int as Coord, y2 as int as Coord),
                            (om.sx as Coord, om.sy as Coord),
                        ));
                    }
                    let mut target_mines: i16 = clue_mines as i16;
                    let mut equation_vars: Vec<usize> = Vec::new();
                    let mut j: usize = 0;
                    while j < ns.len()
                        invariant
                            j <= ns.len(),
                            ns@.len() <= 8,
                            om == obs@,
                            om.shape_ok(),
                            om.revealed.wf(),
                            om.flags.wf(),
                            forall|k: int|
                                0 <= k < ns@.len() ==> (#[trigger] ns@[k]).0 < om.sx
                                    && ns@[k].1 < om.sy,
                            variables@ == vars_full(om),
                            n_vars == variables@.len() as int,
                            lookup_done(om, variable_ids@),
                            lookup_bounded(om, variable_ids@, n_vars),
                            variable_ids@.sx == om.sx,
                            variable_ids@.sy == om.sy,
                            target_mines as int == clue_mines - clue_scan(om, cfg, ns@,
                                j as int,
                            ).0,
                            equation_vars@ == clue_scan(om, cfg, ns@, j as int).1,
                            forall|k: int|
                                0 <= k < equation_vars@.len() ==> (
                                #[trigger] equation_vars@[k]) < n_vars,
                        decreases ns.len() - j,
                    {
                        proof {
                            lemma_clue_scan_range(om, cfg, ns@, j as int);
                            lemma_clue_scan_range(om, cfg, ns@, j as int + 1);
                        }
                        let neighbor = ns[j];
                        let ghost px = neighbor.0 as int;
                        let ghost py = neighbor.1 as int;
                        let nrv = obs.revealed.get(neighbor);
                        if nrv.is_some() {
                            proof {
                                assert(!om.hidden(px, py));
                            }
                        } else {
                            let fl = obs.flags.get(neighbor);
                            if matches!(cfg.flag_semantics, FlagSemantics::Strict) && fl {
                                target_mines = target_mines - 1;
                            } else {
                                let vid_opt = variable_ids.get(neighbor);
                                proof {
                                    assert(vid_opt == expected_lookup(om, px, py));
                                    assert(om.hidden(px, py));
                                    assert(vid_opt is Some);
                                }
                                let vid = vid_opt.unwrap();
                                equation_vars.push(vid);
                                proof {
                                    assert(vid == var_id(om, px, py));
                                }
                            }
                        }
                        j = j + 1;
                    }
                    let ghost scanned = clue_scan(om, cfg, ns@, ns@.len() as int);
                    proof {
                        lemma_clue_scan_range(om, cfg, ns@, ns@.len() as int);
                        assert(target_mines as int == clue_mines - scanned.0);
                        assert(equation_vars@ == scanned.1);
                    }
                    let avail = equation_vars.len();
                    let infeasible = if target_mines < 0 {
                        true
                    } else {
                        (target_mines as usize) > avail
                    };
                    if infeasible {
                        contradictions.push(
                            Contradiction::LocalClueImpossible {
                                clue,
                                target_mines,
                                available_variables: avail,
                            },
                        );
                        proof {
                            assert(contradictions@ =~= nxt.1);
                            assert(eqs_view(equations@) == nxt.0);
                        }
                    } else {
                        let id = equations.len();
                        let ghost eqs_prev = equations@;
                        equations.push(
                            ConstraintEquation {
                                id,
                                kind: EquationKind::LocalClue { clue },
                                variable_ids: equation_vars,
                                target_mines: target_mines as CellCount,
                            },
                        );
                        local_equation_count = equations.len();
                        proof {
                            assert(eqs_view(equations@) =~= eqs_view(eqs_prev).push(
                                equations@[id as int]@,
                            ));
                            assert(eqs_view(equations@) =~= nxt.0);
                            assert(contradictions@ == nxt.1);
                            assert(eq_vars_bounded(equations@[id as int]@, n_vars));
                            assert(eqs_vars_bounded(eqs_view(equations@), n_vars));
                        }
                    }
                },
            }
            proof {
                assert(eqs_view(equations@) == nxt.0);
                assert(contradictions@ == nxt.1);
                assert(locals_before(om, cfg, x2 as int, y2 as int + 1) == nxt);
            }
            y2 = y2 + 1;
        }
        proof {
            assert(locals_before(om, cfg, x2 as int + 1, 0) == locals_before(
                om,
                cfg,
                x2 as int,
                om.sy,
            ));
        }
        x2 = x2 + 1;
    }

    let ghost locals_st = (eqs_view(equations@), contradictions@);
    proof {
        assert(locals_st == locals_full(om, cfg));
    }

    // Global mine-count equation.
    let mut global_equation_count: usize = 0;
    if matches!(cfg.mine_count_usage, MineCountUsage::UseIfKnown) {
        if let Some(total_mines) = obs.mine_count {
            proof {
                lemma_vars_before_len(om, om.sx, 0);
                lemma_vars_ids_dense(om, om.sx, 0);
                assert(om.sx * om.sy <= 255 * 255) by (nonlinear_arith)
                    requires
                        0 <= om.sx <= 255,
                        0 <= om.sy <= 255,
                ;
                assert(variables@.len() <= 65025);
            }
            let mut target: i32 = total_mines as i32;
            let mut global_vars: Vec<usize> = Vec::new();
            let mut vi: usize = 0;
            while vi < variables.len()
                invariant
                    vi <= variables.len(),
                    variables@ == vars_full(om),
                    variables@.len() <= 65025,
                    n_vars == variables@.len() as int,
                    forall|k: int|
                        0 <= k < variables@.len() ==> (#[trigger] variables@[k]).id == k,
                    target as int == total_mines - global_scan(variables@, cfg, vi as int).0,
                    global_vars@ == global_scan(variables@, cfg, vi as int).1,
                    forall|k: int|
                        0 <= k < global_vars@.len() ==> (#[trigger] global_vars@[k]) < n_vars,
                decreases variables.len() - vi,
            {
                proof {
                    lemma_global_scan_range(variables@, cfg, vi as int);
                    lemma_global_scan_range(variables@, cfg, vi as int + 1);
                }
                let flagged = variables[vi].flagged;
                if matches!(cfg.flag_semantics, FlagSemantics::Strict) && flagged {
                    target = target - 1;
                } else {
                    let vid = variables[vi].id;
                    global_vars.push(vid);
                }
                vi = vi + 1;
            }
            proof {
                lemma_global_scan_range(variables@, cfg, variables@.len() as int);
            }
            let gavail = global_vars.len();
            let ginfeasible = if target < 0 {
                true
            } else {
                (target as usize) > gavail
            };
            if ginfeasible {
                contradictions.push(
                    Contradiction::GlobalMineCountImpossible {
                        target_mines: target,
                        available_variables: gavail,
                    },
                );
            } else {
                let gid = equations.len();
                let ghost eqs_prev = equations@;
                equations.push(
                    ConstraintEquation {
                        id: gid,
                        kind: EquationKind::GlobalMineCount,
                        variable_ids: global_vars,
                        target_mines: target as CellCount,
                    },
                );
                global_equation_count = 1;
                proof {
                    assert(eqs_view(equations@) =~= eqs_view(eqs_prev).push(
                        equations@[gid as int]@,
                    ));
                    assert(eq_vars_bounded(equations@[gid as int]@, n_vars));
                    assert(eqs_vars_bounded(eqs_view(equations@), n_vars));
                }
            }
        }
    }

    let ghost globaled = with_global(om, cfg, vars_full(om), locals_st);
    proof {
        assert(eqs_view(equations@) == globaled.0);
        assert(contradictions@ == globaled.1);
        assert(global_equation_count as int == globaled.2);
        assert(eqs_vars_bounded(eqs_view(equations@), n_vars));
    }

    // Componentization.
    let parted = build_components(variables.len(), &equations);
    let components = parted.0;
    let unconstrained_variable_ids = parted.1;

    let mut max_component_variables: usize = 0;
    let mut ci: usize = 0;
    while ci < components.len()
        invariant
            ci <= components.len(),
            max_component_variables as int == max_comp_vars(comps_view(components@), ci as int),
        decreases components.len() - ci,
    {
        let l = components[ci].variable_ids.len();
        if l > max_component_variables {
            max_component_variables = l;
        }
        ci = ci + 1;
    }

    let variable_count = variables.len();
    let component_count = components.len();
    let contradiction_count = contradictions.len();
    let out = ConstraintBuildOutput {
        problem: ConstraintProblem {
            variables,
            equations,
            components,
            unconstrained_variable_ids,
        },
        contradictions,
        stats: ConstraintStats {
            variable_count,
            local_equation_count,
            global_equation_count,
            component_count,
            max_component_variables,
            contradiction_count,
        },
    };
    proof {
        assert(build_spec(om, cfg) == build_valid(om, cfg));
        assert(out@.problem =~~= build_valid(om, cfg).problem);
        assert(out@.stats == build_valid(om, cfg).stats);
        assert(out@ =~~= build_spec(om, cfg));
    }
    out
}

} // verus!
