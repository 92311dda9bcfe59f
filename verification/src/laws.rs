//! Library-wide guarantees, stated and proved against the model in
//! [`crate::model`].  Each proof function here is part of the public
//! contract: it documents a property that holds of every build.

use vstd::prelude::*;

use crate::constraints::{AnalysisConfig, BuildOutputModel, ComponentModel, ConstraintVariable, EquationModel};
use crate::dsu::{DsuModel, dsu_wf, lemma_find_at_bound};
use crate::model::{
    attach_fold, build_spec, build_valid, clue_scan, dsu_fold, eq_vars_bounded,
    eqs_vars_bounded, global_scan, groups_up_to, hidden_before, hidden_count,
    lemma_attach_fold_shape, lemma_dsu_fold_wf, lemma_global_scan_ids, lemma_vars_before_len,
    lemma_vars_ids_dense, local_step, locals_before, locals_full, rmap_wf, scan_lt, touch_list,
    untouched_up_to, var_entry, var_id, vars_before, vars_full, with_global,
};
use crate::observation::ObservationModel;
use crate::types::{lemma_neighbors_in_bounds, neighbor_seq, Coord, Coord2};

verus! {

/// Determinism: any two results built from identical inputs are
/// structurally identical.  `build_constraints` ensures its result equals
/// `build_spec` of its inputs, so two calls on the same observation and
/// configuration cannot differ.
pub proof fn lemma_build_deterministic(
    obs: ObservationModel,
    cfg: AnalysisConfig,
    r1: BuildOutputModel,
    r2: BuildOutputModel,
)
    requires
        r1 == build_spec(obs, cfg),
        r2 == build_spec(obs, cfg),
    ensures
        r1 == r2,
{
}

proof fn lemma_locals_before_len(obs: ObservationModel, cfg: AnalysisConfig, x: int, y: int)
    requires
        0 <= x,
        0 <= y <= obs.sy,
        0 <= obs.sy,
    ensures
        locals_before(obs, cfg, x, y).0.len() <= x * obs.sy + y,
    decreases x, y,
{
    if y > 0 {
        lemma_locals_before_len(obs, cfg, x, y - 1);
    } else if x > 0 {
        lemma_locals_before_len(obs, cfg, x - 1, obs.sy);
        assert(x * obs.sy == (x - 1) * obs.sy + obs.sy) by (nonlinear_arith);
    }
}

proof fn lemma_locals_props(obs: ObservationModel, cfg: AnalysisConfig, x: int, y: int)
    requires
        0 <= x <= 255,
        0 <= y <= obs.sy,
        0 <= obs.sy <= 255,
    ensures
        forall|i: int|
            0 <= i < locals_before(obs, cfg, x, y).0.len() ==> (#[trigger] locals_before(
                obs,
                cfg,
                x,
                y,
            ).0[i]).id == i && locals_before(obs, cfg, x, y).0[i].kind is LocalClue,
    decreases x, y,
{
    if y > 0 {
        lemma_locals_props(obs, cfg, x, y - 1);
        lemma_locals_before_len(obs, cfg, x, y - 1);
        assert(x * obs.sy <= 255 * 255) by (nonlinear_arith)
            requires
                0 <= x <= 255,
                0 <= obs.sy <= 255,
        ;
        let prev = locals_before(obs, cfg, x, y - 1);
        let cur = locals_before(obs, cfg, x, y);
        assert(cur == local_step(obs, cfg, prev, x, y - 1));
        assert forall|i: int| 0 <= i < cur.0.len() implies (#[trigger] cur.0[i]).id == i
            && cur.0[i].kind is LocalClue by {
            if i < prev.0.len() {
                assert(cur.0[i] == prev.0[i]);
            }
        }
    } else if x > 0 {
        lemma_locals_props(obs, cfg, x - 1, obs.sy);
        assert(locals_before(obs, cfg, x, y) == locals_before(obs, cfg, x - 1, obs.sy));
    }
}

/// Equation ids are dense in generation order: the equation at index `i`
/// carries id `i`, local-clue equations come first, and the global
/// mine-count equation, when present, is the last one.
pub proof fn lemma_equation_ids_dense(obs: ObservationModel, cfg: AnalysisConfig)
    requires
        obs.wf(),
    ensures
        ({
            let eqs = build_spec(obs, cfg).problem.equations;
            &&& forall|i: int| 0 <= i < eqs.len() ==> (#[trigger] eqs[i]).id == i
            &&& forall|i: int|
                0 <= i < eqs.len() && (#[trigger] eqs[i]).kind is GlobalMineCount ==> i == eqs.len()
                    - 1
        }),
{
    if !obs.shape_ok() {
    } else if obs.mine_count matches Some(mc) && mc > obs.total_cells() {
    } else {
        assert(build_spec(obs, cfg) == build_valid(obs, cfg));
        lemma_locals_props(obs, cfg, obs.sx, 0);
        lemma_locals_before_len(obs, cfg, obs.sx, 0);
        assert(obs.sx * obs.sy <= 255 * 255) by (nonlinear_arith)
            requires
                0 <= obs.sx <= 255,
                0 <= obs.sy <= 255,
        ;
        let locals = locals_full(obs, cfg);
        let globaled = with_global(obs, cfg, vars_full(obs), locals);
        let eqs = globaled.0;
        assert forall|i: int| 0 <= i < eqs.len() implies (#[trigger] eqs[i]).id == i by {
            if i < locals.0.len() {
                assert(eqs[i] == locals.0[i]);
            }
        }
        assert forall|i: int|
            0 <= i < eqs.len() && (#[trigger] eqs[i]).kind is GlobalMineCount implies i
            == eqs.len() - 1 by {
            if i < locals.0.len() {
                assert(eqs[i] == locals.0[i]);
            }
        }
    }
}

proof fn lemma_vars_entries(obs: ObservationModel, x: int, y: int)
    requires
        0 <= x <= 255,
        0 <= y <= obs.sy,
        0 <= obs.sy <= 255,
    ensures
        ({
            let vs = vars_before(obs, x, y);
            &&& vs.len() == hidden_before(obs, x, y)
            &&& forall|a: int, b: int|
                0 <= a && 0 <= b < obs.sy && scan_lt(a, b, x, y) && obs.hidden(a, b) ==> (
                #[trigger] var_id(obs, a, b)) < vs.len() && vs[var_id(obs, a, b) as int]
                    == var_entry(obs, a, b)
            &&& forall|i: int|
                0 <= i < vs.len() ==> {
                    let c = (#[trigger] vs[i]).coords;
                    &&& scan_lt(c.0 as int, c.1 as int, x, y)
                    &&& (c.1 as int) < obs.sy
                    &&& obs.hidden(c.0 as int, c.1 as int)
                    &&& var_id(obs, c.0 as int, c.1 as int) == i
                    &&& vs[i] == var_entry(obs, c.0 as int, c.1 as int)
                }
        }),
    decreases x, y,
{
    if y > 0 {
        lemma_vars_entries(obs, x, y - 1);
        lemma_vars_before_len(obs, x, y - 1);
        assert(x * obs.sy <= 255 * 255) by (nonlinear_arith)
            requires
                0 <= x <= 255,
                0 <= obs.sy <= 255,
        ;
        let prev = vars_before(obs, x, y - 1);
        let cur = vars_before(obs, x, y);
        if obs.hidden(x, y - 1) {
            assert(cur == prev.push(var_entry(obs, x, y - 1)));
            assert forall|a: int, b: int|
                0 <= a && 0 <= b < obs.sy && scan_lt(a, b, x, y) && obs.hidden(a, b) implies (
            #[trigger] var_id(obs, a, b)) < cur.len() && cur[var_id(obs, a, b) as int] == var_entry(
                obs,
                a,
                b,
            ) by {
                if scan_lt(a, b, x, y - 1) {
                    assert(cur[var_id(obs, a, b) as int] == prev[var_id(obs, a, b) as int]);
                } else {
                    assert(a == x && b == y - 1);
                }
            }
            assert forall|i: int| 0 <= i < cur.len() implies {
                let c = (#[trigger] cur[i]).coords;
                &&& scan_lt(c.0 as int, c.1 as int, x, y)
                &&& (c.1 as int) < obs.sy
                &&& obs.hidden(c.0 as int, c.1 as int)
                &&& var_id(obs, c.0 as int, c.1 as int) == i
                &&& cur[i] == var_entry(obs, c.0 as int, c.1 as int)
            } by {
                if i < prev.len() {
                    assert(cur[i] == prev[i]);
                } else {
                    assert(cur[i] == var_entry(obs, x, y - 1));
                    assert(cur[i].coords == ((x as u8), ((y - 1) as u8)));
                }
            }
        } else {
            assert(cur == prev);
            assert forall|a: int, b: int|
                0 <= a && 0 <= b < obs.sy && scan_lt(a, b, x, y) && obs.hidden(a, b) implies (
            #[trigger] var_id(obs, a, b)) < cur.len() && cur[var_id(obs, a, b) as int] == var_entry(
                obs,
                a,
                b,
            ) by {
                assert(scan_lt(a, b, x, y - 1));
            }
        }
    } else if x > 0 {
        lemma_vars_entries(obs, x - 1, obs.sy);
        assert(vars_before(obs, x, y) == vars_before(obs, x - 1, obs.sy));
        assert(hidden_before(obs, x, y) == hidden_before(obs, x - 1, obs.sy));
        let cur = vars_before(obs, x, y);
        assert forall|a: int, b: int|
            0 <= a && 0 <= b < obs.sy && scan_lt(a, b, x, y) && obs.hidden(a, b) implies (
        #[trigger] var_id(obs, a, b)) < cur.len() && cur[var_id(obs, a, b) as int] == var_entry(
            obs,
            a,
            b,
        ) by {
            assert(scan_lt(a, b, x - 1, obs.sy));
        }
        assert forall|i: int| 0 <= i < cur.len() implies {
            let c = (#[trigger] cur[i]).coords;
            &&& scan_lt(c.0 as int, c.1 as int, x, y)
            &&& (c.1 as int) < obs.sy
            &&& obs.hidden(c.0 as int, c.1 as int)
            &&& var_id(obs, c.0 as int, c.1 as int) == i
            &&& cur[i] == var_entry(obs, c.0 as int, c.1 as int)
        } by {
            let c = cur[i].coords;
            assert(scan_lt(c.0 as int, c.1 as int, x - 1, obs.sy));
        }
    }
}

/// Hidden cells and variables correspond one to one: the variable count
/// equals the number of hidden cells, ids form the dense range
/// `0..variable_count`, each hidden cell's variable sits at the index
/// equal to its id and records that cell's coordinates and flag, and no
/// two variables share a cell.
pub proof fn lemma_variables_dense(obs: ObservationModel, cfg: AnalysisConfig)
    requires
        obs.wf(),
        obs.shape_ok(),
        obs.count_ok(),
    ensures
        ({
            let vars = build_spec(obs, cfg).problem.variables;
            &&& vars.len() == hidden_count(obs)
            &&& forall|i: int| 0 <= i < vars.len() ==> (#[trigger] vars[i]).id == i
            &&& forall|a: int, b: int|
                obs.in_bounds(a, b) && obs.hidden(a, b) ==> (#[trigger] var_id(obs, a, b))
                    < vars.len() && vars[var_id(obs, a, b) as int] == var_entry(obs, a, b)
            &&& forall|i: int|
                0 <= i < vars.len() ==> obs.in_bounds(
                    (#[trigger] vars[i]).coords.0 as int,
                    vars[i].coords.1 as int,
                ) && obs.hidden(vars[i].coords.0 as int, vars[i].coords.1 as int)
            &&& forall|i: int, j: int|
                0 <= i < vars.len() && 0 <= j < vars.len() && i != j ==> (#[trigger] vars[i]).coords
                    != (#[trigger] vars[j]).coords
        }),
{
    assert(build_spec(obs, cfg) == build_valid(obs, cfg));
    lemma_vars_entries(obs, obs.sx, 0);
    let vars = vars_full(obs);
    assert forall|i: int| 0 <= i < vars.len() implies (#[trigger] vars[i]).id == i by {
        let c = vars[i].coords;
        assert(var_id(obs, c.0 as int, c.1 as int) == i);
        assert(vars[i] == var_entry(obs, c.0 as int, c.1 as int));
    }
    assert forall|i: int, j: int|
        0 <= i < vars.len() && 0 <= j < vars.len() && i != j implies (#[trigger] vars[i]).coords
        != (#[trigger] vars[j]).coords by {
        let ci = vars[i].coords;
        let cj = vars[j].coords;
        assert(var_id(obs, ci.0 as int, ci.1 as int) == i);
        assert(var_id(obs, cj.0 as int, cj.1 as int) == j);
    }
}

// ------------------------------------------------------------------
// Flag semantics agree when no flags are set
// ------------------------------------------------------------------

proof fn lemma_clue_scan_unflagged(
    obs: ObservationModel,
    soft: AnalysisConfig,
    strict: AnalysisConfig,
    ns: Seq<Coord2>,
    j: int,
)
    requires
        forall|a: int, b: int| obs.in_bounds(a, b) ==> !(#[trigger] obs.flags.at(a, b)),
        forall|k: int|
            0 <= k < ns.len() ==> obs.in_bounds((#[trigger] ns[k]).0 as int, ns[k].1 as int),
        j <= ns.len(),
    ensures
        clue_scan(obs, soft, ns, j) == clue_scan(obs, strict, ns, j),
    decreases j,
{
    if j > 0 {
        lemma_clue_scan_unflagged(obs, soft, strict, ns, j - 1);
    }
}

proof fn lemma_locals_unflagged(
    obs: ObservationModel,
    soft: AnalysisConfig,
    strict: AnalysisConfig,
    x: int,
    y: int,
)
    requires
        obs.wf(),
        obs.shape_ok(),
        forall|a: int, b: int| obs.in_bounds(a, b) ==> !(#[trigger] obs.flags.at(a, b)),
        0 <= x <= obs.sx,
        0 <= y <= obs.sy,
    ensures
        locals_before(obs, soft, x, y) == locals_before(obs, strict, x, y),
    decreases x, y,
{
    if y > 0 {
        lemma_locals_unflagged(obs, soft, strict, x, y - 1);
        if obs.revealed.at(x, y - 1) is Some {
            let ns = neighbor_seq(
                (x as Coord, (y - 1) as Coord),
                (obs.sx as Coord, obs.sy as Coord),
            );
            lemma_neighbors_in_bounds(
                (x as Coord, (y - 1) as Coord),
                (obs.sx as Coord, obs.sy as Coord),
                8,
            );
            assert forall|k: int|
                0 <= k < ns.len() implies obs.in_bounds(
                (#[trigger] ns[k]).0 as int,
                ns[k].1 as int,
            ) by {
                assert(ns[k].0 < obs.sx as Coord);
                assert(ns[k].1 < obs.sy as Coord);
            }
            lemma_clue_scan_unflagged(obs, soft, strict, ns, ns.len() as int);
        }
    } else if x > 0 {
        lemma_locals_unflagged(obs, soft, strict, x - 1, obs.sy);
    }
}

proof fn lemma_global_unflagged(
    vars: Seq<ConstraintVariable>,
    soft: AnalysisConfig,
    strict: AnalysisConfig,
    i: int,
)
    requires
        forall|k: int| 0 <= k < vars.len() ==> !(#[trigger] vars[k]).flagged,
        i <= vars.len(),
    ensures
        global_scan(vars, soft, i) == global_scan(vars, strict, i),
    decreases i,
{
    if i > 0 {
        lemma_global_unflagged(vars, soft, strict, i - 1);
    }
}

/// Flag semantics only matter through flags: on a board with no flags
/// set, soft and strict builds are identical, so neither produces a
/// clue or mine-count contradiction the other lacks.
pub proof fn lemma_unflagged_semantics_agree(
    obs: ObservationModel,
    soft: AnalysisConfig,
    strict: AnalysisConfig,
)
    requires
        obs.wf(),
        soft.flag_semantics is Soft,
        strict.flag_semantics is Strict,
        soft.mine_count_usage == strict.mine_count_usage,
        forall|a: int, b: int| obs.in_bounds(a, b) ==> !(#[trigger] obs.flags.at(a, b)),
    ensures
        build_spec(obs, soft) == build_spec(obs, strict),
{
    if !obs.shape_ok() {
    } else if obs.mine_count matches Some(mc) && mc > obs.total_cells() {
    } else {
        lemma_locals_unflagged(obs, soft, strict, obs.sx, 0);
        let vars = vars_full(obs);
        lemma_vars_entries(obs, obs.sx, 0);
        assert forall|k: int| 0 <= k < vars.len() implies !(#[trigger] vars[k]).flagged by {
            let c = vars[k].coords;
            assert(vars[k] == var_entry(obs, c.0 as int, c.1 as int));
            assert(scan_lt(c.0 as int, c.1 as int, obs.sx, 0));
            assert(obs.in_bounds(c.0 as int, c.1 as int));
        }
        lemma_global_unflagged(vars, soft, strict, vars.len() as int);
        assert(with_global(obs, soft, vars, locals_full(obs, soft)) == with_global(
            obs,
            strict,
            vars,
            locals_full(obs, strict),
        ));
        assert(build_valid(obs, soft) == build_valid(obs, strict));
    }
}

// ------------------------------------------------------------------
// Components partition the variables
// ------------------------------------------------------------------

/// The entries of `s` grow strictly from left to right.
pub open spec fn strictly_increasing(s: Seq<usize>) -> bool {
    forall|k1: int, k2: int| 0 <= k1 < k2 < s.len() ==> #[trigger] s[k1] < #[trigger] s[k2]
}

/// Some component's variable list contains `id`.
pub open spec fn in_some_component(comps: Seq<ComponentModel>, id: usize) -> bool {
    exists|c: int| 0 <= c < comps.len() && (#[trigger] comps[c]).variable_ids.contains(id)
}

proof fn lemma_push_contains(s: Seq<usize>, w: usize, id: usize)
    ensures
        s.push(w).contains(id) <==> (s.contains(id) || id == w),
{
    if s.push(w).contains(id) {
        let k = choose|k: int| 0 <= k < s.push(w).len() && s.push(w)[k] == id;
        if k < s.len() {
            assert(s[k] == id);
        }
    }
    if s.contains(id) {
        let k = choose|k: int| 0 <= k < s.len() && s[k] == id;
        assert(s.push(w)[k] == id);
    }
    if id == w {
        assert(s.push(w)[s.len() as int] == id);
    }
}

proof fn lemma_groups_props(d: DsuModel, touched: Seq<bool>, n: int, v: int)
    requires
        dsu_wf(d, n),
        0 <= v <= n,
        n <= usize::MAX,
        touched.len() == n,
    ensures
        ({
            let comps = groups_up_to(d, touched, n, v).0;
            let rmap = groups_up_to(d, touched, n, v).1;
            &&& rmap_wf(comps, rmap, n)
            &&& forall|c: int|
                0 <= c < comps.len() ==> strictly_increasing(
                    (#[trigger] comps[c]).variable_ids,
                )
            &&& forall|c: int, k: int|
                0 <= c < comps.len() && 0 <= k < comps[c].variable_ids.len() ==> ((
                #[trigger] comps[c].variable_ids[k]) as int) < v && touched[comps[c].variable_ids[k] as int]
            &&& forall|id: usize|
                (id as int) < v && touched[id as int] ==> #[trigger] in_some_component(comps, id)
            &&& forall|c1: int, c2: int, id: usize|
                0 <= c1 < comps.len() && 0 <= c2 < comps.len() && c1 != c2 ==> !((
                #[trigger] comps[c1].variable_ids.contains(id)) && (
                #[trigger] comps[c2].variable_ids.contains(id)))
        }),
    decreases v,
{
    if v > 0 {
        lemma_groups_props(d, touched, n, v - 1);
        crate::model::lemma_groups_up_to_wf(d, touched, n, v - 1);
        let st = groups_up_to(d, touched, n, v - 1);
        let comps = groups_up_to(d, touched, n, v).0;
        let rmap = groups_up_to(d, touched, n, v).1;
        if touched[v - 1] {
            lemma_find_at_bound(d, n, (v - 1) as usize, d.parent.len() as int);
            let root = crate::dsu::find_at(d, (v - 1) as usize, d.parent.len() as int);
            match st.1[root as int] {
                Option::Some(ci) => {
                    let old_list = st.0[ci as int].variable_ids;
                    assert(comps == st.0.update(
                        ci as int,
                        ComponentModel {
                            variable_ids: old_list.push((v - 1) as usize),
                            equation_ids: st.0[ci as int].equation_ids,
                        },
                    ));
                    assert forall|c: int| 0 <= c < comps.len() implies strictly_increasing(
                        (#[trigger] comps[c]).variable_ids,
                    ) by {
                        if c == ci {
                            let nl = comps[c].variable_ids;
                            assert forall|k1: int, k2: int|
                                0 <= k1 < k2 < nl.len() implies #[trigger] nl[k1]
                                < #[trigger] nl[k2] by {
                                if k2 < old_list.len() {
                                    assert(nl[k1] == old_list[k1] && nl[k2] == old_list[k2]);
                                    assert(st.0[ci as int].variable_ids[k1] < st.0[ci as int].variable_ids[k2]);
                                } else {
                                    assert(nl[k2] == (v - 1) as usize);
                                    assert(nl[k1] == old_list[k1]);
                                    assert(((st.0[ci as int].variable_ids[k1]) as int) < v - 1);
                                }
                            }
                        } else {
                            assert(comps[c] == st.0[c]);
                        }
                    }
                    assert forall|id: usize|
                        (id as int) < v && touched[id as int] implies #[trigger] in_some_component(
                        comps,
                        id,
                    ) by {
                        if (id as int) < v - 1 {
                            assert(in_some_component(st.0, id));
                            let c0 = choose|c: int|
                                0 <= c < st.0.len() && (#[trigger] st.0[c]).variable_ids.contains(
                                    id,
                                );
                            lemma_push_contains(old_list, (v - 1) as usize, id);
                            assert(comps[c0].variable_ids.contains(id));
                        } else {
                            lemma_push_contains(old_list, (v - 1) as usize, id);
                            assert(comps[ci as int].variable_ids.contains(id));
                        }
                    }
                    assert forall|c1: int, c2: int, id: usize|
                        0 <= c1 < comps.len() && 0 <= c2 < comps.len() && c1 != c2 implies !((
                    #[trigger] comps[c1].variable_ids.contains(id)) && (
                    #[trigger] comps[c2].variable_ids.contains(id))) by {
                        lemma_push_contains(old_list, (v - 1) as usize, id);
                        if comps[c1].variable_ids.contains(id) && comps[c2].variable_ids.contains(
                            id,
                        ) {
                            if c1 != ci && c2 != ci {
                                assert(st.0[c1].variable_ids.contains(id));
                                assert(st.0[c2].variable_ids.contains(id));
                            } else {
                                let other: int = if c1 == ci {
                                    c2
                                } else {
                                    c1
                                };
                                assert(st.0[other].variable_ids.contains(id));
                                if id == (v - 1) as usize {
                                    let k = choose|k: int|
                                        0 <= k < st.0[other].variable_ids.len()
                                            && st.0[other].variable_ids[k] == id;
                                    assert((st.0[other].variable_ids[k] as int) < v - 1);
                                } else {
                                    assert(st.0[ci as int].variable_ids.contains(id));
                                }
                            }
                        }
                    }
                },
                Option::None => {
                    assert(comps == st.0.push(
                        ComponentModel {
                            variable_ids: seq![(v - 1) as usize],
                            equation_ids: Seq::<usize>::empty(),
                        },
                    ));
                    let fresh = comps[comps.len() - 1];
                    assert(fresh.variable_ids == seq![(v - 1) as usize]);
                    assert forall|c: int| 0 <= c < comps.len() implies strictly_increasing(
                        (#[trigger] comps[c]).variable_ids,
                    ) by {
                        if c < st.0.len() {
                            assert(comps[c] == st.0[c]);
                        } else {
                            assert(comps[c].variable_ids.len() == 1);
                        }
                    }
                    assert forall|id: usize|
                        (id as int) < v && touched[id as int] implies #[trigger] in_some_component(
                        comps,
                        id,
                    ) by {
                        if (id as int) < v - 1 {
                            assert(in_some_component(st.0, id));
                            let c0 = choose|c: int|
                                0 <= c < st.0.len() && (#[trigger] st.0[c]).variable_ids.contains(
                                    id,
                                );
                            assert(comps[c0].variable_ids.contains(id));
                        } else {
                            assert(fresh.variable_ids[0] == id);
                            assert(fresh.variable_ids.contains(id));
                            assert(comps[comps.len() - 1].variable_ids.contains(id));
                        }
                    }
                    assert forall|c1: int, c2: int, id: usize|
                        0 <= c1 < comps.len() && 0 <= c2 < comps.len() && c1 != c2 implies !((
                    #[trigger] comps[c1].variable_ids.contains(id)) && (
                    #[trigger] comps[c2].variable_ids.contains(id))) by {
                        if comps[c1].variable_ids.contains(id) && comps[c2].variable_ids.contains(
                            id,
                        ) {
                            if c1 < st.0.len() && c2 < st.0.len() {
                                assert(st.0[c1].variable_ids.contains(id));
                                assert(st.0[c2].variable_ids.contains(id));
                            } else {
                                let inside: int = if c1 < st.0.len() {
                                    c1
                                } else {
                                    c2
                                };
                                let newc: int = if c1 < st.0.len() {
                                    c2
                                } else {
                                    c1
                                };
                                assert(newc == st.0.len());
                                assert(comps[newc] == fresh);
                                let kf = choose|kf: int|
                                    0 <= kf < fresh.variable_ids.len() && fresh.variable_ids[kf]
                                        == id;
                                assert(kf == 0);
                                assert(id == (v - 1) as usize);
                                assert(comps[inside] == st.0[inside]);
                                assert(st.0[inside].variable_ids.contains(id));
                                let k = choose|k: int|
                                    0 <= k < st.0[inside].variable_ids.len()
                                        && st.0[inside].variable_ids[k] == id;
                                assert((st.0[inside].variable_ids[k] as int) < v - 1);
                            }
                        }
                    }
                },
            }
        }
    }
}

proof fn lemma_untouched_props(touched: Seq<bool>, v: int)
    requires
        0 <= v <= touched.len(),
        v <= usize::MAX,
    ensures
        ({
            let u = untouched_up_to(touched, v);
            &&& strictly_increasing(u)
            &&& forall|k: int|
                0 <= k < u.len() ==> ((#[trigger] u[k]) as int) < v && !touched[u[k] as int]
            &&& forall|id: int| 0 <= id < v && !touched[id] ==> u.contains(id as usize)
        }),
    decreases v,
{
    if v > 0 {
        lemma_untouched_props(touched, v - 1);
        let prev = untouched_up_to(touched, v - 1);
        let u = untouched_up_to(touched, v);
        if !touched[v - 1] {
            assert(u == prev.push((v - 1) as usize));
            assert forall|k1: int, k2: int| 0 <= k1 < k2 < u.len() implies #[trigger] u[k1]
                < #[trigger] u[k2] by {
                if k2 < prev.len() {
                    assert(u[k1] == prev[k1] && u[k2] == prev[k2]);
                } else {
                    assert(u[k2] == (v - 1) as usize);
                    assert(u[k1] == prev[k1]);
                    assert((prev[k1] as int) < v - 1);
                }
            }
            assert forall|k: int| 0 <= k < u.len() implies ((#[trigger] u[k]) as int) < v
                && !touched[u[k] as int] by {
                if k < prev.len() {
                    assert(u[k] == prev[k]);
                } else {
                    assert(u[k] == (v - 1) as usize);
                }
            }
            assert forall|id: int| 0 <= id < v && !touched[id] implies u.contains(id as usize) by {
                lemma_push_contains(prev, (v - 1) as usize, id as usize);
            }
        } else {
            assert(u == prev);
            assert forall|k: int| 0 <= k < u.len() implies ((#[trigger] u[k]) as int) < v
                && !touched[u[k] as int] by {
                assert(u[k] == prev[k]);
            }
        }
    }
}

proof fn lemma_vars_id_bound(obs: ObservationModel)
    requires
        obs.wf(),
        obs.shape_ok(),
    ensures
        forall|a: int, b: int|
            obs.in_bounds(a, b) && obs.hidden(a, b) ==> (#[trigger] var_id(obs, a, b)) < vars_full(
                obs,
            ).len(),
{
    lemma_vars_entries(obs, obs.sx, 0);
}

proof fn lemma_clue_scan_bounded(obs: ObservationModel, cfg: AnalysisConfig, ns: Seq<Coord2>, j: int)
    requires
        obs.wf(),
        obs.shape_ok(),
        forall|k: int|
            0 <= k < ns.len() ==> obs.in_bounds((#[trigger] ns[k]).0 as int, ns[k].1 as int),
        j <= ns.len(),
    ensures
        forall|k: int|
            0 <= k < clue_scan(obs, cfg, ns, j).1.len() ==> (#[trigger] clue_scan(
                obs,
                cfg,
                ns,
                j,
            ).1[k]) < vars_full(obs).len(),
    decreases j,
{
    if j > 0 {
        lemma_clue_scan_bounded(obs, cfg, ns, j - 1);
        lemma_vars_id_bound(obs);
        let prev = clue_scan(obs, cfg, ns, j - 1);
        let cur = clue_scan(obs, cfg, ns, j);
        assert forall|k: int| 0 <= k < cur.1.len() implies (#[trigger] cur.1[k]) < vars_full(
            obs,
        ).len() by {
            if k < prev.1.len() {
                assert(cur.1[k] == prev.1[k]);
            }
        }
    }
}

proof fn lemma_locals_bounded(obs: ObservationModel, cfg: AnalysisConfig, x: int, y: int)
    requires
        obs.wf(),
        obs.shape_ok(),
        0 <= x <= obs.sx,
        0 <= y <= obs.sy,
    ensures
        eqs_vars_bounded(locals_before(obs, cfg, x, y).0, vars_full(obs).len() as int),
    decreases x, y,
{
    let n = vars_full(obs).len() as int;
    if y > 0 {
        lemma_locals_bounded(obs, cfg, x, y - 1);
        let prev = locals_before(obs, cfg, x, y - 1);
        let cur = locals_before(obs, cfg, x, y);
        if obs.revealed.at(x, y - 1) is Some {
            let ns = neighbor_seq(
                (x as Coord, (y - 1) as Coord),
                (obs.sx as Coord, obs.sy as Coord),
            );
            lemma_neighbors_in_bounds(
                (x as Coord, (y - 1) as Coord),
                (obs.sx as Coord, obs.sy as Coord),
                8,
            );
            assert forall|k: int|
                0 <= k < ns.len() implies obs.in_bounds(
                (#[trigger] ns[k]).0 as int,
                ns[k].1 as int,
            ) by {
                assert(ns[k].0 < obs.sx as Coord);
                assert(ns[k].1 < obs.sy as Coord);
            }
            lemma_clue_scan_bounded(obs, cfg, ns, ns.len() as int);
        }
        assert forall|i: int| 0 <= i < cur.0.len() implies eq_vars_bounded(
            #[trigger] cur.0[i],
            n,
        ) by {
            if i < prev.0.len() {
                assert(cur.0[i] == prev.0[i]);
            }
        }
    } else if x > 0 {
        lemma_locals_bounded(obs, cfg, x - 1, obs.sy);
    }
}

proof fn lemma_built_eqs_bounded(obs: ObservationModel, cfg: AnalysisConfig)
    requires
        obs.wf(),
        obs.shape_ok(),
    ensures
        eqs_vars_bounded(
            with_global(obs, cfg, vars_full(obs), locals_full(obs, cfg)).0,
            vars_full(obs).len() as int,
        ),
{
    let vars = vars_full(obs);
    let n = vars.len() as int;
    lemma_locals_bounded(obs, cfg, obs.sx, 0);
    let locals = locals_full(obs, cfg);
    let eqs = with_global(obs, cfg, vars, locals).0;
    lemma_global_scan_ids(vars, cfg, vars.len() as int);
    lemma_vars_ids_dense(obs, obs.sx, 0);
    let gids = global_scan(vars, cfg, vars.len() as int).1;
    assert forall|k: int| 0 <= k < gids.len() implies (#[trigger] gids[k]) < n by {
        let v0 = choose|v0: int| 0 <= v0 < vars.len() && gids[k] == vars[v0].id;
        assert(vars[v0].id == v0);
    }
    assert forall|i: int| 0 <= i < eqs.len() implies eq_vars_bounded(#[trigger] eqs[i], n) by {
        if i < locals.0.len() {
            assert(eqs[i] == locals.0[i]);
        } else {
            assert(eqs[i].variable_ids == gids);
        }
    }
}

/// Components partition exactly the locally constrained variables: every
/// variable id below `variable_count` lies in exactly one component or in
/// the unconstrained list, never both; component lists and the
/// unconstrained list are strictly ascending (hence duplicate-free).
pub proof fn lemma_components_partition(obs: ObservationModel, cfg: AnalysisConfig)
    requires
        obs.wf(),
        obs.shape_ok(),
        obs.count_ok(),
    ensures
        ({
            let out = build_spec(obs, cfg);
            let comps = out.problem.components;
            let unc = out.problem.unconstrained_variable_ids;
            let n = out.problem.variables.len() as int;
            &&& forall|id: usize|
                (id as int) < n ==> (#[trigger] in_some_component(comps, id) || unc.contains(id))
            &&& forall|id: usize|
                #[trigger] in_some_component(comps, id) ==> (id as int) < n && !unc.contains(id)
            &&& forall|id: usize| #[trigger] unc.contains(id) ==> (id as int) < n
            &&& forall|c: int|
                0 <= c < comps.len() ==> strictly_increasing((#[trigger] comps[c]).variable_ids)
            &&& strictly_increasing(unc)
            &&& forall|c1: int, c2: int, id: usize|
                0 <= c1 < comps.len() && 0 <= c2 < comps.len() && c1 != c2 ==> !((
                #[trigger] comps[c1].variable_ids.contains(id)) && (
                #[trigger] comps[c2].variable_ids.contains(id)))
        }),
{
    assert(build_spec(obs, cfg) == build_valid(obs, cfg));
    let vars = vars_full(obs);
    let n = vars.len() as int;
    let locals = locals_full(obs, cfg);
    let eqs = with_global(obs, cfg, vars, locals).0;
    lemma_vars_before_len(obs, obs.sx, 0);
    assert(obs.sx * obs.sy <= 255 * 255) by (nonlinear_arith)
        requires
            0 <= obs.sx <= 255,
            0 <= obs.sy <= 255,
    ;
    assert(n <= 65025);
    lemma_built_eqs_bounded(obs, cfg);
    lemma_dsu_fold_wf(n, eqs, eqs.len() as int);
    let folded = dsu_fold(n, eqs, eqs.len() as int);
    let d = folded.0;
    let touched = folded.1;
    lemma_groups_props(d, touched, n, n);
    crate::model::lemma_groups_up_to_wf(d, touched, n, n);
    let grouped = groups_up_to(d, touched, n, n);
    let comps0 = grouped.0;
    let rmap = grouped.1;
    lemma_attach_fold_shape(d, touched, rmap, n, eqs, comps0, eqs.len() as int);
    let comps = attach_fold(d, touched, rmap, n, eqs, comps0, eqs.len() as int);
    lemma_untouched_props(touched, n);
    let unc = untouched_up_to(touched, n);

    assert(comps == build_valid(obs, cfg).problem.components);
    assert(unc == build_valid(obs, cfg).problem.unconstrained_variable_ids);

    assert forall|id: usize| #[trigger] in_some_component(comps0, id) implies in_some_component(
        comps,
        id,
    ) by {
        let c0 = choose|c: int|
            0 <= c < comps0.len() && (#[trigger] comps0[c]).variable_ids.contains(id);
        assert(comps[c0].variable_ids == comps0[c0].variable_ids);
        assert(comps[c0].variable_ids.contains(id));
    }
    assert forall|id: usize| #[trigger] in_some_component(comps, id) implies in_some_component(
        comps0,
        id,
    ) by {
        let c0 = choose|c: int|
            0 <= c < comps.len() && (#[trigger] comps[c]).variable_ids.contains(id);
        assert(comps[c0].variable_ids == comps0[c0].variable_ids);
        assert(comps0[c0].variable_ids.contains(id));
    }

    assert forall|id: usize| (id as int) < n implies (#[trigger] in_some_component(comps, id)
        || unc.contains(id)) by {
        if touched[id as int] {
            assert(in_some_component(comps0, id));
        } else {
            assert(unc.contains(id));
        }
    }
    assert forall|id: usize| #[trigger] in_some_component(comps, id) implies (id as int) < n
        && !unc.contains(id) by {
        assert(in_some_component(comps0, id));
        let c0 = choose|c: int|
            0 <= c < comps0.len() && (#[trigger] comps0[c]).variable_ids.contains(id);
        let k = choose|k: int|
            0 <= k < comps0[c0].variable_ids.len() && comps0[c0].variable_ids[k] == id;
        assert((comps0[c0].variable_ids[k] as int) < n && touched[comps0[c0].variable_ids[k] as int]);
        if unc.contains(id) {
            let ku = choose|ku: int| 0 <= ku < unc.len() && unc[ku] == id;
            assert(!touched[unc[ku] as int]);
        }
    }
    assert forall|id: usize| #[trigger] unc.contains(id) implies (id as int) < n by {
        let ku = choose|ku: int| 0 <= ku < unc.len() && unc[ku] == id;
        assert((unc[ku] as int) < n);
    }
    assert forall|c: int| 0 <= c < comps.len() implies strictly_increasing(
        (#[trigger] comps[c]).variable_ids,
    ) by {
        assert(comps[c].variable_ids == comps0[c].variable_ids);
        assert(strictly_increasing(comps0[c].variable_ids));
    }
    assert forall|c1: int, c2: int, id: usize|
        0 <= c1 < comps.len() && 0 <= c2 < comps.len() && c1 != c2 implies !((
    #[trigger] comps[c1].variable_ids.contains(id)) && (#[trigger] comps[c2].variable_ids.contains(
        id,
    ))) by {
        assert(comps[c1].variable_ids == comps0[c1].variable_ids);
        assert(comps[c2].variable_ids == comps0[c2].variable_ids);
    }
}

/// Some local-clue equation mentions `id`.
pub open spec fn locally_constrained(eqs: Seq<EquationModel>, id: usize) -> bool {
    exists|e: int|
        0 <= e < eqs.len() && (#[trigger] eqs[e]).kind is LocalClue
            && eqs[e].variable_ids.contains(id)
}

proof fn lemma_touch_list_at(t: Seq<bool>, vids: Seq<usize>, j: int, id: int)
    requires
        0 <= j <= vids.len(),
        0 <= id < t.len(),
        t.len() <= usize::MAX,
        forall|k: int| 0 <= k < vids.len() ==> (#[trigger] vids[k]) < t.len(),
    ensures
        touch_list(t, vids, j)[id] == (t[id] || exists|k: int|
            0 <= k < j && (#[trigger] vids[k]) == id as usize),
    decreases j,
{
    if j > 0 {
        lemma_touch_list_at(t, vids, j - 1, id);
        crate::model::lemma_touch_list_len(t, vids, j - 1);
        let prev = touch_list(t, vids, j - 1);
        let cur = touch_list(t, vids, j);
        assert(cur == prev.update(vids[j - 1] as int, true));
        if vids[j - 1] == id as usize {
            assert(vids[j - 1] as int == id);
            assert(cur[id]);
        } else {
            assert(cur[id] == prev[id]);
            if cur[id] {
                if !t[id] {
                    let k0 = choose|k: int| 0 <= k < j - 1 && (#[trigger] vids[k]) == id as usize;
                    assert(0 <= k0 < j && vids[k0] == id as usize);
                }
            }
        }
    }
}

proof fn lemma_dsu_fold_touched(n: int, eqs: Seq<EquationModel>, i: int, id: int)
    requires
        0 <= n <= usize::MAX,
        eqs_vars_bounded(eqs, n),
        0 <= i <= eqs.len(),
        0 <= id < n,
    ensures
        dsu_fold(n, eqs, i).1[id] == exists|e: int|
            0 <= e < i && (#[trigger] eqs[e]).kind is LocalClue && eqs[e].variable_ids.contains(
                id as usize,
            ),
    decreases i,
{
    if i > 0 {
        lemma_dsu_fold_touched(n, eqs, i - 1, id);
        lemma_dsu_fold_wf(n, eqs, i - 1);
        let st = dsu_fold(n, eqs, i - 1);
        let cur = dsu_fold(n, eqs, i);
        let e = eqs[i - 1];
        assert(eq_vars_bounded(e, n));
        if e.kind is LocalClue && e.variable_ids.len() > 0 {
            lemma_touch_list_at(st.1, e.variable_ids, e.variable_ids.len() as int, id);
            if cur.1[id] {
                if !st.1[id] {
                    let k0 = choose|k: int|
                        0 <= k < e.variable_ids.len() && (#[trigger] e.variable_ids[k]) == id as usize;
                    assert(e.variable_ids.contains(id as usize));
                    assert(0 <= i - 1 < i && eqs[i - 1].kind is LocalClue
                        && eqs[i - 1].variable_ids.contains(id as usize));
                } else {
                    let e0 = choose|e0: int|
                        0 <= e0 < i - 1 && (#[trigger] eqs[e0]).kind is LocalClue
                            && eqs[e0].variable_ids.contains(id as usize);
                    assert(0 <= e0 < i);
                }
            } else {
                if exists|e0: int|
                    0 <= e0 < i && (#[trigger] eqs[e0]).kind is LocalClue
                        && eqs[e0].variable_ids.contains(id as usize) {
                    let e0 = choose|e0: int|
                        0 <= e0 < i && (#[trigger] eqs[e0]).kind is LocalClue
                            && eqs[e0].variable_ids.contains(id as usize);
                    if e0 < i - 1 {
                        assert(st.1[id]);
                    } else {
                        let k0 = choose|k: int|
                            0 <= k < e.variable_ids.len() && (#[trigger] e.variable_ids[k])
                                == id as usize;
                        assert(cur.1[id]);
                    }
                }
            }
        } else {
            assert(cur.1 == st.1);
            if exists|e0: int|
                0 <= e0 < i && (#[trigger] eqs[e0]).kind is LocalClue
                    && eqs[e0].variable_ids.contains(id as usize) {
                let e0 = choose|e0: int|
                    0 <= e0 < i && (#[trigger] eqs[e0]).kind is LocalClue
                        && eqs[e0].variable_ids.contains(id as usize);
                if e0 == i - 1 {
                    if e.variable_ids.len() == 0 {
                        let k0 = choose|k: int|
                            0 <= k < e.variable_ids.len() && (#[trigger] e.variable_ids[k])
                                == id as usize;
                        assert(false);
                    }
                }
            }
            if st.1[id] {
                let e0 = choose|e0: int|
                    0 <= e0 < i - 1 && (#[trigger] eqs[e0]).kind is LocalClue
                        && eqs[e0].variable_ids.contains(id as usize);
                assert(0 <= e0 < i);
            }
        }
    }
}

/// For one variable id: it lies in the unconstrained list exactly when no
/// local-clue equation of the build mentions it, and in some component
/// exactly when one does.
pub open spec fn unconstrained_exact_at(
    obs: ObservationModel,
    cfg: AnalysisConfig,
    id: usize,
) -> bool {
    &&& build_spec(obs, cfg).problem.unconstrained_variable_ids.contains(id)
        == !locally_constrained(build_spec(obs, cfg).problem.equations, id)
    &&& in_some_component(build_spec(obs, cfg).problem.components, id) == locally_constrained(
        build_spec(obs, cfg).problem.equations,
        id,
    )
}

/// The unconstrained list and the components split the variables by
/// whether any local-clue equation mentions them: a variable id lies in
/// the unconstrained list exactly when no local equation lists it, and in
/// some component exactly when one does.
pub proof fn lemma_unconstrained_exact(obs: ObservationModel, cfg: AnalysisConfig)
    requires
        obs.wf(),
        obs.shape_ok(),
        obs.count_ok(),
    ensures
        forall|id: usize|
            (id as int) < build_spec(obs, cfg).problem.variables.len()
                ==> #[trigger] unconstrained_exact_at(obs, cfg, id),
{
    assert(build_spec(obs, cfg) == build_valid(obs, cfg));
    let vars = vars_full(obs);
    let n = vars.len() as int;
    let locals = locals_full(obs, cfg);
    let eqs = with_global(obs, cfg, vars, locals).0;
    lemma_vars_before_len(obs, obs.sx, 0);
    assert(obs.sx * obs.sy <= 255 * 255) by (nonlinear_arith)
        requires
            0 <= obs.sx <= 255,
            0 <= obs.sy <= 255,
    ;
    lemma_built_eqs_bounded(obs, cfg);
    lemma_dsu_fold_wf(n, eqs, eqs.len() as int);
    let folded = dsu_fold(n, eqs, eqs.len() as int);
    let d = folded.0;
    let touched = folded.1;
    lemma_groups_props(d, touched, n, n);
    crate::model::lemma_groups_up_to_wf(d, touched, n, n);
    let grouped = groups_up_to(d, touched, n, n);
    let comps0 = grouped.0;
    let rmap = grouped.1;
    lemma_attach_fold_shape(d, touched, rmap, n, eqs, comps0, eqs.len() as int);
    let comps = attach_fold(d, touched, rmap, n, eqs, comps0, eqs.len() as int);
    lemma_untouched_props(touched, n);
    let unc = untouched_up_to(touched, n);

    assert forall|id: usize| (id as int) < n implies ((#[trigger] unc.contains(id))
        == !locally_constrained(eqs, id) && in_some_component(comps, id) == locally_constrained(
        eqs,
        id,
    )) by {
        lemma_dsu_fold_touched(n, eqs, eqs.len() as int, id as int);
        assert(touched[id as int] == locally_constrained(eqs, id));
        if unc.contains(id) {
            let ku = choose|ku: int| 0 <= ku < unc.len() && unc[ku] == id;
            assert(!touched[unc[ku] as int]);
        }
        if !touched[id as int] {
            assert(unc.contains(id));
        }
        if in_some_component(comps, id) {
            let c0 = choose|c: int|
                0 <= c < comps.len() && (#[trigger] comps[c]).variable_ids.contains(id);
            assert(comps[c0].variable_ids == comps0[c0].variable_ids);
            let k = choose|k: int|
                0 <= k < comps0[c0].variable_ids.len() && comps0[c0].variable_ids[k] == id;
            assert(touched[comps0[c0].variable_ids[k] as int]);
        }
        if touched[id as int] {
            assert(in_some_component(comps0, id));
            let c0 = choose|c: int|
                0 <= c < comps0.len() && (#[trigger] comps0[c]).variable_ids.contains(id);
            assert(comps[c0].variable_ids == comps0[c0].variable_ids);
            assert(comps[c0].variable_ids.contains(id));
            assert(in_some_component(comps, id));
        }
    }

    assert(build_spec(obs, cfg).problem.variables == vars);
    assert(build_spec(obs, cfg).problem.equations == eqs);
    assert(build_spec(obs, cfg).problem.components == comps);
    assert(build_spec(obs, cfg).problem.unconstrained_variable_ids == unc);
    assert forall|id: usize|
        (id as int) < build_spec(obs, cfg).problem.variables.len()
            implies #[trigger] unconstrained_exact_at(obs, cfg, id) by {
        assert(unc.contains(id) == !locally_constrained(eqs, id) && in_some_component(comps, id)
            == locally_constrained(eqs, id));
        assert(build_spec(obs, cfg).problem.unconstrained_variable_ids.contains(id)
            == unc.contains(id));
        assert(locally_constrained(build_spec(obs, cfg).problem.equations, id)
            == locally_constrained(eqs, id));
        assert(in_some_component(build_spec(obs, cfg).problem.components, id)
            == in_some_component(comps, id));
    }
}

} // verus!
