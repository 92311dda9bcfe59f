use detonito_core::constraints::{
    build_constraints, AnalysisConfig, Contradiction, EquationKind, FlagSemantics, MineCountUsage,
};
use detonito_core::grid::Grid;
use detonito_core::observation::Observation;

fn obs_from(
    size: (u8, u8),
    mine_count: Option<u16>,
    revealed: Vec<Option<u8>>,
    flags: Vec<bool>,
) -> Observation {
    Observation::new(
        size,
        mine_count,
        Grid::from_vec(size, revealed).expect("revealed grid shape"),
        Grid::from_vec(size, flags).expect("flags grid shape"),
    )
    .expect("valid observation")
}

#[test]
fn builds_local_clue_equation() {
    // A 2x2 board with a mine at (0,0) where the player revealed (1,1):
    // the engine would report clue value 1 there and its own total of 1.
    let obs = obs_from(
        (2, 2),
        Some(1),
        vec![None, None, None, Some(1)],
        vec![false, false, false, false],
    );

    let out = build_constraints(&obs, AnalysisConfig::default());

    let local = out
        .problem
        .equations
        .iter()
        .find(|eq| matches!(eq.kind, EquationKind::LocalClue { clue: (1, 1) }))
        .expect("local equation should exist");
    assert_eq!(local.target_mines, 1);
    assert_eq!(local.variable_ids.len(), 3);
}

#[test]
fn strict_flags_can_create_clue_contradiction() {
    let revealed = vec![None, Some(0)];
    let flags = vec![true, false];
    let obs = obs_from((2, 1), None, revealed, flags);

    let strict = build_constraints(
        &obs,
        AnalysisConfig {
            flag_semantics: FlagSemantics::Strict,
            mine_count_usage: MineCountUsage::Ignore,
        },
    );
    let soft = build_constraints(
        &obs,
        AnalysisConfig {
            flag_semantics: FlagSemantics::Soft,
            mine_count_usage: MineCountUsage::Ignore,
        },
    );

    assert!(strict
        .contradictions
        .iter()
        .any(|c| matches!(c, Contradiction::LocalClueImpossible { clue: (1, 0), .. })));
    assert!(soft.contradictions.is_empty());
}

#[test]
fn unknown_mine_count_skips_global_equation() {
    let revealed = vec![None, Some(1)];
    let flags = vec![false, false];
    let obs = obs_from((2, 1), None, revealed, flags);

    let out = build_constraints(&obs, AnalysisConfig::default());

    assert!(out
        .problem
        .equations
        .iter()
        .all(|eq| !matches!(eq.kind, EquationKind::GlobalMineCount)));
}

#[test]
fn splits_independent_components() {
    let revealed = vec![None, Some(1), None, None, Some(0)];
    let flags = vec![false; 5];
    let obs = obs_from((5, 1), None, revealed, flags);

    let out = build_constraints(
        &obs,
        AnalysisConfig {
            flag_semantics: FlagSemantics::Soft,
            mine_count_usage: MineCountUsage::Ignore,
        },
    );

    assert_eq!(out.problem.components.len(), 2);
    assert!(out
        .problem
        .components
        .iter()
        .any(|component| component.variable_ids == vec![0, 1]));
    assert!(out
        .problem
        .components
        .iter()
        .any(|component| component.variable_ids == vec![2]));
}

#[test]
fn strict_global_equation_reports_impossible_target() {
    let revealed = vec![None, None];
    let flags = vec![true, false];
    let obs = obs_from((2, 1), Some(0), revealed, flags);

    let out = build_constraints(
        &obs,
        AnalysisConfig {
            flag_semantics: FlagSemantics::Strict,
            mine_count_usage: MineCountUsage::UseIfKnown,
        },
    );

    assert!(out
        .contradictions
        .iter()
        .any(|c| matches!(c, Contradiction::GlobalMineCountImpossible { .. })));
}

#[test]
fn strict_global_contradiction_reports_exact_fields() {
    let revealed = vec![None, None];
    let flags = vec![true, false];
    let obs = obs_from((2, 1), Some(0), revealed, flags);

    let out = build_constraints(
        &obs,
        AnalysisConfig {
            flag_semantics: FlagSemantics::Strict,
            mine_count_usage: MineCountUsage::UseIfKnown,
        },
    );

    assert_eq!(
        out.contradictions,
        vec![Contradiction::GlobalMineCountImpossible {
            target_mines: -1,
            available_variables: 1,
        }]
    );
    assert_eq!(out.stats.global_equation_count, 0);
    assert_eq!(out.stats.contradiction_count, 1);
}

#[test]
fn strict_clue_contradiction_reports_exact_fields() {
    // One flagged hidden neighbor next to a clue of 0: under strict
    // semantics the clue's target drops to -1.
    let obs = obs_from((2, 1), None, vec![None, Some(0)], vec![true, false]);

    let out = build_constraints(
        &obs,
        AnalysisConfig {
            flag_semantics: FlagSemantics::Strict,
            mine_count_usage: MineCountUsage::Ignore,
        },
    );

    assert_eq!(
        out.contradictions,
        vec![Contradiction::LocalClueImpossible {
            clue: (1, 0),
            target_mines: -1,
            available_variables: 0,
        }]
    );
    assert!(out.problem.equations.is_empty());
}

#[test]
fn clue_exceeding_neighbors_is_impossible() {
    let obs = obs_from((2, 1), None, vec![None, Some(3)], vec![false, false]);

    let out = build_constraints(
        &obs,
        AnalysisConfig {
            flag_semantics: FlagSemantics::Soft,
            mine_count_usage: MineCountUsage::Ignore,
        },
    );

    assert_eq!(
        out.contradictions,
        vec![Contradiction::LocalClueImpossible {
            clue: (1, 0),
            target_mines: 3,
            available_variables: 1,
        }]
    );
}

#[test]
fn global_target_exceeding_variables_is_impossible() {
    // Two cells, one revealed, total mine count 2: only one variable can
    // carry a mine.
    let obs = obs_from((2, 1), Some(2), vec![Some(0), None], vec![false, false]);

    let out = build_constraints(&obs, AnalysisConfig::default());

    assert!(out.contradictions.contains(&Contradiction::GlobalMineCountImpossible {
        target_mines: 2,
        available_variables: 1,
    }));
}

#[test]
fn mismatched_grid_shape_empties_the_problem() {
    let obs = Observation {
        size: (2, 2),
        mine_count: Some(1),
        revealed: Grid::from_elem((2, 2), None),
        flags: Grid::from_elem((1, 2), false),
    };

    let out = build_constraints(&obs, AnalysisConfig::default());

    assert_eq!(out.contradictions, vec![Contradiction::InvalidObservationShape]);
    assert!(out.problem.variables.is_empty());
    assert!(out.problem.equations.is_empty());
    assert!(out.problem.components.is_empty());
    assert_eq!(out.stats.variable_count, 0);
    assert_eq!(out.stats.contradiction_count, 1);
}

#[test]
fn oversized_mine_count_empties_the_problem() {
    let obs = Observation {
        size: (2, 2),
        mine_count: Some(5),
        revealed: Grid::from_elem((2, 2), None),
        flags: Grid::from_elem((2, 2), false),
    };

    let out = build_constraints(&obs, AnalysisConfig::default());

    assert_eq!(
        out.contradictions,
        vec![Contradiction::InvalidMineCount { mine_count: 5, max_cells: 4 }]
    );
    assert!(out.problem.variables.is_empty());
    assert_eq!(out.stats.contradiction_count, 1);
}

#[test]
fn variable_ids_are_dense_over_hidden_cells() {
    let obs = obs_from(
        (3, 2),
        None,
        vec![None, Some(1), None, None, Some(2), None],
        vec![false; 6],
    );

    let out = build_constraints(&obs, AnalysisConfig::default());

    // Hidden cells in scan order (outer x, inner y): (0,0), (1,0), (1,1),
    // and (2,1); the cells (0,1) and (2,0) carry clues.
    assert_eq!(out.problem.variables.len(), 4);
    for (i, var) in out.problem.variables.iter().enumerate() {
        assert_eq!(var.id, i);
    }
    assert_eq!(out.problem.variables[0].coords, (0, 0));
    assert_eq!(out.problem.variables[1].coords, (1, 0));
    assert_eq!(out.problem.variables[2].coords, (1, 1));
    assert_eq!(out.problem.variables[3].coords, (2, 1));
    assert_eq!(out.stats.variable_count, 4);
}

#[test]
fn equation_ids_are_dense_with_global_last() {
    let obs = obs_from(
        (3, 1),
        Some(1),
        vec![Some(1), None, Some(1)],
        vec![false, false, false],
    );

    let out = build_constraints(&obs, AnalysisConfig::default());

    assert_eq!(out.problem.equations.len(), 3);
    for (i, eq) in out.problem.equations.iter().enumerate() {
        assert_eq!(eq.id, i);
    }
    assert!(matches!(out.problem.equations[0].kind, EquationKind::LocalClue { clue: (0, 0) }));
    assert!(matches!(out.problem.equations[1].kind, EquationKind::LocalClue { clue: (2, 0) }));
    assert!(matches!(out.problem.equations[2].kind, EquationKind::GlobalMineCount));
    assert_eq!(out.stats.local_equation_count, 2);
    assert_eq!(out.stats.global_equation_count, 1);
}

#[test]
fn equation_lists_variables_in_neighbor_order() {
    // Neighbors of (1,1) on a 2x2 board enumerate as (0,0), (1,0), (0,1),
    // whose variable ids are 0, 2, 1 in scan order.
    let obs = obs_from(
        (2, 2),
        None,
        vec![None, None, None, Some(1)],
        vec![false; 4],
    );

    let out = build_constraints(
        &obs,
        AnalysisConfig {
            flag_semantics: FlagSemantics::Soft,
            mine_count_usage: MineCountUsage::Ignore,
        },
    );

    assert_eq!(out.problem.equations.len(), 1);
    assert_eq!(out.problem.equations[0].variable_ids, vec![0, 2, 1]);
}

#[test]
fn isolated_hidden_cells_are_unconstrained() {
    // The clue at (0,0) constrains only (1,0); the far cell (2,0) has no
    // revealed neighbor at all.
    let obs = obs_from((3, 1), None, vec![Some(0), None, None], vec![false; 3]);

    let out = build_constraints(
        &obs,
        AnalysisConfig {
            flag_semantics: FlagSemantics::Soft,
            mine_count_usage: MineCountUsage::Ignore,
        },
    );

    assert_eq!(out.problem.components.len(), 1);
    assert_eq!(out.problem.components[0].variable_ids, vec![0]);
    assert_eq!(out.problem.unconstrained_variable_ids, vec![1]);
}

#[test]
fn components_partition_all_variables() {
    let obs = obs_from(
        (5, 1),
        None,
        vec![None, Some(1), None, None, Some(0)],
        vec![false; 5],
    );

    let out = build_constraints(
        &obs,
        AnalysisConfig {
            flag_semantics: FlagSemantics::Soft,
            mine_count_usage: MineCountUsage::Ignore,
        },
    );

    let mut seen: Vec<usize> = Vec::new();
    for component in &out.problem.components {
        seen.extend_from_slice(&component.variable_ids);
    }
    seen.extend_from_slice(&out.problem.unconstrained_variable_ids);
    seen.sort_unstable();
    let expected: Vec<usize> = (0..out.problem.variables.len()).collect();
    assert_eq!(seen, expected);
}

#[test]
fn component_equations_are_attached_and_sorted() {
    // Two clues share the middle hidden cell, so their equations join one
    // component.
    let obs = obs_from(
        (3, 1),
        None,
        vec![Some(1), None, Some(1)],
        vec![false; 3],
    );

    let out = build_constraints(
        &obs,
        AnalysisConfig {
            flag_semantics: FlagSemantics::Soft,
            mine_count_usage: MineCountUsage::Ignore,
        },
    );

    assert_eq!(out.problem.components.len(), 1);
    assert_eq!(out.problem.components[0].variable_ids, vec![0]);
    assert_eq!(out.problem.components[0].equation_ids, vec![0, 1]);
    assert_eq!(out.stats.component_count, 1);
    assert_eq!(out.stats.max_component_variables, 1);
}

#[test]
fn build_twice_yields_identical_output() {
    let obs = obs_from(
        (3, 2),
        Some(2),
        vec![None, Some(1), None, None, Some(2), None],
        vec![true, false, false, false, false, false],
    );
    let cfg = AnalysisConfig {
        flag_semantics: FlagSemantics::Strict,
        mine_count_usage: MineCountUsage::UseIfKnown,
    };

    let first = build_constraints(&obs, cfg);
    let second = build_constraints(&obs, cfg);

    assert_eq!(first, second);
}

#[test]
fn soft_and_strict_agree_without_flags() {
    let obs = obs_from(
        (3, 2),
        Some(2),
        vec![None, Some(1), None, None, Some(2), None],
        vec![false; 6],
    );

    let soft = build_constraints(
        &obs,
        AnalysisConfig {
            flag_semantics: FlagSemantics::Soft,
            mine_count_usage: MineCountUsage::UseIfKnown,
        },
    );
    let strict = build_constraints(
        &obs,
        AnalysisConfig {
            flag_semantics: FlagSemantics::Strict,
            mine_count_usage: MineCountUsage::UseIfKnown,
        },
    );

    assert_eq!(soft, strict);
}

#[test]
fn soft_flags_keep_flagged_cells_as_variables() {
    let obs = obs_from((2, 1), None, vec![None, Some(1)], vec![true, false]);

    let out = build_constraints(
        &obs,
        AnalysisConfig {
            flag_semantics: FlagSemantics::Soft,
            mine_count_usage: MineCountUsage::Ignore,
        },
    );

    assert_eq!(out.problem.equations.len(), 1);
    assert_eq!(out.problem.equations[0].variable_ids, vec![0]);
    assert_eq!(out.problem.equations[0].target_mines, 1);
    assert!(out.problem.variables[0].flagged);
    assert!(out.contradictions.is_empty());
}

#[test]
fn strict_flags_subtract_from_targets() {
    // Clue 1 at (1,0) with a flagged hidden neighbor: strict semantics
    // treats the flag as the mine, leaving an empty equation of target 0.
    let obs = obs_from((2, 1), None, vec![None, Some(1)], vec![true, false]);

    let out = build_constraints(
        &obs,
        AnalysisConfig {
            flag_semantics: FlagSemantics::Strict,
            mine_count_usage: MineCountUsage::Ignore,
        },
    );

    assert!(out.contradictions.is_empty());
    assert_eq!(out.problem.equations.len(), 1);
    assert!(out.problem.equations[0].variable_ids.is_empty());
    assert_eq!(out.problem.equations[0].target_mines, 0);
}

#[test]
fn default_config_is_soft_and_uses_known_count() {
    let cfg = AnalysisConfig::default();
    assert_eq!(cfg.flag_semantics, FlagSemantics::Soft);
    assert_eq!(cfg.mine_count_usage, MineCountUsage::UseIfKnown);
    assert_eq!(FlagSemantics::default(), FlagSemantics::Soft);
    assert_eq!(MineCountUsage::default(), MineCountUsage::UseIfKnown);
}

#[test]
fn stats_summarize_the_problem() {
    let obs = obs_from(
        (5, 1),
        Some(2),
        vec![None, Some(1), None, None, Some(0)],
        vec![false; 5],
    );

    let out = build_constraints(&obs, AnalysisConfig::default());

    assert_eq!(out.stats.variable_count, 3);
    assert_eq!(out.stats.local_equation_count, 2);
    assert_eq!(out.stats.global_equation_count, 1);
    assert_eq!(out.stats.component_count, 2);
    assert_eq!(out.stats.max_component_variables, 2);
    assert_eq!(out.stats.contradiction_count, 0);
}

#[test]
fn empty_board_yields_empty_problem() {
    let obs = obs_from((0, 0), Some(0), vec![], vec![]);

    let out = build_constraints(&obs, AnalysisConfig::default());

    assert!(out.contradictions.is_empty());
    assert!(out.problem.variables.is_empty());
    // The global equation still appears: zero variables summing to zero.
    assert_eq!(out.problem.equations.len(), 1);
    assert!(matches!(out.problem.equations[0].kind, EquationKind::GlobalMineCount));
    assert_eq!(out.problem.equations[0].target_mines, 0);
    assert!(out.problem.components.is_empty());
}

#[test]
fn mine_count_at_capacity_is_accepted() {
    let obs = obs_from((2, 2), Some(4), vec![None; 4], vec![false; 4]);

    let out = build_constraints(&obs, AnalysisConfig::default());

    assert!(out.contradictions.is_empty());
    assert_eq!(out.problem.equations.len(), 1);
    assert_eq!(out.problem.equations[0].target_mines, 4);
    assert_eq!(out.problem.equations[0].variable_ids.len(), 4);
}

#[test]
fn largest_board_enumerates_all_cells() {
    let cells = 255usize * 255usize;
    let obs = obs_from((255, 255), None, vec![None; cells], vec![false; cells]);

    let out = build_constraints(&obs, AnalysisConfig::default());

    assert_eq!(out.stats.variable_count, cells);
    assert!(out.problem.equations.is_empty());
    assert_eq!(out.problem.unconstrained_variable_ids.len(), cells);
    assert!(out.contradictions.is_empty());
}
