//! The size-sweep controller on concrete configurations.

use spp_experiments::sweep::ConfigError;
use spp_experiments::sweep::ContainerKind;
use spp_experiments::sweep::OwnershipMode;
use spp_experiments::sweep::SweepCell;
use spp_experiments::sweep::SweepConfig;
use spp_experiments::sweep::SweepController;
use spp_experiments::sweep::SweepPhase;

fn run(config: SweepConfig) -> Vec<SweepCell> {
    let mut controller = SweepController::new(config);
    let mut cells = Vec::new();
    while let Some(cell) = controller.advance() {
        cells.push(cell);
    }
    cells
}

#[test]
fn sweep_visits_budgets_in_order() {
    let config = SweepConfig::new(10, 12, 1).unwrap();
    assert_eq!(config.byte_budgets(), vec![1024, 2048, 4096]);

    let cells = run(config);
    assert_eq!(cells.len(), 30);
    let budgets: Vec<u64> = cells.iter().step_by(10).map(|c| c.byte_budget).collect();
    assert_eq!(budgets, vec![1024, 2048, 4096]);
    let counts: Vec<u64> = cells.iter().step_by(10).map(|c| c.element_count).collect();
    assert_eq!(counts, vec![128, 256, 512]);
    for size in cells.chunks(10) {
        assert!(size.iter().all(|c| c.byte_budget == size[0].byte_budget));
        assert!(size.iter().all(|c| c.element_count == size[0].element_count));
    }
}

#[test]
fn cells_cover_every_shape_and_mode_in_order() {
    let config = SweepConfig::new(10, 10, 1).unwrap();
    let cells = run(config);
    assert_eq!(cells.len(), 10);
    let kinds = [
        ContainerKind::Array,
        ContainerKind::Deque,
        ContainerKind::List,
        ContainerKind::Hashed,
        ContainerKind::Ordered,
    ];
    for (i, cell) in cells.iter().enumerate() {
        assert_eq!(cell.kind, kinds[i % 5]);
        let expected_mode = if i < 5 { OwnershipMode::ByRef } else { OwnershipMode::ByMove };
        assert_eq!(cell.mode, expected_mode);
        assert_eq!(cell.byte_budget, 1024);
        assert_eq!(cell.element_count, 128);
    }
}

#[test]
fn controller_phases() {
    let config = SweepConfig::new(3, 3, 1).unwrap();
    let mut controller = SweepController::new(config);
    assert_eq!(controller.phase(), SweepPhase::Idle);
    assert!(controller.advance().is_some());
    assert_eq!(controller.phase(), SweepPhase::Sweeping);
    for _ in 0..9 {
        assert!(controller.advance().is_some());
    }
    assert_eq!(controller.phase(), SweepPhase::Done);
    assert!(controller.advance().is_none());
    assert_eq!(controller.phase(), SweepPhase::Done);
}

#[test]
fn step_two_skips_intermediate_sizes() {
    let config = SweepConfig::new(10, 15, 2).unwrap();
    assert_eq!(config.byte_budgets(), vec![1024, 4096, 16384]);
}

#[test]
fn step_beyond_range_runs_once() {
    let config = SweepConfig::new(12, 13, 5).unwrap();
    assert_eq!(config.byte_budgets(), vec![4096]);
    assert_eq!(run(config).len(), 10);
}

#[test]
fn tiny_budget_yields_zero_elements() {
    let config = SweepConfig::new(0, 2, 1).unwrap();
    assert_eq!(config.byte_budgets(), vec![1, 2, 4]);
    let cells = run(config);
    assert_eq!(cells[0].element_count, 0);
    assert_eq!(cells[20].element_count, 0);
}

#[test]
fn config_rejects_zero_step() {
    assert_eq!(SweepConfig::new(10, 12, 0), Err(ConfigError::StepZero));
}

#[test]
fn config_rejects_inverted_range() {
    assert_eq!(SweepConfig::new(12, 10, 1), Err(ConfigError::StartAboveEnd));
}

#[test]
fn config_rejects_oversized_end() {
    assert_eq!(SweepConfig::new(10, 64, 1), Err(ConfigError::EndTooLarge));
}

#[test]
fn largest_admissible_budget() {
    let config = SweepConfig::new(63, 63, 1).unwrap();
    assert_eq!(config.byte_budgets(), vec![1u64 << 63]);
}
