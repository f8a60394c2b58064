use sodglumate::event::{Event, SettingsEvent};
use sodglumate::island::{GridDirection, Island, IslandAction, IslandCtx, IslandEntry};

fn entry(label: &str) -> IslandEntry {
    IslandEntry {
        label: label.to_string(),
        action: IslandAction::Emit(Event::Settings(SettingsEvent::ToggleAutoPlay)),
    }
}

/// A grid shaped like the root island: one wide row, then two rows of two.
fn demo_island() -> Island {
    Island {
        rows: vec![
            vec![entry("a0"), entry("a1")],
            vec![entry("b0"), entry("b1")],
            vec![entry("c0")],
        ],
    }
}

fn sub_island() -> Island {
    Island { rows: vec![vec![entry("s0")], vec![entry("back")]] }
}

#[test]
fn flat_indices_and_positions_are_inverse() {
    let island = demo_island();
    assert_eq!(island.row_count(), 3);
    assert_eq!(island.col_count(0), 2);
    assert_eq!(island.col_count(2), 1);
    assert_eq!(island.col_count(9), 0);

    for i in 0..5 {
        let (r, c) = island.index_to_pos(i);
        assert_eq!(island.pos_to_index(r, c), i);
    }
    assert_eq!(island.index_to_pos(2), (1, 0));
    assert_eq!(island.index_to_pos(4), (2, 0));
    // Out of range: the last valid position.
    assert_eq!(island.index_to_pos(99), (2, 0));
    // A column past the row clamps into it.
    assert_eq!(island.pos_to_index(0, 9), 1);
    // A row past the grid maps to the total.
    assert_eq!(island.pos_to_index(9, 0), 5);
}

#[test]
fn grid_navigation_clamps_at_the_edges() {
    let mut ctx = IslandCtx::new();
    ctx.activate(demo_island(), 0);
    assert!(ctx.active);

    ctx.navigate(GridDirection::Right);
    assert_eq!(ctx.selected, 1);
    ctx.navigate(GridDirection::Right);
    assert_eq!(ctx.selected, 1, "the right edge clamps");
    ctx.navigate(GridDirection::Down);
    assert_eq!(ctx.selected, 3);
    ctx.navigate(GridDirection::Down);
    assert_eq!(ctx.selected, 4, "the column clamps into the shorter row");
    ctx.navigate(GridDirection::Down);
    assert_eq!(ctx.selected, 4, "the bottom edge clamps");
    ctx.navigate(GridDirection::Up);
    ctx.navigate(GridDirection::Up);
    ctx.navigate(GridDirection::Left);
    assert_eq!(ctx.selected, 0);
    ctx.navigate(GridDirection::Left);
    assert_eq!(ctx.selected, 0, "the left edge clamps");

    let e = ctx.selected_entry().expect("an entry under the selection");
    assert_eq!(e.label, "a0");
}

#[test]
fn the_stack_remembers_the_parent_selection() {
    let mut ctx = IslandCtx::new();
    ctx.activate(demo_island(), 2);
    assert_eq!(ctx.selected, 2);

    ctx.push(sub_island());
    assert_eq!(ctx.selected, 0, "a pushed island starts at its origin");
    assert_eq!(ctx.current_island().unwrap().row_count(), 2);

    assert!(ctx.pop(), "a pushed island pops back to its parent");
    assert_eq!(ctx.selected, 2, "the parent's selection is restored");
    assert!(!ctx.pop(), "the root never pops");
}

#[test]
fn deactivation_starts_the_input_cooldown() {
    let mut ctx = IslandCtx::new();
    ctx.activate(demo_island(), 0);
    ctx.deactivate(1000);
    assert!(!ctx.active);
    assert!(ctx.current_island().is_none());
    assert!(ctx.in_cooldown(1000));
    assert!(ctx.in_cooldown(1279));
    assert!(!ctx.in_cooldown(1280), "the cooldown lasts its fixed span");
}
