use life_engine::cell::{Cell, CellState};
use life_engine::grid::Grid;
use life_engine::organism::{Organism, LIFESPAN};
use life_engine::sim::{handle_event, place_organism, tick, EngineState, InputEvent, SimError};
use life_engine::util::Vector;

fn fresh_grid(w: i32, h: i32) -> Grid {
    Grid::new(Vector::new(w, h)).expect("valid dimensions")
}

#[test]
fn grid_new_rejects_non_positive_dimensions() {
    assert!(Grid::new(Vector::new(0, 10)).is_none());
    assert!(Grid::new(Vector::new(10, 0)).is_none());
    assert!(Grid::new(Vector::new(-3, 5)).is_none());
    assert!(Grid::new(Vector::new(4, 3)).is_some());
}

#[test]
fn grid_get_returns_cell_at_queried_position() {
    let grid = fresh_grid(7, 5);
    for y in 0..5 {
        for x in 0..7 {
            let cell: &Cell = grid.get(Vector::new(x, y)).expect("in bounds");
            assert_eq!(cell.pos, Vector::new(x, y));
            assert_eq!(cell.state, CellState::Empty);
        }
    }
}

#[test]
fn grid_get_returns_nothing_out_of_bounds() {
    let grid = fresh_grid(7, 5);
    assert!(grid.get(Vector::new(-1, 0)).is_none());
    assert!(grid.get(Vector::new(0, -1)).is_none());
    assert!(grid.get(Vector::new(7, 0)).is_none());
    assert!(grid.get(Vector::new(0, 5)).is_none());
    // a negative x must not alias the previous row's last cell
    assert!(grid.get(Vector::new(-1, 3)).is_none());
}

#[test]
fn grid_get_mut_gives_mutable_access_in_bounds_only() {
    let mut grid = fresh_grid(10, 10);
    assert!(grid.get_mut(Vector::new(10, 3)).is_none());
    assert!(grid.get_mut(Vector::new(3, -1)).is_none());
    {
        let cell = grid.get_mut(Vector::new(6, 2)).expect("in bounds");
        assert_eq!(cell.pos, Vector::new(6, 2));
        cell.state = CellState::Producer;
    }
    assert_eq!(grid.get(Vector::new(6, 2)).unwrap().state, CellState::Producer);
}

#[test]
fn grid_set_state_writes_and_records_dirty() {
    let mut grid = fresh_grid(10, 10);
    let mut dirty: Vec<Vector> = Vec::new();
    grid.set_state(Vector::new(3, 4), CellState::Food, &mut dirty);
    assert_eq!(grid.get(Vector::new(3, 4)).unwrap().state, CellState::Food);
    assert_eq!(dirty, vec![Vector::new(3, 4)]);
}

#[test]
fn grid_set_state_out_of_bounds_is_a_no_op() {
    let mut grid = fresh_grid(10, 10);
    let mut dirty: Vec<Vector> = Vec::new();
    grid.set_state(Vector::new(-1, 4), CellState::Food, &mut dirty);
    grid.set_state(Vector::new(10, 0), CellState::Food, &mut dirty);
    assert!(dirty.is_empty());
    for y in 0..10 {
        for x in 0..10 {
            assert_eq!(grid.get(Vector::new(x, y)).unwrap().state, CellState::Empty);
        }
    }
}

#[test]
fn grid_set_state_if_empty_only_writes_empty_cells() {
    let mut grid = fresh_grid(10, 10);
    let mut dirty: Vec<Vector> = Vec::new();
    grid.set_state(Vector::new(2, 2), CellState::Mouth, &mut dirty);
    dirty.clear();
    // occupied target: grid and dirty list must be unchanged
    grid.set_state_if_empty(Vector::new(2, 2), CellState::Food, &mut dirty);
    assert_eq!(grid.get(Vector::new(2, 2)).unwrap().state, CellState::Mouth);
    assert!(dirty.is_empty());
    // empty target: behaves exactly like set_state
    grid.set_state_if_empty(Vector::new(5, 5), CellState::Food, &mut dirty);
    assert_eq!(grid.get(Vector::new(5, 5)).unwrap().state, CellState::Food);
    assert_eq!(dirty, vec![Vector::new(5, 5)]);
}

#[test]
fn grid_match_state_is_bounds_checked() {
    let mut grid = fresh_grid(10, 10);
    let mut dirty: Vec<Vector> = Vec::new();
    grid.set_state(Vector::new(1, 1), CellState::Producer, &mut dirty);
    assert!(grid.match_state(Vector::new(1, 1), CellState::Producer));
    assert!(!grid.match_state(Vector::new(1, 1), CellState::Food));
    assert!(grid.match_state(Vector::new(4, 4), CellState::Empty));
    assert!(!grid.match_state(Vector::new(-1, 0), CellState::Empty));
    assert!(!grid.match_state(Vector::new(10, 10), CellState::Empty));
}

#[test]
fn vector_directions_and_neighbors() {
    let v = Vector::new(10, 20);
    assert_eq!(v.left(), Vector::new(9, 20));
    assert_eq!(v.right(), Vector::new(11, 20));
    assert_eq!(v.up(), Vector::new(10, 19));
    assert_eq!(v.down(), Vector::new(10, 21));
    assert_eq!(v.up_left(), Vector::new(9, 19));
    assert_eq!(v.up_right(), Vector::new(11, 19));
    assert_eq!(v.down_left(), Vector::new(9, 21));
    assert_eq!(v.down_right(), Vector::new(11, 21));
    assert_eq!(v.cross_neighbors(), vec![v.left(), v.right(), v.up(), v.down()]);
    assert_eq!(
        v.diagonal_neighbors(),
        vec![v.up_left(), v.up_right(), v.down_left(), v.down_right()]
    );
    assert_eq!(
        v.neighbors(),
        vec![
            v.left(),
            v.right(),
            v.up(),
            v.down(),
            v.up_left(),
            v.up_right(),
            v.down_left(),
            v.down_right()
        ]
    );
}

#[test]
fn vector_add_and_checked_add() {
    let a = Vector::new(3, -4);
    assert_eq!(a.add(Vector::new(10, 10)), Vector::new(13, 6));
    assert_eq!(a.checked_add(Vector::new(1, 1)), Some(Vector::new(4, -3)));
    assert_eq!(Vector::new(i32::MAX, 0).checked_add(Vector::new(1, 0)), None);
    assert_eq!(Vector::new(0, i32::MIN).checked_add(Vector::new(0, -1)), None);
}

#[test]
fn placement_seeds_template_and_dirty_list() {
    // one organism with body plan [(-1,-1): Producer, (0,0): Mouth,
    // (1,1): Producer] at anchor (50,50) on a 100x100 grid
    let mut grid = fresh_grid(100, 100);
    let mut organisms: Vec<Organism> = Vec::new();
    let mut dirty: Vec<Vector> = Vec::new();
    let anchor = place_organism(&mut grid, &mut organisms, &mut dirty, 250, 250, Vector::new(5, 5));
    assert_eq!(anchor, Vector::new(50, 50));
    assert_eq!(grid.get(Vector::new(49, 49)).unwrap().state, CellState::Producer);
    assert_eq!(grid.get(Vector::new(50, 50)).unwrap().state, CellState::Mouth);
    assert_eq!(grid.get(Vector::new(51, 51)).unwrap().state, CellState::Producer);
    assert_eq!(
        dirty,
        vec![Vector::new(49, 49), Vector::new(50, 50), Vector::new(51, 51)]
    );
    assert_eq!(organisms.len(), 1);
    let o = &organisms[0];
    assert_eq!(o.pos, Vector::new(50, 50));
    assert_eq!(o.cells, vec![Vector::new(-1, -1), Vector::new(0, 0), Vector::new(1, 1)]);
    assert_eq!(o.food, 0);
    assert_eq!(o.age, 0);
}

#[test]
fn handle_event_quit_exits_and_changes_nothing() {
    let mut grid = fresh_grid(20, 20);
    let mut organisms: Vec<Organism> = Vec::new();
    let mut dirty: Vec<Vector> = Vec::new();
    let r = handle_event(InputEvent::Quit, &mut grid, &mut organisms, &mut dirty, Vector::new(5, 5));
    assert_eq!(r, EngineState::Exit);
    assert!(organisms.is_empty());
    assert!(dirty.is_empty());
}

#[test]
fn handle_event_click_places_an_organism() {
    let mut grid = fresh_grid(20, 20);
    let mut organisms: Vec<Organism> = Vec::new();
    let mut dirty: Vec<Vector> = Vec::new();
    let r = handle_event(
        InputEvent::Place(37, 42),
        &mut grid,
        &mut organisms,
        &mut dirty,
        Vector::new(5, 5),
    );
    assert_eq!(r, EngineState::Continue());
    assert_eq!(organisms.len(), 1);
    assert_eq!(organisms[0].pos, Vector::new(7, 8));
    assert_eq!(grid.get(Vector::new(7, 8)).unwrap().state, CellState::Mouth);
}

/// A helper: an organism whose whole body is `Mouth` cells at the template
/// offsets, so no randomness (no producer, food kept low) is involved.
fn place_mouth_only(grid: &mut Grid, dirty: &mut Vec<Vector>, anchor: Vector) -> Organism {
    Organism::new_with_cells(
        anchor,
        vec![
            (Vector::new(-1, -1), CellState::Mouth),
            (Vector::new(0, 0), CellState::Mouth),
            (Vector::new(1, 1), CellState::Mouth),
        ],
        grid,
        dirty,
    )
}

#[test]
fn mouth_consumes_adjacent_food_deterministically() {
    // a Food cell in the 8-neighborhood of a Mouth is consumed in one tick,
    // with no randomness involved: the cell reads Empty and food rises by 1
    let mut grid = fresh_grid(100, 100);
    let mut dirty: Vec<Vector> = Vec::new();
    let mut organisms: Vec<Organism> = Vec::new();
    let o = Organism::new_with_cells(
        Vector::new(50, 50),
        vec![(Vector::new(0, 0), CellState::Mouth)],
        &mut grid,
        &mut dirty,
    );
    organisms.push(o);
    grid.set_state(Vector::new(50, 49), CellState::Food, &mut dirty);
    tick(&mut grid, &mut organisms, &mut dirty).unwrap();
    assert_eq!(grid.get(Vector::new(50, 49)).unwrap().state, CellState::Empty);
    assert_eq!(organisms.len(), 1);
    assert_eq!(organisms[0].food, 1);
    assert_eq!(organisms[0].age, 1);
}

#[test]
fn mouth_consumes_all_n_adjacent_food_cells_once_each() {
    let mut grid = fresh_grid(100, 100);
    let mut dirty: Vec<Vector> = Vec::new();
    let mut organisms: Vec<Organism> = Vec::new();
    let o = Organism::new_with_cells(
        Vector::new(50, 50),
        vec![(Vector::new(0, 0), CellState::Mouth)],
        &mut grid,
        &mut dirty,
    );
    organisms.push(o);
    let food_at = [
        Vector::new(49, 49),
        Vector::new(50, 49),
        Vector::new(51, 49),
        Vector::new(49, 50),
        Vector::new(51, 51),
    ];
    for p in food_at.iter() {
        grid.set_state(*p, CellState::Food, &mut dirty);
    }
    tick(&mut grid, &mut organisms, &mut dirty).unwrap();
    for p in food_at.iter() {
        assert_eq!(grid.get(*p).unwrap().state, CellState::Empty);
    }
    assert_eq!(organisms[0].food, 5);
}

#[test]
fn food_cell_two_rows_above_the_mouth_is_not_consumed() {
    // (49,48) is not in the 8-neighborhood of the Mouth at (50,50), so a
    // tick of the standard template leaves it untouched
    let mut grid = fresh_grid(100, 100);
    let mut organisms: Vec<Organism> = Vec::new();
    let mut dirty: Vec<Vector> = Vec::new();
    place_organism(&mut grid, &mut organisms, &mut dirty, 50, 50, Vector::new(1, 1));
    grid.set_state(Vector::new(49, 48), CellState::Food, &mut dirty);
    tick(&mut grid, &mut organisms, &mut dirty).unwrap();
    assert_eq!(grid.get(Vector::new(49, 48)).unwrap().state, CellState::Food);
    assert_eq!(organisms.len(), 1);
    // only same-tick producer output adjacent to the mouth could feed it
    assert!(organisms[0].food <= 1);
}

#[test]
fn organism_at_lifespan_boundary_dies_and_leaves_food() {
    // age at the boundary: the organism always dies, and every occupied cell
    // reads Food afterwards regardless of its prior state
    let mut grid = fresh_grid(100, 100);
    let mut organisms: Vec<Organism> = Vec::new();
    let mut dirty: Vec<Vector> = Vec::new();
    place_organism(&mut grid, &mut organisms, &mut dirty, 50, 50, Vector::new(1, 1));
    organisms[0].age = LIFESPAN;
    tick(&mut grid, &mut organisms, &mut dirty).unwrap();
    assert!(organisms.is_empty());
    assert_eq!(grid.get(Vector::new(49, 49)).unwrap().state, CellState::Food);
    assert_eq!(grid.get(Vector::new(50, 50)).unwrap().state, CellState::Food);
    assert_eq!(grid.get(Vector::new(51, 51)).unwrap().state, CellState::Food);
}

#[test]
fn organism_lives_exactly_the_lifespan_without_food() {
    // run with no food ever produced or consumed (all-Mouth body): the
    // organism survives the tick that brings its age to the lifespan and is
    // removed on the next one, all three cells turning to Food
    let mut grid = fresh_grid(100, 100);
    let mut dirty: Vec<Vector> = Vec::new();
    let mut organisms: Vec<Organism> = Vec::new();
    let o = place_mouth_only(&mut grid, &mut dirty, Vector::new(50, 50));
    organisms.push(o);
    for _ in 0..LIFESPAN {
        tick(&mut grid, &mut organisms, &mut dirty).unwrap();
    }
    assert_eq!(organisms.len(), 1);
    assert_eq!(organisms[0].age, LIFESPAN);
    tick(&mut grid, &mut organisms, &mut dirty).unwrap();
    assert!(organisms.is_empty());
    assert_eq!(grid.get(Vector::new(49, 49)).unwrap().state, CellState::Food);
    assert_eq!(grid.get(Vector::new(50, 50)).unwrap().state, CellState::Food);
    assert_eq!(grid.get(Vector::new(51, 51)).unwrap().state, CellState::Food);
}

#[test]
fn low_food_organism_never_attempts_reproduction() {
    // food <= 10 never reproduces: population stays at one, food untouched
    let mut grid = fresh_grid(100, 100);
    let mut dirty: Vec<Vector> = Vec::new();
    let mut organisms: Vec<Organism> = Vec::new();
    let o = place_mouth_only(&mut grid, &mut dirty, Vector::new(50, 50));
    organisms.push(o);
    organisms[0].food = 10;
    for _ in 0..50 {
        tick(&mut grid, &mut organisms, &mut dirty).unwrap();
        assert_eq!(organisms.len(), 1);
        assert_eq!(organisms[0].food, 10);
    }
}

#[test]
fn blocked_reproduction_fails_silently_without_food_deduction() {
    // food > 10 but no candidate site is fully Empty: the attempt fails and
    // food is not deducted
    let mut grid = fresh_grid(100, 100);
    let mut dirty: Vec<Vector> = Vec::new();
    let mut organisms: Vec<Organism> = Vec::new();
    let o = Organism::new_with_cells(
        Vector::new(50, 50),
        vec![(Vector::new(0, 0), CellState::Producer)],
        &mut grid,
        &mut dirty,
    );
    organisms.push(o);
    organisms[0].food = 12;
    // fill every other cell with Food so no anchor within range is clear
    for y in 0..100 {
        for x in 0..100 {
            grid.set_state_if_empty(Vector::new(x, y), CellState::Food, &mut dirty);
        }
    }
    for _ in 0..30 {
        tick(&mut grid, &mut organisms, &mut dirty).unwrap();
        assert_eq!(organisms.len(), 1);
        assert_eq!(organisms[0].food, 12);
    }
}

#[test]
fn successful_reproduction_costs_exactly_ten_food() {
    // food > 10 and free space: an offspring appears on a fully clear site
    // and the parent pays exactly the reproduction cost
    let mut grid = fresh_grid(100, 100);
    let mut dirty: Vec<Vector> = Vec::new();
    let mut organisms: Vec<Organism> = Vec::new();
    let o = Organism::new_with_cells(
        Vector::new(50, 50),
        vec![(Vector::new(0, 0), CellState::Producer)],
        &mut grid,
        &mut dirty,
    );
    organisms.push(o);
    let mut born = false;
    for _ in 0..500 {
        organisms.truncate(1);
        organisms[0].food = 11;
        tick(&mut grid, &mut organisms, &mut dirty).unwrap();
        if organisms.len() == 2 {
            assert_eq!(organisms[0].food, 1);
            let nb = &organisms[1];
            assert_eq!(nb.food, 0);
            assert_eq!(nb.age, 0);
            assert_eq!(nb.cells, organisms[0].cells);
            assert!((nb.pos.x - 50).abs() <= 3 && (nb.pos.y - 50).abs() <= 3);
            assert_eq!(grid.get(nb.pos).unwrap().state, CellState::Producer);
            born = true;
            break;
        }
    }
    assert!(born, "reproduction onto a mostly clear grid should succeed");
}

#[test]
fn producers_eventually_emit_food_into_a_cross_neighbor() {
    let mut grid = fresh_grid(100, 100);
    let mut dirty: Vec<Vector> = Vec::new();
    let mut organisms: Vec<Organism> = Vec::new();
    let o = Organism::new_with_cells(
        Vector::new(50, 50),
        vec![(Vector::new(0, 0), CellState::Producer)],
        &mut grid,
        &mut dirty,
    );
    organisms.push(o);
    let cross = [
        Vector::new(49, 50),
        Vector::new(51, 50),
        Vector::new(50, 49),
        Vector::new(50, 51),
    ];
    let mut produced = false;
    for _ in 0..900 {
        tick(&mut grid, &mut organisms, &mut dirty).unwrap();
        if cross.iter().any(|p| grid.get(*p).unwrap().state == CellState::Food) {
            produced = true;
            break;
        }
    }
    assert!(produced, "a producer should emit food well within 900 ticks");
}

#[test]
fn occupied_cell_contradiction_is_a_fatal_tick_error() {
    // an organism whose occupied cell reads Empty is a modeling
    // contradiction: the tick is abandoned with the explicit error
    let mut grid = fresh_grid(20, 20);
    let mut dirty: Vec<Vector> = Vec::new();
    let mut organisms: Vec<Organism> = Vec::new();
    organisms.push(Organism::new(Vector::new(5, 5), vec![Vector::new(0, 0)]));
    let r = tick(&mut grid, &mut organisms, &mut dirty);
    assert_eq!(r, Err(SimError::StateContradiction));
}

#[test]
fn a_later_organism_can_eat_a_carcass_in_the_same_tick() {
    // intentional non-simultaneity: food from a death is visible to
    // organisms processed later in the same pass
    let mut grid = fresh_grid(100, 100);
    let mut dirty: Vec<Vector> = Vec::new();
    let mut organisms: Vec<Organism> = Vec::new();
    let dying = place_mouth_only(&mut grid, &mut dirty, Vector::new(50, 50));
    organisms.push(dying);
    organisms[0].age = LIFESPAN;
    let eater = Organism::new_with_cells(
        Vector::new(52, 52),
        vec![(Vector::new(0, 0), CellState::Mouth)],
        &mut grid,
        &mut dirty,
    );
    organisms.push(eater);
    tick(&mut grid, &mut organisms, &mut dirty).unwrap();
    assert_eq!(organisms.len(), 1);
    // the carcass cell next to the survivor was eaten before the tick ended
    assert_eq!(grid.get(Vector::new(51, 51)).unwrap().state, CellState::Empty);
    assert_eq!(grid.get(Vector::new(50, 50)).unwrap().state, CellState::Food);
    assert_eq!(grid.get(Vector::new(49, 49)).unwrap().state, CellState::Food);
    assert_eq!(organisms[0].food, 1);
}

#[test]
fn overlapping_placements_can_corrupt_a_later_tick() {
    // two organisms seeded on the same cells: when the first one dies its
    // carcass turns the shared cells to Food, and the second one's turn in
    // the same tick hits the explicit contradiction
    let mut grid = fresh_grid(100, 100);
    let mut dirty: Vec<Vector> = Vec::new();
    let mut organisms: Vec<Organism> = Vec::new();
    place_organism(&mut grid, &mut organisms, &mut dirty, 50, 50, Vector::new(1, 1));
    place_organism(&mut grid, &mut organisms, &mut dirty, 50, 50, Vector::new(1, 1));
    organisms[0].age = LIFESPAN;
    let r = tick(&mut grid, &mut organisms, &mut dirty);
    assert_eq!(r, Err(SimError::StateContradiction));
}

#[test]
fn clone_with_cells_copies_live_states() {
    let mut grid = fresh_grid(40, 40);
    let mut dirty: Vec<Vector> = Vec::new();
    let parent = Organism::new_with_cells(
        Vector::new(10, 10),
        vec![
            (Vector::new(-1, -1), CellState::Producer),
            (Vector::new(0, 0), CellState::Mouth),
            (Vector::new(1, 1), CellState::Producer),
        ],
        &mut grid,
        &mut dirty,
    );
    // mutate one of the parent's live cells, as production could have
    grid.set_state(Vector::new(9, 9), CellState::Mouth, &mut dirty);
    let child = parent.clone_with_cells(Vector::new(20, 20), &mut grid, &mut dirty);
    assert_eq!(child.pos, Vector::new(20, 20));
    assert_eq!(child.cells, parent.cells);
    assert_eq!(child.food, 0);
    assert_eq!(child.age, 0);
    // the clone copied the parent's *live* states, not the original template
    assert_eq!(grid.get(Vector::new(19, 19)).unwrap().state, CellState::Mouth);
    assert_eq!(grid.get(Vector::new(20, 20)).unwrap().state, CellState::Mouth);
    assert_eq!(grid.get(Vector::new(21, 21)).unwrap().state, CellState::Producer);
}

#[test]
fn is_pos_clear_checks_every_target_cell() {
    let mut grid = fresh_grid(40, 40);
    let mut dirty: Vec<Vector> = Vec::new();
    let o = Organism::new(
        Vector::new(10, 10),
        vec![Vector::new(-1, -1), Vector::new(0, 0), Vector::new(1, 1)],
    );
    assert!(o.is_pos_clear(Vector::new(20, 20), &grid));
    grid.set_state(Vector::new(21, 21), CellState::Food, &mut dirty);
    assert!(!o.is_pos_clear(Vector::new(20, 20), &grid));
    // a body plan reaching out of bounds is not clear
    assert!(!o.is_pos_clear(Vector::new(0, 0), &grid));
    assert!(!o.is_pos_clear(Vector::new(39, 39), &grid));
}
