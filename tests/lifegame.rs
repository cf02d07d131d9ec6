use icn2037_life::lifegame::{BoarderPolicy, CellState, LifeGame};
use icn2037_life::message::ICN2037Message;
use icn2037_life::patterns::{oscillators, spaceships, still_lifes};
use rand::SeedableRng;
use rand_xorshift::XorShiftRng;

type Board = LifeGame<25, 16>;

fn board() -> Board {
    LifeGame::new(160, XorShiftRng::from_seed([7u8; 16]))
}

fn cells(g: &Board) -> Vec<CellState> {
    let mut v = Vec::new();
    for x in 0..25 {
        for y in 0..16 {
            v.push(g.cell(x, y));
        }
    }
    v
}

fn alive(g: &Board) -> Vec<(usize, usize)> {
    let mut v = Vec::new();
    for x in 0..25 {
        for y in 0..16 {
            if g.cell(x, y) == CellState::Alive {
                v.push((x, y));
            }
        }
    }
    v
}

fn commit(g: &mut Board, live: &[(usize, usize)]) {
    for &(x, y) in live {
        g.make_alive(x, y, true);
    }
    g.step_apply();
}

#[test]
fn dead_board_steps_dead() {
    let mut g = board();
    g.step();
    assert!(g.all_dead_next());
    assert!(g.all_dead());
    assert!(g.is_still());
    g.set_boarder_policy(BoarderPolicy::Ignored);
    g.step();
    assert!(g.all_dead_next());
}

#[test]
fn blinker_alternates_and_is_still() {
    let mut g = board();
    commit(&mut g, &[(10, 8), (11, 8), (12, 8)]);
    g.step();
    assert!(g.is_still());
    g.step_apply();
    assert_eq!(alive(&g), vec![(11, 7), (11, 8), (11, 9)]);
    g.step();
    g.step_apply();
    assert_eq!(alive(&g), vec![(10, 8), (11, 8), (12, 8)]);
    g.step();
    assert!(g.is_still());
}

#[test]
fn wrapped_neighbors_count_only_when_looping() {
    let mut g = board();
    commit(&mut g, &[(24, 4), (24, 5), (24, 6)]);
    g.step();
    assert_eq!(g.cell_next(0, 5), CellState::Alive);
    let mut h = board();
    h.set_boarder_policy(BoarderPolicy::Ignored);
    commit(&mut h, &[(24, 4), (24, 5), (24, 6)]);
    h.step();
    assert_eq!(h.cell_next(0, 5), CellState::Dead);
    assert_eq!(h.cell_next(23, 5), CellState::Alive);
}

#[test]
fn lone_cell_dies() {
    let mut g = board();
    commit(&mut g, &[(5, 5)]);
    g.step();
    assert!(g.all_dead_next());
    g.step_apply();
    assert!(g.all_dead());
    assert!(g.is_still());
}

#[test]
fn block_is_still() {
    let mut g = board();
    g.apply_pattern(3, 3, &["XX", "XX"]);
    g.step_apply();
    let before = cells(&g);
    g.step();
    g.step_apply();
    assert_eq!(cells(&g), before);
    assert!(g.is_still());
}

#[test]
fn draw_sends_only_changed_cells() {
    let mut g = board();
    commit(&mut g, &[(1, 1), (2, 2)]);
    g.make_alive(1, 1, false);
    g.make_alive(7, 7, true);
    let steps = g.draw(false);
    assert_eq!(steps.len(), 16);
    for (k, step) in steps.iter().enumerate() {
        assert_eq!(
            step.messages,
            vec![
                ICN2037Message::SetPixel((1, 1, 15 - k as u8)),
                ICN2037Message::SetPixel((7, 7, k as u8)),
            ]
        );
        assert_eq!(step.delay_ms, 10);
    }
}

#[test]
fn fade_in_over_160ms() {
    let mut g = board();
    g.make_alive(4, 9, true);
    let steps = g.draw(false);
    assert_eq!(steps.len(), 16);
    let grays: Vec<u8> = steps
        .iter()
        .map(|s| match s.messages.as_slice() {
            [ICN2037Message::SetPixel((4, 9, v))] => *v,
            other => panic!("unexpected messages {:?}", other),
        })
        .collect();
    assert_eq!(grays, (0u8..16).collect::<Vec<u8>>());
    assert!(steps.iter().all(|s| s.delay_ms == 10));
}

#[test]
fn quick_and_short_draws_take_one_step() {
    let mut g = board();
    g.make_alive(4, 9, true);
    let quick = g.draw(true);
    assert_eq!(quick.len(), 1);
    assert_eq!(quick[0].messages, vec![ICN2037Message::SetPixel((4, 9, 15))]);
    assert_eq!(quick[0].delay_ms, 1);
    let mut s: LifeGame<25, 16> = LifeGame::new(10, XorShiftRng::from_seed([1u8; 16]));
    s.make_alive(0, 0, true);
    let short = s.draw(false);
    assert_eq!(short.len(), 1);
    assert_eq!(short[0].delay_ms, 10);
}

#[test]
fn fixed_seed_gives_same_board() {
    let mut a = LifeGame::<25, 16>::new(160, XorShiftRng::from_seed([42u8; 16]));
    let mut b = LifeGame::<25, 16>::new(160, XorShiftRng::from_seed([42u8; 16]));
    a.randomly_arrange_patterns();
    b.randomly_arrange_patterns();
    assert!(a.all_dead());
    a.step_apply();
    b.step_apply();
    assert_eq!(cells(&a), cells(&b));
}

#[test]
fn patterns_are_clipped_at_edges() {
    let mut g = board();
    g.apply_pattern(23, 15, &["XXX", "X X"]);
    g.step_apply();
    assert_eq!(alive(&g), vec![(23, 15), (24, 15)]);
}

#[test]
fn transposed_pattern_swaps_rows_and_columns() {
    let mut g = board();
    g.apply_pattern_transpose(2, 3, &["XXX", "X  "]);
    g.step_apply();
    assert_eq!(alive(&g), vec![(2, 3), (2, 4), (2, 5), (3, 3)]);
}

#[test]
fn centered_patterns() {
    let mut g = board();
    g.apply_pattern_center(&["XXX"]);
    g.step_apply();
    assert_eq!(alive(&g), vec![(11, 8), (12, 8), (13, 8)]);
    let mut t = board();
    t.apply_pattern_center_transpose(&["XXX"]);
    t.step_apply();
    assert_eq!(alive(&t), vec![(12, 7), (12, 8), (12, 9)]);
}

#[test]
fn place_pattern_uses_picks_modulo_choices() {
    let mut g = board();
    g.place_pattern(2, 25 + 3, 16 + 4, 7);
    g.step_apply();
    assert_eq!(alive(&g), vec![(3, 4), (3, 5), (4, 4), (4, 5)]);
}

#[test]
fn catalog_sizes() {
    assert_eq!(oscillators().len(), 6);
    assert_eq!(spaceships().len(), 2);
    assert_eq!(still_lifes().len(), 7);
    assert_eq!(still_lifes()[0], vec!["XX", "XX"]);
    assert_eq!(spaceships()[0], vec![" X ", "  X", "XXX"]);
}

#[test]
fn clear_kills_both_generations() {
    let mut g = board();
    commit(&mut g, &[(1, 1)]);
    g.make_alive(2, 2, true);
    g.clear();
    assert!(g.all_dead());
    assert!(g.all_dead_next());
}
