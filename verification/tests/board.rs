use ball_sort::board::Board;
use ball_sort::board::Color;
use ball_sort::board::Move;

fn blue() -> Color {
    Color::Token(0x0000ff)
}

fn dark_blue() -> Color {
    Color::Token(0x00008b)
}

fn red() -> Color {
    Color::Token(0xff0000)
}

fn green() -> Color {
    Color::Token(0x00ff00)
}

fn empty() -> Color {
    Color::Empty
}

#[test]
fn test_move_validation() {
    let mut f = Board::new(
        2,
        3,
        vec![
            vec![blue(), red()],
            vec![blue(), green()],
            vec![empty(), empty()],
        ],
    )
    .unwrap();

    assert!(
        !f.is_valid_swap(0, 0),
        "swapping element with itself must not be valid"
    );

    assert!(
        f.is_valid_swap(0, 2),
        "stacking into empty columns must be valid"
    );
    assert!(
        !f.is_valid_swap(0, 1),
        "stacking into full rows must not be valid"
    );

    f.apply_swap(0, 2);
    assert!(
        f.is_valid_swap(1, 2),
        "stacking matching colors must be valid"
    );
    assert!(
        !f.is_valid_swap(2, 0),
        "stacking mismatching colors must not be valid"
    );
}

#[test]
fn test_solved() {
    let mut f = Board::new(
        2,
        3,
        vec![
            vec![blue(), blue()],
            vec![blue(), green()],
            vec![empty(), empty()],
        ],
    )
    .unwrap();

    assert!(!f.is_solved(), "unsolved state");

    f.set_color(1, 1, blue());
    assert!(f.is_solved(), "solved state");

    f.set_color(2, 1, blue());
    assert!(!f.is_solved(), "partial empty stack");
}

#[test]
fn test_new_accepts_gravity_packed_grid() {
    let b = Board::new(
        2,
        3,
        vec![
            vec![red(), blue()],
            vec![empty(), green()],
            vec![empty(), empty()],
        ],
    )
    .unwrap();
    assert_eq!(b.depth(), 2);
    assert_eq!(b.stack_count(), 3);
    assert_eq!(b.color_at(0, 0), red());
    assert_eq!(b.color_at(0, 1), blue());
    assert_eq!(b.color_at(1, 0), empty());
    assert_eq!(b.color_at(1, 1), green());
    assert_eq!(b.color_at(2, 0), empty());
    assert_eq!(b.color_at(2, 1), empty());
}

#[test]
fn test_new_rejects_zero_depth() {
    assert!(Board::new(0, 3, vec![vec![], vec![], vec![]]).is_none());
}

#[test]
fn test_new_rejects_wrong_stack_count() {
    assert!(Board::new(2, 3, vec![vec![empty(), empty()], vec![empty(), empty()]]).is_none());
}

#[test]
fn test_new_rejects_wrong_stack_depth() {
    assert!(Board::new(
        2,
        2,
        vec![vec![empty(), empty()], vec![blue(), blue(), blue()]]
    )
    .is_none());
}

#[test]
fn test_new_rejects_floating_empty_slot() {
    assert!(Board::new(2, 1, vec![vec![blue(), empty()]]).is_none());
    assert!(Board::new(3, 1, vec![vec![empty(), green(), empty()]]).is_none());
}

#[test]
fn test_empty_cnt() {
    let b = Board::new(
        2,
        3,
        vec![
            vec![blue(), red()],
            vec![empty(), blue()],
            vec![empty(), empty()],
        ],
    )
    .unwrap();
    assert_eq!(b.empty_cnt(0), 0);
    assert_eq!(b.empty_cnt(1), 1);
    assert_eq!(b.empty_cnt(2), 2);
}

#[test]
fn test_apply_moves_top_token() {
    let mut b = Board::new(
        2,
        3,
        vec![
            vec![blue(), red()],
            vec![blue(), green()],
            vec![empty(), empty()],
        ],
    )
    .unwrap();
    b.apply(&Move { from: 0, to: 2 });
    assert_eq!(b.color_at(0, 0), empty());
    assert_eq!(b.color_at(0, 1), red());
    assert_eq!(b.color_at(2, 0), empty());
    assert_eq!(b.color_at(2, 1), blue());
}

#[test]
fn test_apply_then_revert_restores_grid() {
    let initial = vec![
        vec![dark_blue(), red()],
        vec![blue(), green()],
        vec![empty(), empty()],
    ];
    let mut b = Board::new(2, 3, initial.clone()).unwrap();
    let m = Move { from: 1, to: 2 };
    assert!(b.is_valid_swap(1, 2));
    b.apply(&m);
    b.revert(&m);
    for stack in 0..3 {
        for slot in 0..2 {
            assert_eq!(b.color_at(stack, slot), initial[stack][slot]);
        }
    }
}

#[test]
fn test_empty_destination_accepts_any_color() {
    let b = Board::new(
        2,
        3,
        vec![
            vec![red(), blue()],
            vec![empty(), green()],
            vec![empty(), empty()],
        ],
    )
    .unwrap();
    assert!(b.is_valid_swap(0, 2));
    assert!(b.is_valid_swap(1, 2));
}

#[test]
fn test_empty_source_has_nothing_to_pour() {
    let b = Board::new(2, 2, vec![vec![empty(), empty()], vec![empty(), green()]]).unwrap();
    assert!(!b.is_valid_swap(0, 1));
}

#[test]
fn test_solved_fully_empty_board() {
    let b = Board::new(2, 2, vec![vec![empty(), empty()], vec![empty(), empty()]]).unwrap();
    assert!(b.is_solved());
}

#[test]
fn test_solved_uniform_full_stacks() {
    let b = Board::new(
        2,
        3,
        vec![
            vec![blue(), blue()],
            vec![green(), green()],
            vec![empty(), empty()],
        ],
    )
    .unwrap();
    assert!(b.is_solved());
}

#[test]
fn test_unsolved_partial_uniform_stack() {
    let b = Board::new(2, 2, vec![vec![empty(), blue()], vec![empty(), empty()]]).unwrap();
    assert!(!b.is_solved());
}

#[test]
fn test_color_is_empty() {
    assert!(empty().is_empty());
    assert!(!blue().is_empty());
}
