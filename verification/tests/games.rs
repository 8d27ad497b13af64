use huayuan::dice::{scale_draw, Draws};
use huayuan::game_2048::{swipe_direction, tile_class, tile_color, transpose, Game2048};
use huayuan::make10::Make10Game;
use huayuan::match3::{gem_color, gem_label, Match3Game};

const FOUR: u32 = 4_000_000_000;

fn game(board: [i32; 16]) -> Game2048 {
    Game2048 { board: board.to_vec(), score: 0, moves: 0, over: false }
}

#[test]
fn draws_scale_to_a_range() {
    assert_eq!(scale_draw(0, 16), 0);
    assert_eq!(scale_draw(u32::MAX, 16), 15);
    assert_eq!(scale_draw(1 << 31, 10), 5);
    let mut d = Draws::new(vec![7, 8]);
    assert_eq!(d.remaining(), 2);
    assert_eq!(d.take(), 7);
    assert_eq!(d.remaining(), 1);
}

#[test]
fn new_2048_places_two_tiles() {
    let mut d = Draws::new(vec![0, 0, 0, FOUR]);
    let g = Game2048::new(&mut d);
    let mut expected = vec![0; 16];
    expected[0] = 2;
    expected[1] = 4;
    assert_eq!(g.board, expected);
    assert_eq!((g.score, g.moves, g.over), (0, 0, false));
    assert_eq!(d.remaining(), 0);
}

#[test]
fn left_merges_each_pair_once() {
    let mut g = game([2, 2, 2, 2, 4, 0, 4, 8, 0, 0, 0, 0, 0, 0, 0, 0]);
    let mut d = Draws::new(vec![u32::MAX, 0]);
    g.move_dir("left", &mut d);
    assert_eq!(&g.board[0..8], &[4, 4, 0, 0, 8, 8, 0, 0]);
    assert_eq!(g.score, 16);
    assert_eq!(g.moves, 1);
    assert_eq!(g.board[15], 2);
    assert!(!g.over);
}

#[test]
fn right_up_and_down_slide_their_way() {
    let mut g = game([2, 0, 0, 2, 0, 0, 0, 0, 0, 0, 0, 0, 0, 0, 0, 0]);
    let mut d = Draws::new(vec![0, 0]);
    g.move_dir("right", &mut d);
    assert_eq!(g.board[3], 4);
    assert_eq!(g.board[0], 2);
    let mut g = game([2, 0, 0, 0, 0, 0, 0, 0, 0, 0, 0, 0, 2, 0, 0, 0]);
    let mut d = Draws::new(vec![u32::MAX, 0]);
    g.move_dir("up", &mut d);
    assert_eq!(g.board[0], 4);
    assert_eq!(g.board[12], 0);
    assert_eq!(g.board[15], 2);
    let mut g = game([2, 0, 0, 0, 2, 0, 0, 0, 0, 0, 0, 0, 0, 0, 0, 0]);
    let mut d = Draws::new(vec![0, 0]);
    g.move_dir("down", &mut d);
    assert_eq!(g.board[12], 4);
    assert_eq!(g.score, 4);
}

#[test]
fn a_move_that_changes_nothing_is_not_counted() {
    let mut g = game([2, 4, 0, 0, 0, 0, 0, 0, 0, 0, 0, 0, 0, 0, 0, 0]);
    let mut d = Draws::new(vec![]);
    g.move_dir("left", &mut d);
    assert_eq!((g.score, g.moves), (0, 0));
    g.move_dir("sideways", &mut d);
    assert_eq!(g.moves, 0);
}

#[test]
fn a_board_with_no_move_left_ends_the_game() {
    let mut g = game([2, 4, 2, 4, 4, 2, 4, 2, 2, 4, 2, 4, 8, 16, 32, 0]);
    let mut d = Draws::new(vec![0, FOUR]);
    g.move_dir("right", &mut d);
    assert!(g.over);
    let before = g.board.clone();
    let mut d = Draws::new(vec![0, 0]);
    g.move_dir("left", &mut d);
    assert_eq!(g.board, before);
}

#[test]
fn large_tiles_move_while_their_merges_fit() {
    let mut g = game([1 << 30, 0, 0, 0, 0, 0, 0, 0, 0, 0, 0, 0, 0, 0, 0, 0]);
    let mut d = Draws::new(vec![0, 0]);
    g.move_dir("right", &mut d);
    assert_eq!(g.board[3], 1 << 30);
    assert_eq!((g.score, g.moves), (0, 1));
    let mut g = game([1 << 29, 1 << 29, 1 << 29, 0, 0, 0, 0, 0, 0, 0, 0, 0, 0, 0, 0, 0]);
    let mut d = Draws::new(vec![u32::MAX, 0]);
    g.move_dir("left", &mut d);
    assert_eq!(&g.board[0..4], &[1 << 30, 1 << 29, 0, 0]);
    assert_eq!(g.score, 1 << 30);
    let mut g = game([1 << 30, 1 << 30, 0, 0, 0, 0, 0, 0, 0, 0, 0, 0, 0, 0, 0, 0]);
    g.over = true;
    let mut d = Draws::new(vec![]);
    g.move_dir("left", &mut d);
    assert_eq!(g.board[0], 1 << 30);
    assert_eq!(g.moves, 0);
}

#[test]
fn tile_styles() {
    assert_eq!(tile_class(0), "game2048-cell empty");
    assert_eq!(tile_class(4), "game2048-cell low");
    assert_eq!(tile_class(64), "game2048-cell");
    assert_eq!(tile_class(512), "game2048-cell large");
    assert_eq!(tile_class(1024), "game2048-cell huge");
    assert_eq!(tile_color(2048), "#3f3a54");
    assert_eq!(tile_color(4096), "#2f2a3d");
    assert_eq!(tile_color(0), "#263247");
}

fn make10(board: [i32; 16]) -> Make10Game {
    Make10Game {
        board: board.to_vec(),
        score: 0,
        moves_left: 16,
        combos: 0,
        selected: Vec::new(),
        message: String::new(),
    }
}

#[test]
fn new_make10_deals_digits_from_draws() {
    let mut draws = vec![0u32; 16];
    draws[3] = u32::MAX;
    let mut d = Draws::new(draws);
    let g = Make10Game::new(&mut d);
    assert_eq!(g.board[0], 1);
    assert_eq!(g.board[3], 9);
    assert_eq!((g.score, g.moves_left, g.combos), (0, 16, 0));
    assert_eq!(g.message, "点选相邻数字，凑到 10 自动清除。");
}

#[test]
fn make10_chain_to_ten_scores_and_refills() {
    let mut g = make10([3, 7, 1, 1, 1, 1, 1, 1, 1, 1, 1, 1, 1, 1, 1, 1]);
    let mut d = Draws::new(vec![u32::MAX, u32::MAX]);
    g.tap(0, &mut d);
    assert_eq!(g.message, "当前合计 3，继续找相邻数字。");
    assert_eq!(g.selected_sum(), 3);
    g.tap(1, &mut d);
    assert_eq!(g.message, "正好到十，连击 1。");
    assert_eq!(g.score, 20 + 2 * 12);
    assert_eq!((g.combos, g.moves_left), (1, 15));
    assert_eq!(&g.board[0..2], &[9, 9]);
    assert!(g.selected.is_empty());
}

#[test]
fn make10_untap_break_and_overflow() {
    let mut g = make10([5, 6, 1, 1, 1, 1, 1, 1, 1, 1, 1, 1, 1, 1, 1, 1]);
    let mut d = Draws::new(vec![]);
    g.tap(0, &mut d);
    g.tap(0, &mut d);
    assert_eq!(g.message, "已移除一个数字。");
    assert!(g.selected.is_empty());
    g.tap(0, &mut d);
    g.tap(10, &mut d);
    assert_eq!(g.message, "路线断开，已重新开始选择。");
    assert_eq!(g.selected, vec![10]);
    g.tap(0, &mut d);
    assert_eq!(g.message, "路线断开，已重新开始选择。");
    assert_eq!(g.selected, vec![0]);
    let mut g = make10([5, 6, 1, 1, 1, 1, 1, 1, 1, 1, 1, 1, 1, 1, 1, 1]);
    g.tap(0, &mut d);
    g.tap(1, &mut d);
    assert_eq!(g.message, "超过 10 了，从当前数字重新开始。");
    assert_eq!(g.selected, vec![1]);
    g.tap(16, &mut d);
    assert_eq!(g.selected, vec![1]);
}

fn match3(board: Vec<i32>) -> Match3Game {
    Match3Game { board, score: 0, moves_left: 18, selected: None, message: String::new() }
}

fn chequered_board() -> Vec<i32> {
    (0..36).map(|i| ((i / 6 + i % 6) % 2) as i32 + 2 * ((i / 6) % 2) as i32).collect()
}

#[test]
fn match3_selection_rules() {
    let mut g = match3(chequered_board());
    let mut d = Draws::new(vec![]);
    g.tap(0, &mut d);
    assert_eq!(g.selected, Some(0));
    assert_eq!(g.message, "选择相邻图块进行交换。");
    g.tap(0, &mut d);
    assert_eq!(g.selected, None);
    assert_eq!(g.message, "已取消选择。");
    g.tap(0, &mut d);
    g.tap(14, &mut d);
    assert_eq!(g.selected, Some(14));
    assert_eq!(g.message, "只能交换上下左右相邻图块。");
    g.tap(40, &mut d);
    assert_eq!(g.selected, Some(14));
}

#[test]
fn match3_swap_without_a_line_is_taken_back() {
    let board = chequered_board();
    let mut g = match3(board.clone());
    let mut d = Draws::new(vec![]);
    g.tap(0, &mut d);
    g.tap(1, &mut d);
    assert_eq!(g.board, board);
    assert_eq!(g.moves_left, 18);
    assert_eq!(g.message, "这次交换没有形成三连。");
}

#[test]
fn match3_swap_that_lines_up_three_clears_them() {
    let mut board = chequered_board();
    board[0] = 4;
    board[1] = 4;
    board[3] = 4;
    board[2] = 0;
    let mut g = match3(board);
    let mut d = Draws::new(vec![0, 1 << 30, 1_717_986_919]);
    g.tap(2, &mut d);
    g.tap(3, &mut d);
    assert_eq!(g.moves_left, 17);
    assert_eq!(g.score, 30);
    assert_eq!(g.message, "清扫成功，消除 3 个图块。");
    assert_eq!(&g.board[0..3], &[0, 1, 2]);
}

#[test]
fn gem_styles() {
    assert_eq!(gem_label(0), "叶");
    assert_eq!(gem_label(3), "丝");
    assert_eq!(gem_label(9), "星");
    assert_eq!(gem_color(1), "#ef6f8f");
    assert_eq!(gem_color(4), "#77c96f");
}

#[test]
fn range_check_of_moves() {
    let g = game([2, 2, 0, 0, 0, 0, 0, 0, 0, 0, 0, 0, 0, 0, 0, 0]);
    assert!(g.move_fits("left", 2));
    assert!(!g.move_fits("left", 0));
    assert!(g.move_fits("sideways", 0));
    let big = game([1 << 30, 0, 0, 0, 0, 0, 0, 0, 0, 0, 0, 0, 0, 0, 0, 0]);
    assert!(big.move_fits("right", 2));
    let too_big = game([1 << 30, 1 << 30, 0, 0, 0, 0, 0, 0, 0, 0, 0, 0, 0, 0, 0, 0]);
    assert!(!too_big.move_fits("left", 2));
    assert!(!too_big.move_fits("right", 2));
    assert!(too_big.move_fits("up", 2));
    assert!(too_big.move_fits("sideways", 2));
    let three = game([1 << 29, 1 << 29, 1 << 29, 0, 0, 0, 0, 0, 0, 0, 0, 0, 0, 0, 0, 0]);
    assert!(three.move_fits("left", 2));
    let mut finished = game([1 << 30, 1 << 30, 0, 0, 0, 0, 0, 0, 0, 0, 0, 0, 0, 0, 0, 0]);
    finished.over = true;
    assert!(finished.move_fits("left", 0));
    let two_rows = game([1 << 29, 1 << 29, 0, 0, 1 << 29, 1 << 29, 0, 0, 0, 0, 0, 0, 0, 0, 0, 0]);
    assert!(!two_rows.move_fits("left", 2));
    let mut g = game([2, 2, 0, 0, 0, 0, 0, 0, 0, 0, 0, 0, 0, 0, 0, 0]);
    g.score = i32::MAX - 1;
    assert!(!g.move_fits("left", 2));
}

#[test]
fn range_check_of_taps() {
    let g = make10([5, 5, 1, 1, 1, 1, 1, 1, 1, 1, 1, 1, 1, 1, 1, 1]);
    assert!(g.tap_fits(0, 0));
    let mut g = make10([5, 5, 1, 1, 1, 1, 1, 1, 1, 1, 1, 1, 1, 1, 1, 1]);
    g.selected = vec![0];
    assert!(g.tap_fits(1, 2));
    assert!(!g.tap_fits(1, 1));
    g.score = i32::MAX - 10;
    assert!(!g.tap_fits(1, 2));
    assert!(g.tap_fits(5, 2));
    g.selected = vec![20];
    assert!(!g.tap_fits(1, 2));
    let m = match3(chequered_board());
    assert!(m.tap_fits(0, &Draws::new(vec![0; 288])));
    assert!(!m.tap_fits(0, &Draws::new(vec![0; 287])));
    let mut m = match3(chequered_board());
    m.score = i32::MAX - 100;
    assert!(!m.tap_fits(0, &Draws::new(vec![0; 288])));
}

#[test]
fn transposing_twice_gives_back_the_board() {
    let board: Vec<i32> = (0..16).collect();
    let t = transpose(&board);
    assert_eq!(t[1], board[4]);
    assert_eq!(t[4 * 3 + 2], board[2 * 4 + 3]);
    assert_eq!(transpose(&t), board);
}

#[test]
fn swipes_pick_the_longer_axis_past_the_threshold() {
    assert_eq!(swipe_direction(26, -26), None);
    assert_eq!(swipe_direction(0, 0), None);
    assert_eq!(swipe_direction(27, 3), Some("right"));
    assert_eq!(swipe_direction(-40, 39), Some("left"));
    assert_eq!(swipe_direction(5, 30), Some("down"));
    assert_eq!(swipe_direction(-30, -30), Some("up"));
    assert_eq!(swipe_direction(i64::MIN, 0), Some("left"));
}
