use tile_puzzle::color::Color;
use tile_puzzle::grid::Grid;
use tile_puzzle::puzzle::{Puzzle, PuzzleCell};
use tile_puzzle::savegame::{decode, encode, SaveGameError};
use tile_puzzle::settings::{
    generate_puzzle_size, hue_variance, pattern_at, pattern_weights, LockingPattern, PuzzleSettings, Tone,
};

const PATTERNS: [LockingPattern; 11] = [
    LockingPattern::Corners,
    LockingPattern::Borders,
    LockingPattern::ReverseBorders,
    LockingPattern::CheckerboardA,
    LockingPattern::CheckerboardB,
    LockingPattern::HalfCheckerboardA,
    LockingPattern::HalfCheckerboardB,
    LockingPattern::ShortLinesA,
    LockingPattern::ShortLinesB,
    LockingPattern::LongLinesA,
    LockingPattern::LongLinesB,
];

fn tones() -> [Tone; 4] {
    [
        Tone { saturation: 9000, lightness: 5000 },
        Tone { saturation: 8500, lightness: 5100 },
        Tone { saturation: 9500, lightness: 4900 },
        Tone { saturation: 10000, lightness: 5000 },
    ]
}

fn growth(difficulty: usize) -> usize {
    (difficulty as f64).log(4.0).powf(2.0).trunc() as usize
}

fn settings(pattern: LockingPattern, win: (usize, usize), seed: u64) -> PuzzleSettings {
    PuzzleSettings::from_draws(1, 0, win, 0, tones(), pattern, seed)
}

fn cells(p: &Puzzle) -> Vec<PuzzleCell> {
    p.to_cells()
}

fn grid_of(width: usize, height: usize) -> Grid<(usize, usize)> {
    Grid::from_closure(width, height, |x, y| (x, y))
}

#[test]
fn grid_is_row_major() {
    let g = grid_of(3, 2);
    assert_eq!(g.dims(), (3, 2));
    assert_eq!(*g.get(0), (0, 0));
    assert_eq!(*g.get(2), (2, 0));
    assert_eq!(*g.get(3), (0, 1));
    assert_eq!(*g.get(5), (2, 1));
    let mut it = g.iter();
    let mut seen = Vec::new();
    while let Some(c) = it.next() {
        seen.push(*c);
    }
    assert_eq!(seen, vec![(0, 0), (1, 0), (2, 0), (0, 1), (1, 1), (2, 1)]);
    assert!(it.next().is_none());
}

#[test]
fn grid_swap_twice_restores() {
    let mut g = grid_of(4, 3);
    g.swap(1, 7);
    assert_eq!(*g.get(1), (3, 1));
    assert_eq!(*g.get(7), (1, 0));
    g.swap(1, 7);
    assert_eq!(*g.get(1), (1, 0));
    assert_eq!(*g.get(7), (3, 1));
    g.swap(5, 5);
    assert_eq!(*g.get(5), (1, 1));
}

#[test]
fn puzzle_sizes() {
    // wide viewport: the shorter side is the height
    assert_eq!(generate_puzzle_size(0, (1000, 500)), (10, 5));
    assert_eq!(generate_puzzle_size(0, (500, 1000)), (5, 10));
    // 5 * 1.3 = 6.5 rounds up
    assert_eq!(generate_puzzle_size(0, (1300, 1000)), (7, 5));
    assert_eq!(generate_puzzle_size(0, (1000, 1000)), (5, 5));
    assert_eq!(generate_puzzle_size(1, (1000, 1000)), (6, 6));
    assert_eq!(growth(1), 0);
    assert_eq!(growth(16), 4);
}

#[test]
fn hue_variance_narrows() {
    assert_eq!(hue_variance(1), 30000);
    assert_eq!(hue_variance(2), 29900);
    assert_eq!(hue_variance(211), 9000);
    assert_eq!(hue_variance(1000), 9000);
}

#[test]
fn pattern_table() {
    assert_eq!(pattern_weights(), vec![1, 2, 5, 5, 6, 6, 7, 7, 7, 7, 2]);
    assert_eq!(pattern_at(0), LockingPattern::Corners);
    assert_eq!(pattern_at(10), LockingPattern::ReverseBorders);
}

#[test]
fn settings_from_draws() {
    let s = settings(LockingPattern::Borders, (1000, 500), 42);
    assert_eq!((s.difficulty(), s.width(), s.height()), (1, 10, 5));
    assert_eq!(s.locking_pattern(), LockingPattern::Borders);
    assert_eq!(s.shuffle_seed(), 42);
    assert_eq!(s.next_seed().shuffle_seed(), 43);
    // hues 0, 75, 150 and 225 degrees clockwise from the top left
    let (tl, tr, bl, br) = s.gradient().corner_colors();
    assert_eq!(tl, Color::HSL { h: 0, s: 9000, l: 5000 }.to_rgb());
    assert_eq!(tr, Color::HSL { h: 7500, s: 8500, l: 5100 }.to_rgb());
    assert_eq!(br, Color::HSL { h: 15000, s: 9500, l: 4900 }.to_rgb());
    assert_eq!(bl, Color::HSL { h: 22500, s: 10000, l: 5000 }.to_rgb());
    assert_eq!(tl, Color::rgb(242, 12, 12));
}

#[test]
fn cell_locks() {
    let s = settings(LockingPattern::Corners, (1000, 500), 1);
    assert!(s.is_cell_locked(0, 0));
    assert!(s.is_cell_locked(9, 4));
    assert!(!s.is_cell_locked(1, 0));
    let s = settings(LockingPattern::CheckerboardA, (1000, 500), 1);
    assert!(s.is_cell_locked(1, 1));
    assert!(!s.is_cell_locked(1, 2));
    let s = settings(LockingPattern::ShortLinesA, (1000, 500), 1);
    assert!(s.is_cell_locked(2, 1));
    assert!(!s.is_cell_locked(3, 1));
    let s = settings(LockingPattern::LongLinesB, (1000, 500), 1);
    assert!(s.is_cell_locked(0, 1));
    assert!(!s.is_cell_locked(0, 2));
}

#[test]
fn cell_colors_follow_the_gradient() {
    let s = settings(LockingPattern::Corners, (1000, 500), 1);
    let (tl, tr, bl, br) = s.gradient().corner_colors();
    assert_eq!(s.get_cell_color(0, 0), tl);
    assert_eq!(s.get_cell_color(9, 0), tr);
    assert_eq!(s.get_cell_color(0, 4), bl);
    assert_eq!(s.get_cell_color(9, 4), br);
}

#[test]
fn unshuffled_puzzle_is_solved() {
    let p = Puzzle::from_settings(settings(LockingPattern::Borders, (1000, 500), 3), false);
    assert!(p.is_solved());
    for (i, c) in cells(&p).iter().enumerate() {
        assert_eq!(c.solved_position, i);
    }
}

#[test]
fn solved_exactly_at_identity() {
    let mut p = Puzzle::from_settings(settings(LockingPattern::Corners, (1000, 500), 3), false);
    assert!(p.is_solved());
    p.swap(1, 2);
    assert!(!p.is_solved());
    assert_eq!(p.get(1).solved_position, 2);
    p.swap(1, 2);
    assert!(p.is_solved());
}

#[test]
fn shuffle_keeps_locked_cells_for_every_pattern() {
    for &pattern in PATTERNS.iter() {
        for &win in &[(1000, 500), (500, 1000), (2, 2), (300, 200)] {
            for seed in 0..4u64 {
                let s = settings(pattern, win, seed);
                let solved = cells(&Puzzle::from_settings(s, false));
                let p = Puzzle::from_settings(s, true);
                let shuffled = cells(&p);
                assert_eq!(shuffled.len(), solved.len());
                for (before, after) in solved.iter().zip(shuffled.iter()) {
                    if before.is_locked {
                        assert_eq!(before, after);
                    }
                    assert_eq!(before.is_locked, after.is_locked);
                }
                let mut a: Vec<usize> = solved.iter().map(|c| c.solved_position).collect();
                let mut b: Vec<usize> = shuffled.iter().map(|c| c.solved_position).collect();
                a.sort();
                b.sort();
                assert_eq!(a, b);
                if solved.iter().filter(|c| !c.is_locked).count() >= 2 {
                    assert!(!p.is_solved());
                }
            }
        }
    }
}

#[test]
fn shuffle_is_fixed_by_the_seed() {
    let s = settings(LockingPattern::CheckerboardB, (1000, 500), 77);
    let a = Puzzle::from_settings(s, true);
    let b = Puzzle::from_settings(s, true);
    assert_eq!(cells(&a), cells(&b));
    assert_eq!(a.settings, b.settings);
}

#[test]
fn level_one_on_a_wide_viewport() {
    let p = Puzzle::generate_lvl1(1, growth(1), (1000, 500), tones(), true);
    let (w, h) = p.dimensions();
    assert!(w > h);
    assert_eq!(h, 5);
    assert_eq!(p.settings.difficulty(), 1);
    assert!(!p.is_solved());

    let corners = Puzzle::from_settings(settings(LockingPattern::Corners, (1000, 500), 9), true);
    let (w, h) = corners.dimensions();
    for &i in &[0, w - 1, (h - 1) * w, h * w - 1] {
        assert!(corners.get(i).is_locked);
        assert_eq!(corners.get(i).solved_position, i);
    }
    assert!(!corners.is_solved());
}

#[test]
fn next_level_from_a_solved_puzzle() {
    let mut p = Puzzle::from_settings(settings(LockingPattern::Corners, (1000, 500), 5), false);
    assert!(p.is_solved());
    let (_, short_before) = p.dimensions();
    let difficulty = p.settings.difficulty() + 1;
    p.next_level(growth(difficulty), (1000, 500), tones(), true);
    assert_eq!(p.settings.difficulty(), 2);
    let (w, h) = p.dimensions();
    assert!(w.min(h) >= short_before);
    assert!(!p.is_solved());
}

#[test]
fn save_and_restore_round_trip() {
    let p = Puzzle::generate_lvl1(1, 0, (800, 600), tones(), true);
    let restored = Puzzle::from_parts(p.settings, p.to_cells()).unwrap();
    assert_eq!(restored.settings, p.settings);
    assert_eq!(restored.to_cells(), p.to_cells());
    let s = p.settings;
    let same = PuzzleSettings::from_parts(
        s.difficulty(),
        s.width(),
        s.height(),
        s.gradient(),
        s.locking_pattern(),
        s.shuffle_seed(),
    );
    assert_eq!(same, Some(s));
}

#[test]
fn restore_refuses_bad_cells() {
    let p = Puzzle::from_settings(settings(LockingPattern::Corners, (1000, 500), 5), false);
    let mut short = p.to_cells();
    short.pop();
    assert!(Puzzle::from_parts(p.settings, short).is_none());
    let mut twice = p.to_cells();
    twice[3].solved_position = 4;
    assert!(Puzzle::from_parts(p.settings, twice).is_none());
    let mut out_of_range = p.to_cells();
    out_of_range[0].solved_position = 50;
    assert!(Puzzle::from_parts(p.settings, out_of_range).is_none());
    let s = p.settings;
    assert!(PuzzleSettings::from_parts(0, 10, 5, s.gradient(), s.locking_pattern(), 1).is_none());
    assert!(PuzzleSettings::from_parts(1, 1, 5, s.gradient(), s.locking_pattern(), 1).is_none());
    assert!(PuzzleSettings::from_parts(1, usize::MAX, 5, s.gradient(), s.locking_pattern(), 1).is_none());
}

#[test]
fn savegame_text_round_trip() {
    assert_eq!(encode(b"abc"), "YWJj");
    assert_eq!(encode(b"ab"), "YWI=");
    assert_eq!(encode(b""), "");
    assert_eq!(decode("YWJj"), Ok(b"abc".to_vec()));
    let bytes: Vec<u8> = (0..=255u8).collect();
    assert_eq!(decode(&encode(&bytes)), Ok(bytes));
    assert_eq!(decode("not base64!"), Err(SaveGameError));
}

#[test]
fn apply_swaps_in_turn() {
    let mut p = Puzzle::from_settings(settings(LockingPattern::Borders, (1000, 500), 3), false);
    // 11, 12 and 13 are interior cells of the 10 by 5 grid
    p.apply_swaps(&vec![11, 12], &vec![12, 13]);
    assert_eq!(p.get(11).solved_position, 12);
    assert_eq!(p.get(12).solved_position, 13);
    assert_eq!(p.get(13).solved_position, 11);
    assert_eq!(p.get(14).solved_position, 14);
}

#[test]
fn different_seeds_shuffle_differently() {
    let a = Puzzle::from_settings(settings(LockingPattern::Corners, (1000, 500), 1), true);
    let b = Puzzle::from_settings(settings(LockingPattern::Corners, (1000, 500), 2), true);
    assert_ne!(cells(&a), cells(&b));
    // a first attempt that is not solved keeps its seed
    assert_eq!(a.settings.shuffle_seed(), 1);
}

#[test]
fn tiny_grids() {
    let g = settings(LockingPattern::Corners, (1000, 500), 0).gradient();
    // every cell of a 2 by 2 grid is a corner: nothing can move
    let all_locked = PuzzleSettings::from_parts(1, 2, 2, g, LockingPattern::Corners, 0).unwrap();
    let p = Puzzle::from_settings(all_locked, true);
    assert!(p.is_solved());
    // a 3 by 2 grid has two unlocked cells in its middle column: they trade places
    let two_free = PuzzleSettings::from_parts(1, 3, 2, g, LockingPattern::Corners, 0).unwrap();
    let p = Puzzle::from_settings(two_free, true);
    assert!(!p.is_solved());
    assert_eq!(p.get(1).solved_position, 4);
    assert_eq!(p.get(4).solved_position, 1);
}

#[test]
fn settings_from_difficulty() {
    let s = PuzzleSettings::from_difficulty(3, growth(3), (600, 900), tones());
    assert_eq!(s.difficulty(), 3);
    assert_eq!((s.width(), s.height()), (5, 8));
    let (tl, tr, bl, br) = s.gradient().corner_colors();
    for c in [tl, tr, bl, br].iter() {
        assert!(c.is_rgb());
    }
    let p = tile_puzzle::settings::generate_locking_pattern(3);
    assert!(PATTERNS.contains(&p));
}

#[test]
fn shuffle_may_keep_a_free_cell_in_place() {
    // the shuffle promises an unsolved grid, not that every free cell moves
    let mut some_cell_stays = false;
    for seed in 0..20u64 {
        let p = Puzzle::from_settings(settings(LockingPattern::Corners, (1000, 500), seed), true);
        for (i, c) in cells(&p).iter().enumerate() {
            if !c.is_locked && c.solved_position == i {
                some_cell_stays = true;
            }
        }
    }
    assert!(some_cell_stays);
}

#[test]
fn shuffle_in_place() {
    let s = settings(LockingPattern::HalfCheckerboardA, (1000, 500), 11);
    let mut p = Puzzle::from_settings(s, false);
    let before = cells(&p);
    p.shuffle();
    let after = cells(&p);
    for (b, a) in before.iter().zip(after.iter()) {
        assert_eq!(b.is_locked, a.is_locked);
        if b.is_locked {
            assert_eq!(b, a);
        }
    }
    assert!(!p.is_solved());
    assert_eq!(p.settings(), p.settings);
    // shuffling from the solved order is what construction does
    assert_eq!(after, cells(&Puzzle::from_settings(s, true)));
}

#[test]
fn next_level_keeps_a_growing_short_side() {
    let mut p = Puzzle::generate_lvl1(15, growth(15), (700, 1400), tones(), true);
    let (w0, h0) = p.dimensions();
    p.next_level(growth(16), (700, 1400), tones(), true);
    let (w1, h1) = p.dimensions();
    assert_eq!(p.settings().difficulty(), 16);
    assert_eq!(w1.min(h1), 5 + growth(16));
    assert!(w1.min(h1) >= w0.min(h0));
    assert!(!p.is_solved());
}
