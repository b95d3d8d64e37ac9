use lsystem_plant::actions::Action;
use lsystem_plant::actions::ActionTable;
use lsystem_plant::anim::AnimationController;
use lsystem_plant::frame::render_frame;
use lsystem_plant::freq::calc_freq;
use lsystem_plant::geom::Viewport;
use lsystem_plant::grammar::Rule;
use lsystem_plant::grammar::gen_sequence;
use lsystem_plant::raster::Canvas;
use lsystem_plant::viewport::fit;

const WHITE: u32 = 0xFFFFFFFF;
const BLACK: u32 = 0xFF000000;

fn chars(s: &str) -> Vec<char> {
    s.chars().collect()
}

fn quarter_dirs() -> Vec<(i32, i32)> {
    vec![(65536, 0), (0, 65536), (-65536, 0), (0, -65536)]
}

fn table() -> ActionTable {
    let mut t = ActionTable::new();
    t.insert('F', Action::Move);
    t.insert('+', Action::Turn(1));
    t.insert('-', Action::Turn(-1));
    t.insert('[', Action::Push(0));
    t.insert(']', Action::Pop(0));
    t.insert('X', Action::Idle);
    t
}

#[test]
fn fit_scales_a_straight_path() {
    let cmds = chars("FF");
    let vp = fit(&cmds, &table(), &quarter_dirs(), 100, 100, 50);
    // the path spans two unit steps in x and none in y; the x ratio binds:
    // available 100 px * 256 * 90% = 23040 subpixels over 2 unit steps
    assert_eq!(vp.scale, 11520);
    assert_eq!(vp.ox, 1280);
    assert_eq!(vp.oy, 1280);
}

#[test]
fn fit_of_empty_path_uses_fallback_extent() {
    let cmds = chars("");
    let vp = fit(&cmds, &table(), &quarter_dirs(), 100, 100, 50);
    // a degenerate path falls back to a one-unit extent on both axes
    assert_eq!(vp.scale, 23040);
    assert!(vp.scale > 0);
}

#[test]
fn fit_scale_is_floored_at_one() {
    // a one-pixel-wide canvas under a near-half margin leaves no available
    // width, so the raw ratio truncates to zero; the scale must stay
    // positive
    let cmds = chars("F");
    let dirs = vec![(65536, 0)];
    let mut t = ActionTable::new();
    t.insert('F', Action::Move);
    let vp = fit(&cmds, &t, &dirs, 1, 600, 499);
    assert_eq!(vp.scale, 1);
}

#[test]
fn fitted_path_stays_inside_the_margin_box() {
    // a branch-free path: the drawn pixels sit inside the 5% margin box,
    // up to the one-subpixel-per-command truncation drift
    let cmds = chars("FFFF+FF+FF");
    let vp = fit(&cmds, &table(), &quarter_dirs(), 100, 100, 50);
    let mut c = Canvas::new(100, 100, WHITE);
    render_frame(&mut c, &cmds, cmds.len(), &table(), &quarter_dirs(), vp, WHITE, BLACK);
    for y in 0..100usize {
        for x in 0..100usize {
            if c.get(x, y) == BLACK {
                assert!((4..=95).contains(&x) && (4..=95).contains(&y), "pixel ({}, {})", x, y);
            }
        }
    }
}

#[test]
fn render_frame_draws_the_revealed_prefix() {
    let mut c = Canvas::new(4, 4, WHITE);
    let cmds = chars("F");
    let vp = Viewport { scale: 256, ox: 0, oy: 0 };
    render_frame(&mut c, &cmds, 1, &table(), &quarter_dirs(), vp, WHITE, BLACK);
    assert_eq!(c.get(0, 0), BLACK);
    assert_eq!(c.get(1, 0), BLACK);
    assert_eq!(c.get(2, 0), WHITE);
    assert_eq!(c.get(1, 1), WHITE);
}

#[test]
fn render_frame_with_cursor_zero_clears_only() {
    let mut c = Canvas::new(4, 4, BLACK);
    let cmds = chars("FFF");
    let vp = Viewport { scale: 256, ox: 0, oy: 0 };
    render_frame(&mut c, &cmds, 0, &table(), &quarter_dirs(), vp, WHITE, BLACK);
    for y in 0..4usize {
        for x in 0..4usize {
            assert_eq!(c.get(x, y), WHITE);
        }
    }
}

#[test]
fn whole_pipeline_draws_something() {
    let start = chars("+++X");
    let rules = vec![
        Rule { from: 'X', to: chars("F+[[X]-X]-F[-FX]+X") },
        Rule { from: 'F', to: chars("FF") },
    ];
    let cmds = gen_sequence(&start, &rules, 3).unwrap();
    // 25-degree turns over a 5-degree direction table: 72 headings
    let mut dirs: Vec<(i32, i32)> = Vec::new();
    for i in 0..72u32 {
        let a = (i as f64) * 5.0f64.to_radians();
        dirs.push(((a.cos() * 65536.0).round() as i32, (a.sin() * 65536.0).round() as i32));
    }
    let mut t = table();
    t.insert('+', Action::Turn(-5));
    t.insert('-', Action::Turn(5));
    let vp = fit(&cmds, &t, &dirs, 64, 64, 50);
    let mut c = Canvas::new(64, 64, WHITE);
    render_frame(&mut c, &cmds, cmds.len(), &t, &dirs, vp, WHITE, BLACK);
    let drawn = c.pixels().iter().filter(|&&p| p == BLACK).count();
    assert!(drawn > 0);
}

#[test]
fn animation_advances_once_per_interval() {
    let mut a = AnimationController::new(3, 5);
    assert_eq!(a.cursor(), 0);
    assert!(a.is_running());
    assert!(!a.tick(4, false));
    assert_eq!(a.cursor(), 0);
    assert!(a.tick(5, false));
    assert_eq!(a.cursor(), 1);
    assert!(a.tick(17, false));
    assert!(a.tick(5, false));
    assert_eq!(a.cursor(), 3);
    // clamped at the sequence length, though ticks keep reporting advances
    assert!(a.tick(5, false));
    assert_eq!(a.cursor(), 3);
}

#[test]
fn cancellation_stops_the_animation_for_good() {
    let mut a = AnimationController::new(10, 5);
    assert!(a.tick(5, false));
    assert!(!a.tick(5, true));
    assert!(!a.is_running());
    assert_eq!(a.cursor(), 1);
    assert!(!a.tick(100, false));
    assert_eq!(a.cursor(), 1);
}

#[test]
fn calc_freq_tallies_each_face() {
    let rolls = vec![1, 2, 2, 6, 2, 1];
    assert_eq!(calc_freq(&rolls), [2, 3, 0, 0, 0, 1]);
}

#[test]
fn calc_freq_of_no_rolls_is_all_zero() {
    let rolls: Vec<i32> = Vec::new();
    assert_eq!(calc_freq(&rolls), [0, 0, 0, 0, 0, 0]);
}
