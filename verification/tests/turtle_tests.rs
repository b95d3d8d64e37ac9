use lsystem_plant::actions::Action;
use lsystem_plant::actions::ActionTable;
use lsystem_plant::geom::Segment;
use lsystem_plant::geom::Viewport;
use lsystem_plant::turtle::render_segments;

fn chars(s: &str) -> Vec<char> {
    s.chars().collect()
}

/// Four quarter-turn directions: east, south, west, north, as unit vectors
/// scaled by 65536.
fn quarter_dirs() -> Vec<(i32, i32)> {
    vec![(65536, 0), (0, 65536), (-65536, 0), (0, -65536)]
}

fn table() -> ActionTable {
    let mut t = ActionTable::new();
    t.insert('F', Action::Move);
    t.insert('+', Action::Turn(1));
    t.insert('-', Action::Turn(-1));
    t.insert('[', Action::Push(0));
    t.insert(']', Action::Pop(0));
    t.insert('X', Action::Idle);
    t
}

fn vp() -> Viewport {
    // one pixel (256 subpixels) per move, pen starting at the origin
    Viewport { scale: 256, ox: 0, oy: 0 }
}

#[test]
fn stack_balance_on_main_path() {
    let cmds = chars("F[+F]F");
    let segs = render_segments(&cmds, cmds.len(), &table(), &quarter_dirs(), vp());
    assert_eq!(segs.len(), 3);
    // the bracketed branch must not perturb the outer path: the last move
    // continues from where the first move ended, along heading zero
    assert_eq!(segs[0], Segment { x0: 0, y0: 0, x1: 256, y1: 0 });
    assert_eq!(segs[1], Segment { x0: 256, y0: 0, x1: 256, y1: 256 });
    assert_eq!(segs[2], Segment { x0: 256, y0: 0, x1: 512, y1: 0 });
}

#[test]
fn empty_pop_is_a_no_op() {
    let cmds = chars("]F");
    let segs = render_segments(&cmds, cmds.len(), &table(), &quarter_dirs(), vp());
    // the pop before any push must not error and must leave the move
    // exactly as if the pop were absent
    assert_eq!(segs.len(), 1);
    assert_eq!(segs[0], Segment { x0: 0, y0: 0, x1: 256, y1: 0 });
}

#[test]
fn monotone_reveal_prefix() {
    let cmds = chars("F[+F]F-FF");
    let short = render_segments(&cmds, 4, &table(), &quarter_dirs(), vp());
    let long = render_segments(&cmds, cmds.len(), &table(), &quarter_dirs(), vp());
    assert!(short.len() <= long.len());
    for i in 0..short.len() {
        assert_eq!(short[i], long[i]);
    }
}

#[test]
fn cursor_past_end_clamps() {
    let cmds = chars("FF");
    let all = render_segments(&cmds, 100, &table(), &quarter_dirs(), vp());
    assert_eq!(all.len(), 2);
    assert_eq!(all[1], Segment { x0: 256, y0: 0, x1: 512, y1: 0 });
}

#[test]
fn negative_turn_wraps_heading() {
    let cmds = chars("-F");
    let segs = render_segments(&cmds, 2, &table(), &quarter_dirs(), vp());
    // one step backward from heading 0 is heading 3: north
    assert_eq!(segs[0], Segment { x0: 0, y0: 0, x1: 0, y1: -256 });
}

#[test]
fn unknown_symbols_are_idle() {
    let cmds = chars("ZFQ");
    let segs = render_segments(&cmds, 3, &table(), &quarter_dirs(), vp());
    assert_eq!(segs.len(), 1);
    assert_eq!(segs[0], Segment { x0: 0, y0: 0, x1: 256, y1: 0 });
}

#[test]
fn origin_offsets_every_segment() {
    let cmds = chars("F");
    let v = Viewport { scale: 256, ox: 1000, oy: 2000 };
    let segs = render_segments(&cmds, 1, &table(), &quarter_dirs(), v);
    assert_eq!(segs[0], Segment { x0: 1000, y0: 2000, x1: 1256, y1: 2000 });
}

#[test]
fn pop_restores_position_after_branch() {
    let cmds = chars("[+FF]F");
    let segs = render_segments(&cmds, cmds.len(), &table(), &quarter_dirs(), vp());
    assert_eq!(segs.len(), 3);
    assert_eq!(segs[2], Segment { x0: 0, y0: 0, x1: 256, y1: 0 });
}
